//! Procedural level generation: rectangular rooms that never touch, carved
//! into a field of walls and joined in sequence by L-shaped corridors.

use crate::grid::{floor_at, in_bounds, lemma_tile_index_bound, lemma_tile_index_injective, tile_at,
    tile_index, GridPosition};
use crate::random::{random_range, random_ratio};
use vstd::prelude::*;

verus! {

/// Number of placement attempts one generation pass makes.
pub const MAX_ROOMS: u32 = 30;

/// Smallest width or height sampled for a room.
pub const MIN_SIZE: u32 = 6;

/// Largest width or height sampled for a room.
pub const MAX_SIZE: u32 = 10;

/// An axis-aligned rectangle with corners (x1, y1) and (x2, y2).
#[derive(Clone, Copy, Debug, PartialEq, Eq, Structural)]
pub struct Rect {
    pub x1: u32,
    pub y1: u32,
    pub x2: u32,
    pub y2: u32,
}

impl Rect {
    /// The cell halfway between the two corners, rounded down.
    pub open spec fn middle(self) -> GridPosition {
        GridPosition { x: ((self.x1 + self.x2) / 2) as u32, y: ((self.y1 + self.y2) / 2) as u32 }
    }

    /// Whether the two rectangles share a cell, borders included.
    pub open spec fn intersects(self, other: Rect) -> bool {
        self.x1 <= other.x2 && self.x2 >= other.x1 && self.y1 <= other.y2 && self.y2 >= other.y1
    }

    /// Whether (x, y) lies strictly inside the rectangle's border.
    pub open spec fn encloses(self, x: int, y: int) -> bool {
        self.x1 < x < self.x2 && self.y1 < y < self.y2
    }

    /// The rectangle whose lower left corner is (x, y), `w` wide and `h` high.
    pub fn new(x: u32, y: u32, w: u32, h: u32) -> (r: Rect)
        requires
            x + w <= u32::MAX,
            y + h <= u32::MAX,
        ensures
            r == (Rect { x1: x, y1: y, x2: (x + w) as u32, y2: (y + h) as u32 }),
    {
        Rect { x1: x, y1: y, x2: x + w, y2: y + h }
    }

    /// The cell halfway between the two corners, rounded down.
    pub fn center(&self) -> (c: GridPosition)
        ensures
            c == self.middle(),
    {
        GridPosition {
            x: ((self.x1 as u64 + self.x2 as u64) / 2) as u32,
            y: ((self.y1 as u64 + self.y2 as u64) / 2) as u32,
        }
    }

    /// Tells whether the two rectangles share a cell, borders included.
    pub fn intersect(&self, other: &Rect) -> (r: bool)
        ensures
            r == self.intersects(*other),
    {
        self.x1 <= other.x2 && self.x2 >= other.x1 && self.y1 <= other.y2 && self.y2 >= other.y1
    }
}

/// Whether (x, y) lies on the horizontal run in row `row` between columns
/// `xa` and `xb`, ends included.
pub open spec fn on_row_run(xa: int, xb: int, row: int, x: int, y: int) -> bool {
    y == row && ((xa <= x <= xb) || (xb <= x <= xa))
}

/// Whether (x, y) lies on the vertical run in column `col` between rows `ya`
/// and `yb`, ends included.
pub open spec fn on_column_run(ya: int, yb: int, col: int, x: int, y: int) -> bool {
    x == col && ((ya <= y <= yb) || (yb <= y <= ya))
}

/// Whether (x, y) lies on the L-shaped corridor from `a` to `b`. With
/// `horizontal_first` the corridor leaves `a` along its row and reaches `b`
/// along `b`'s column; otherwise it leaves along `a`'s column and arrives
/// along `b`'s row.
pub open spec fn on_corridor(
    a: GridPosition,
    b: GridPosition,
    horizontal_first: bool,
    x: int,
    y: int,
) -> bool {
    if horizontal_first {
        on_row_run(a.x as int, b.x as int, a.y as int, x, y) || on_column_run(
            a.y as int,
            b.y as int,
            b.x as int,
            x,
            y,
        )
    } else {
        on_column_run(a.y as int, b.y as int, a.x as int, x, y) || on_row_run(
            a.x as int,
            b.x as int,
            b.y as int,
            x,
            y,
        )
    }
}

/// Whether every cell of the corridor from `a` to `b` is floor.
pub open spec fn corridor_open(
    tiles: Seq<bool>,
    width: u32,
    height: u32,
    a: GridPosition,
    b: GridPosition,
    horizontal_first: bool,
) -> bool {
    forall|x: int, y: int|
        on_corridor(a, b, horizontal_first, x, y) ==> #[trigger] floor_at(tiles, width, height, x, y)
}

/// Whether `a` and `b` are joined by an open L-shaped corridor of either
/// orientation.
pub open spec fn joined(tiles: Seq<bool>, width: u32, height: u32, a: GridPosition, b: GridPosition) -> bool {
    corridor_open(tiles, width, height, a, b, true) || corridor_open(tiles, width, height, a, b, false)
}

/// Whether room `i` of `rooms` accounts for floor at (x, y): the cell lies
/// inside the room, or on a corridor of either orientation from the room
/// before it.
pub open spec fn dug_for(rooms: Seq<Rect>, i: int, x: int, y: int) -> bool {
    rooms[i].encloses(x, y) || (i > 0 && (on_corridor(
        rooms[i - 1].middle(),
        rooms[i].middle(),
        true,
        x,
        y,
    ) || on_corridor(rooms[i - 1].middle(), rooms[i].middle(), false, x, y)))
}

/// Whether one of the rooms from index `from` on accounts for floor at
/// (x, y).
pub open spec fn dug_since(rooms: Seq<Rect>, from: int, x: int, y: int) -> bool {
    exists|i: int| from <= i < rooms.len() && 0 <= i && #[trigger] dug_for(rooms, i, x, y)
}

/// The room at (x, y), `w` wide and `h` high. The sums are taken as they
/// are only where they fit a coordinate.
pub open spec fn room_at(x: u32, y: u32, w: u32, h: u32) -> Rect {
    Rect { x1: x, y1: y, x2: (x + w) as u32, y2: (y + h) as u32 }
}

/// Whether `after` is what offering a room at (x, y), `w` wide and `h` high,
/// makes of the level `before`. A room that is accepted joins the rooms; its
/// interior is floor, and so is the corridor of the given orientation from
/// the centre of the room accepted before it, if there is one; every other
/// tile is as it was. A room that is rejected leaves the level as it was.
pub open spec fn room_offered(
    before: &MapBuilder,
    x: u32,
    y: u32,
    w: u32,
    h: u32,
    horizontal_first: bool,
    after: &MapBuilder,
) -> bool {
    &&& after.width == before.width
    &&& after.height == before.height
    &&& after.tiles@.len() == before.tiles@.len()
    &&& if before.accepts(x, y, w, h) {
        &&& after.rooms@ == before.rooms@.push(room_at(x, y, w, h))
        &&& forall|a: int, b: int|
            #[trigger] after.floor(a, b) == (before.floor(a, b) || room_at(x, y, w, h).encloses(a, b)
                || (before.rooms@.len() > 0 && on_corridor(
                before.rooms@.last().middle(),
                room_at(x, y, w, h).middle(),
                horizontal_first,
                a,
                b,
            )))
    } else {
        after.rooms@ == before.rooms@ && after.tiles@ == before.tiles@
    }
}

/// Whether a generation pass may draw the size `w` by `h` for a room: both
/// lie between `MIN_SIZE` and `MAX_SIZE`.
pub open spec fn may_draw_size(w: u32, h: u32) -> bool {
    MIN_SIZE <= w <= MAX_SIZE && MIN_SIZE <= h <= MAX_SIZE
}

/// Whether the grid of the level holds a room of `w` by `h` with a margin
/// of one tile on every side.
pub open spec fn holds_size(level: &MapBuilder, w: u32, h: u32) -> bool {
    level.width > w + 2 && level.height > h + 2
}

/// Whether a generation pass may draw the offset (x, y) for a room of `w` by
/// `h` on the level: the room keeps a margin of one tile to every edge.
pub open spec fn may_draw_offset(level: &MapBuilder, x: u32, y: u32, w: u32, h: u32) -> bool {
    1 <= x < level.width - w - 1 && 1 <= y < level.height - h - 1
}

/// Whether `after` is what an attempt that has drawn the size `w` by `h` may
/// make of the level `before`. Where the grid holds the size, a room of that
/// size has been offered at an offset that may be drawn, with a corridor of
/// some orientation. Where it does not, the attempt has been skipped and the
/// level is as it was.
pub open spec fn attempt_with_size(before: &MapBuilder, w: u32, h: u32, after: &MapBuilder) -> bool {
    if holds_size(before, w, h) {
        exists|x: u32, y: u32, horizontal_first: bool|
            may_draw_offset(before, x, y, w, h) && #[trigger] room_offered(
                before,
                x,
                y,
                w,
                h,
                horizontal_first,
                after,
            )
    } else {
        &&& after.width == before.width
        &&& after.height == before.height
        &&& after.rooms@ == before.rooms@
        &&& after.tiles@ == before.tiles@
    }
}

/// Whether `after` is what one attempt of a generation pass may make of the
/// level `before`: what the attempt makes of it with some size that it may
/// draw.
pub open spec fn attempt_made(before: &MapBuilder, after: &MapBuilder) -> bool {
    exists|w: u32, h: u32| may_draw_size(w, h) && #[trigger] attempt_with_size(before, w, h, after)
}

/// Whether `after` is what `count` attempts, made one after the other, may
/// make of the level `before`.
pub open spec fn attempts_made(before: &MapBuilder, count: int, after: &MapBuilder) -> bool
    decreases count,
{
    if count <= 0 {
        after.width == before.width && after.height == before.height && after.rooms@
            == before.rooms@ && after.tiles@ == before.tiles@
    } else {
        exists|between: MapBuilder|
            attempts_made(before, count - 1, &between) && #[trigger] attempt_made(&between, after)
    }
}

/// `count` attempts followed by one more are `count + 1` attempts.
proof fn lemma_one_more_attempt(before: &MapBuilder, count: int, between: &MapBuilder, after: &MapBuilder)
    requires
        0 <= count,
        attempts_made(before, count, between),
        attempt_made(between, after),
    ensures
        attempts_made(before, count + 1, after),
{
    let next = count + 1;
    assert(attempts_made(before, next - 1, between));
    assert(attempt_made(between, after));
}

/// A corridor that is open stays open when floor is only ever added.
proof fn lemma_joined_grows(
    before: Seq<bool>,
    after: Seq<bool>,
    width: u32,
    height: u32,
    a: GridPosition,
    b: GridPosition,
)
    requires
        joined(before, width, height, a, b),
        forall|x: int, y: int| #[trigger]
            floor_at(before, width, height, x, y) ==> floor_at(after, width, height, x, y),
    ensures
        joined(after, width, height, a, b),
{
    if corridor_open(before, width, height, a, b, true) {
        assert forall|x: int, y: int| on_corridor(a, b, true, x, y) implies #[trigger] floor_at(
            after,
            width,
            height,
            x,
            y,
        ) by {
            assert(floor_at(before, width, height, x, y));
        }
    } else {
        assert forall|x: int, y: int| on_corridor(a, b, false, x, y) implies #[trigger] floor_at(
            after,
            width,
            height,
            x,
            y,
        ) by {
            assert(floor_at(before, width, height, x, y));
        }
    }
}

/// Appending a room that was accepted, with its interior and its corridor
/// carved, keeps each part of the level's invariant that held.
proof fn lemma_place_keeps_wf(
    before: &MapBuilder,
    after: &MapBuilder,
    room: Rect,
    horizontal_first: bool,
)
    requires
        before.usable(),
        after.sized(),
        after.width == before.width,
        after.height == before.height,
        after.rooms@ == before.rooms@.push(room),
        before.room_fits(room),
        forall|i: int| 0 <= i < before.rooms@.len() ==> !room.intersects(#[trigger] before.rooms@[i]),
        forall|x: int, y: int| #[trigger]
            floor_at(before.tiles@, before.width, before.height, x, y) ==> floor_at(
                after.tiles@,
                before.width,
                before.height,
                x,
                y,
            ),
        forall|x: int, y: int|
            room.encloses(x, y) ==> #[trigger] floor_at(
                after.tiles@,
                before.width,
                before.height,
                x,
                y,
            ),
        before.rooms@.len() > 0 ==> corridor_open(
            after.tiles@,
            before.width,
            before.height,
            before.rooms@.last().middle(),
            room.middle(),
            horizontal_first,
        ),
    ensures
        after.usable(),
        before.rooms_disjoint() ==> after.rooms_disjoint(),
        before.rooms_carved() ==> after.rooms_carved(),
        before.rooms_connected() ==> after.rooms_connected(),
        before.wf() ==> after.wf(),
{
    let count = before.rooms@.len() as int;
    assert(after.rooms_in_bounds()) by {
        assert forall|i: int| 0 <= i < after.rooms@.len() implies after.room_fits(
            #[trigger] after.rooms@[i],
        ) by {
            if i < count {
                assert(before.room_fits(before.rooms@[i]));
            }
        }
    }
    if before.rooms_disjoint() {
        assert forall|i: int, j: int|
            0 <= i < after.rooms@.len() && 0 <= j < after.rooms@.len() && i != j implies !(
            #[trigger] after.rooms@[i]).intersects(#[trigger] after.rooms@[j]) by {
            if i < count && j < count {
                assert(!before.rooms@[i].intersects(before.rooms@[j]));
            } else if i < count {
                assert(!room.intersects(before.rooms@[i]));
            } else {
                assert(!room.intersects(before.rooms@[j]));
            }
        }
    }
    if before.rooms_carved() {
        assert forall|i: int, x: int, y: int|
            0 <= i < after.rooms@.len() && (#[trigger] after.rooms@[i]).encloses(x, y)
                implies #[trigger] floor_at(after.tiles@, after.width, after.height, x, y) by {
            if i < count {
                assert(before.rooms@[i].encloses(x, y));
                assert(floor_at(before.tiles@, before.width, before.height, x, y));
            }
        }
    }
    if before.rooms_connected() {
        assert forall|i: int| 0 < i < after.rooms@.len() implies joined(
            after.tiles@,
            after.width,
            after.height,
            after.rooms@[i - 1].middle(),
            (#[trigger] after.rooms@[i]).middle(),
        ) by {
            if i < count {
                assert(joined(
                    before.tiles@,
                    before.width,
                    before.height,
                    before.rooms@[i - 1].middle(),
                    before.rooms@[i].middle(),
                ));
                lemma_joined_grows(
                    before.tiles@,
                    after.tiles@,
                    before.width,
                    before.height,
                    before.rooms@[i - 1].middle(),
                    before.rooms@[i].middle(),
                );
            } else {
                assert(after.rooms@[i - 1] == before.rooms@.last());
            }
        }
    }
}

/// The level under construction: a row-major tile field (`true` is floor,
/// `false` is wall) and the rooms accepted so far, in order of acceptance.
#[derive(Clone, Debug, PartialEq, Eq)]
pub struct MapBuilder {
    pub width: u32,
    pub height: u32,
    pub rooms: Vec<Rect>,
    pub tiles: Vec<bool>,
}

impl MapBuilder {
    /// Whether (x, y) is a floor tile of this level.
    #[verifier::inline]
    pub open spec fn floor(&self, x: int, y: int) -> bool {
        floor_at(self.tiles@, self.width, self.height, x, y)
    }

    /// Whether `room` has an interior and keeps one tile of margin to every
    /// edge of the grid.
    pub open spec fn room_fits(&self, room: Rect) -> bool {
        &&& 1 <= room.x1
        &&& 1 <= room.y1
        &&& room.x1 + 1 < room.x2
        &&& room.y1 + 1 < room.y2
        &&& room.x2 + 1 < self.width
        &&& room.y2 + 1 < self.height
    }

    /// Every room fits the grid.
    pub open spec fn rooms_in_bounds(&self) -> bool {
        forall|i: int| 0 <= i < self.rooms@.len() ==> self.room_fits(#[trigger] self.rooms@[i])
    }

    /// No two rooms share a cell.
    pub open spec fn rooms_disjoint(&self) -> bool {
        forall|i: int, j: int|
            0 <= i < self.rooms@.len() && 0 <= j < self.rooms@.len() && i != j ==> !(
            #[trigger] self.rooms@[i]).intersects(#[trigger] self.rooms@[j])
    }

    /// The interior of every room is floor.
    pub open spec fn rooms_carved(&self) -> bool {
        forall|i: int, x: int, y: int|
            0 <= i < self.rooms@.len() && (#[trigger] self.rooms@[i]).encloses(x, y)
                ==> #[trigger] floor_at(self.tiles@, self.width, self.height, x, y)
    }

    /// The centre of every room but the first is joined to the centre of the
    /// room accepted before it.
    pub open spec fn rooms_connected(&self) -> bool {
        forall|i: int|
            0 < i < self.rooms@.len() ==> joined(
                self.tiles@,
                self.width,
                self.height,
                self.rooms@[i - 1].middle(),
                (#[trigger] self.rooms@[i]).middle(),
            )
    }

    /// The field has one tile per cell of the grid.
    pub open spec fn sized(&self) -> bool {
        self.tiles@.len() == self.width * self.height
    }

    /// The level's invariant: a full tile field, and rooms that fit, stay
    /// apart, are carved out and are connected in sequence.
    pub open spec fn wf(&self) -> bool {
        &&& self.sized()
        &&& self.rooms_in_bounds()
        &&& self.rooms_disjoint()
        &&& self.rooms_carved()
        &&& self.rooms_connected()
    }

    /// What the stages of a frame need of a level: a full tile field, and
    /// rooms that fit the grid.
    pub open spec fn usable(&self) -> bool {
        self.sized() && self.rooms_in_bounds()
    }

    /// Whether a room at (x, y), `w` wide and `h` high, would be accepted: it
    /// fits the grid and touches none of the rooms accepted so far.
    pub open spec fn accepts(&self, x: u32, y: u32, w: u32, h: u32) -> bool {
        &&& x + w <= u32::MAX
        &&& y + h <= u32::MAX
        &&& self.room_fits(Rect { x1: x, y1: y, x2: (x + w) as u32, y2: (y + h) as u32 })
        &&& forall|i: int|
            0 <= i < self.rooms@.len() ==> !(Rect {
                x1: x,
                y1: y,
                x2: (x + w) as u32,
                y2: (y + h) as u32,
            }).intersects(#[trigger] self.rooms@[i])
    }

    /// A level of the given size that is all wall and has no room.
    pub fn new(width: u32, height: u32) -> (m: Self)
        requires
            width * height <= usize::MAX,
        ensures
            m.wf(),
            is_blank(&m, width, height),
            forall|x: int, y: int| !m.floor(x, y),
    {
        proof {
            assert(0 <= width * height) by (nonlinear_arith)
                requires
                    0 <= width,
                    0 <= height,
            ;
            assert(width as usize * height as usize == width * height);
        }
        let m = Self { width, height, rooms: Vec::new(), tiles: vec![false; width as usize * height as usize] };
        proof {
            assert forall|x: int, y: int| !m.floor(x, y) by {
                if in_bounds(width, height, x, y) {
                    lemma_tile_index_bound(width, height, x, y);
                }
            }
        }
        m
    }

    fn xy_idx(&self, x: u32, y: u32) -> (i: usize)
        requires
            self.sized(),
            x < self.width,
            y < self.height,
        ensures
            i == tile_index(self.width, x as int, y as int),
            i < self.tiles@.len(),
    {
        proof {
            lemma_tile_index_bound(self.width, self.height, x as int, y as int);
            assert(0 <= y * self.width) by (nonlinear_arith)
                requires
                    0 <= y,
                    0 <= self.width,
            ;
            assert(self.tiles@.len() == self.tiles.len());
            assert(y * self.width + x < self.tiles.len());
        }
        y as usize * self.width as usize + x as usize
    }

    /// Tells whether (x, y) is a floor tile; cells outside the grid are not.
    pub fn is_floor(&self, x: u32, y: u32) -> (r: bool)
        ensures
            r == self.floor(x as int, y as int),
    {
        match tile_at(self.tiles.as_slice(), self.width, self.height, x, y) {
            Some(t) => t,
            None => false,
        }
    }

    /// Turns the tile at (x, y) into floor.
    fn carve(&mut self, x: u32, y: u32)
        requires
            old(self).sized(),
            x < old(self).width,
            y < old(self).height,
        ensures
            final(self).sized(),
            final(self).width == old(self).width,
            final(self).height == old(self).height,
            final(self).rooms == old(self).rooms,
            forall|a: int, b: int|
                #[trigger] final(self).floor(a, b) == (old(self).floor(a, b) || (a == x && b == y)),
    {
        let idx = self.xy_idx(x, y);
        self.tiles[idx] = true;
        proof {
            assert forall|a: int, b: int|
                #[trigger] self.floor(a, b) == (old(self).floor(a, b) || (a == x && b == y)) by {
                if in_bounds(self.width, self.height, a, b) {
                    lemma_tile_index_bound(self.width, self.height, a, b);
                    if tile_index(self.width, a, b) == idx {
                        lemma_tile_index_injective(self.width, a, b, x as int, y as int);
                    }
                }
            }
        }
    }

    /// Turns the interior of `room` into floor.
    fn apply_room(&mut self, room: &Rect)
        requires
            old(self).sized(),
            old(self).room_fits(*room),
        ensures
            final(self).sized(),
            final(self).width == old(self).width,
            final(self).height == old(self).height,
            final(self).rooms == old(self).rooms,
            forall|a: int, b: int|
                #[trigger] final(self).floor(a, b) == (old(self).floor(a, b) || room.encloses(a, b)),
    {
        let mut y: u32 = room.y1 + 1;
        while y < room.y2
            invariant
                self.sized(),
                self.width == old(self).width,
                self.height == old(self).height,
                self.rooms == old(self).rooms,
                old(self).room_fits(*room),
                room.y1 < y <= room.y2,
                forall|a: int, b: int|
                    #[trigger] self.floor(a, b) == (old(self).floor(a, b) || (room.encloses(a, b)
                        && b < y)),
            decreases room.y2 - y,
        {
            let mut x: u32 = room.x1 + 1;
            while x < room.x2
                invariant
                    self.sized(),
                    self.width == old(self).width,
                    self.height == old(self).height,
                    self.rooms == old(self).rooms,
                    old(self).room_fits(*room),
                    room.y1 < y < room.y2,
                    room.x1 < x <= room.x2,
                    forall|a: int, b: int|
                        #[trigger] self.floor(a, b) == (old(self).floor(a, b) || (room.encloses(
                            a,
                            b,
                        ) && (b < y || (b == y && a < x)))),
                decreases room.x2 - x,
            {
                self.carve(x, y);
                x = x + 1;
            }
            y = y + 1;
        }
    }

    /// Turns the cells of row `y` between columns `x1` and `x2` into floor.
    fn apply_horizontal_tunnel(&mut self, x1: u32, x2: u32, y: u32)
        requires
            old(self).sized(),
            x1 < old(self).width,
            x2 < old(self).width,
            y < old(self).height,
        ensures
            final(self).sized(),
            final(self).width == old(self).width,
            final(self).height == old(self).height,
            final(self).rooms == old(self).rooms,
            forall|a: int, b: int|
                #[trigger] final(self).floor(a, b) == (old(self).floor(a, b) || on_row_run(
                    x1 as int,
                    x2 as int,
                    y as int,
                    a,
                    b,
                )),
    {
        let last: u32 = if x1 < x2 { x2 } else { x1 };
        let mut x: u32 = if x1 < x2 { x1 } else { x2 };
        while x <= last
            invariant
                self.sized(),
                self.width == old(self).width,
                self.height == old(self).height,
                self.rooms == old(self).rooms,
                y < self.height,
                last < self.width,
                last == if x1 < x2 { x2 } else { x1 },
                x1 <= x || x2 <= x,
                x <= last + 1,
                forall|a: int, b: int|
                    #[trigger] self.floor(a, b) == (old(self).floor(a, b) || (on_row_run(
                        x1 as int,
                        x2 as int,
                        y as int,
                        a,
                        b,
                    ) && a < x)),
            decreases last + 1 - x,
        {
            self.carve(x, y);
            x = x + 1;
        }
    }

    /// Turns the cells of column `x` between rows `y1` and `y2` into floor.
    fn apply_vertical_tunnel(&mut self, y1: u32, y2: u32, x: u32)
        requires
            old(self).sized(),
            y1 < old(self).height,
            y2 < old(self).height,
            x < old(self).width,
        ensures
            final(self).sized(),
            final(self).width == old(self).width,
            final(self).height == old(self).height,
            final(self).rooms == old(self).rooms,
            forall|a: int, b: int|
                #[trigger] final(self).floor(a, b) == (old(self).floor(a, b) || on_column_run(
                    y1 as int,
                    y2 as int,
                    x as int,
                    a,
                    b,
                )),
    {
        let last: u32 = if y1 < y2 { y2 } else { y1 };
        let mut y: u32 = if y1 < y2 { y1 } else { y2 };
        while y <= last
            invariant
                self.sized(),
                self.width == old(self).width,
                self.height == old(self).height,
                self.rooms == old(self).rooms,
                x < self.width,
                last < self.height,
                last == if y1 < y2 { y2 } else { y1 },
                y1 <= y || y2 <= y,
                y <= last + 1,
                forall|a: int, b: int|
                    #[trigger] self.floor(a, b) == (old(self).floor(a, b) || (on_column_run(
                        y1 as int,
                        y2 as int,
                        x as int,
                        a,
                        b,
                    ) && b < y)),
            decreases last + 1 - y,
        {
            self.carve(x, y);
            y = y + 1;
        }
    }

    /// Tells whether the level has a full tile field and rooms that fit the
    /// grid.
    pub fn is_usable(&self) -> (r: bool)
        ensures
            r == self.usable(),
    {
        proof {
            assert(0 <= self.width * self.height <= 0xffff_ffff * 0xffff_ffff) by (nonlinear_arith)
                requires
                    0 <= self.width <= 0xffff_ffff,
                    0 <= self.height <= 0xffff_ffff,
            ;
        }
        if self.tiles.len() as u64 != self.width as u64 * self.height as u64 {
            return false;
        }
        let mut i: usize = 0;
        while i < self.rooms.len()
            invariant
                i <= self.rooms@.len(),
                forall|j: int| 0 <= j < i ==> self.room_fits(#[trigger] self.rooms@[j]),
            decreases self.rooms@.len() - i,
        {
            let room = &self.rooms[i];
            let fits = 1 <= room.x1 && 1 <= room.y1 && (room.x1 as u64) + 1 < room.x2 as u64 && (
            room.y1 as u64) + 1 < room.y2 as u64 && (room.x2 as u64) + 1 < self.width as u64 && (
            room.y2 as u64) + 1 < self.height as u64;
            if !fits {
                assert(!self.room_fits(self.rooms@[i as int]));
                return false;
            }
            i = i + 1;
        }
        true
    }

    /// Tells whether a room at (x, y), `w` wide and `h` high, would be
    /// accepted.
    pub fn can_place(&self, x: u32, y: u32, w: u32, h: u32) -> (r: bool)
        ensures
            r == self.accepts(x, y, w, h),
    {
        let x2: u64 = x as u64 + w as u64;
        let y2: u64 = y as u64 + h as u64;
        if x < 1 || y < 1 || w < 2 || h < 2 || x2 + 1 >= self.width as u64 || y2 + 1
            >= self.height as u64 {
            return false;
        }
        let room = Rect::new(x, y, w, h);
        let mut i: usize = 0;
        while i < self.rooms.len()
            invariant
                i <= self.rooms@.len(),
                x + w <= u32::MAX,
                y + h <= u32::MAX,
                room == (Rect { x1: x, y1: y, x2: (x + w) as u32, y2: (y + h) as u32 }),
                self.room_fits(room),
                forall|j: int| 0 <= j < i ==> !room.intersects(#[trigger] self.rooms@[j]),
            decreases self.rooms@.len() - i,
        {
            if room.intersect(&self.rooms[i]) {
                assert(room.intersects(self.rooms@[i as int]));
                return false;
            }
            i = i + 1;
        }
        true
    }

    /// Carves an L-shaped corridor from `a` to `b`.
    fn apply_corridor(&mut self, a: GridPosition, b: GridPosition, horizontal_first: bool)
        requires
            old(self).sized(),
            in_bounds(old(self).width, old(self).height, a.x as int, a.y as int),
            in_bounds(old(self).width, old(self).height, b.x as int, b.y as int),
        ensures
            final(self).sized(),
            final(self).width == old(self).width,
            final(self).height == old(self).height,
            final(self).rooms == old(self).rooms,
            forall|x: int, y: int|
                #[trigger] final(self).floor(x, y) == (old(self).floor(x, y) || on_corridor(
                    a,
                    b,
                    horizontal_first,
                    x,
                    y,
                )),
    {
        if horizontal_first {
            self.apply_horizontal_tunnel(a.x, b.x, a.y);
            self.apply_vertical_tunnel(a.y, b.y, b.x);
        } else {
            self.apply_vertical_tunnel(a.y, b.y, a.x);
            self.apply_horizontal_tunnel(a.x, b.x, b.y);
        }
    }

    /// Offers a room at (x, y), `w` wide and `h` high. An accepted room is
    /// carved out, joined to the room accepted before it by a corridor of the
    /// given orientation, and appended to the room list. A rejected room
    /// leaves the level as it was.
    pub fn place_room(&mut self, x: u32, y: u32, w: u32, h: u32, horizontal_first: bool) -> (accepted:
        bool)
        requires
            old(self).usable(),
        ensures
            accepted == old(self).accepts(x, y, w, h),
            room_offered(old(self), x, y, w, h, horizontal_first, final(self)),
            final(self).usable(),
            old(self).rooms_disjoint() ==> final(self).rooms_disjoint(),
            old(self).rooms_carved() ==> final(self).rooms_carved(),
            old(self).rooms_connected() ==> final(self).rooms_connected(),
            old(self).wf() ==> final(self).wf(),
    {
        if !self.can_place(x, y, w, h) {
            return false;
        }
        let room = Rect::new(x, y, w, h);
        self.apply_room(&room);
        let count = self.rooms.len();
        if count > 0 {
            let previous = self.rooms[count - 1].center();
            self.apply_corridor(previous, room.center(), horizontal_first);
        }
        self.rooms.push(room);
        proof {
            lemma_place_keeps_wf(old(self), self, room, horizontal_first);
        }
        true
    }

    /// Runs one generation pass: `MAX_ROOMS` times, samples a room of width
    /// and height between `MIN_SIZE` and `MAX_SIZE` at an offset that keeps it
    /// on the grid and offers it with a corridor orientation chosen by a fair
    /// coin. An attempt that draws a size that the grid cannot hold is
    /// skipped. The level is what these attempts make of it, whatever is
    /// drawn; so the rooms stay apart, carved and connected; rooms are only
    /// appended; and floor appears only inside the new rooms and on their
    /// corridors.
    pub fn build_rooms_and_corridors(&mut self)
        requires
            old(self).usable(),
        ensures
            attempts_made(old(self), MAX_ROOMS as int, final(self)),
            final(self).usable(),
            old(self).rooms_disjoint() ==> final(self).rooms_disjoint(),
            old(self).rooms_carved() ==> final(self).rooms_carved(),
            old(self).rooms_connected() ==> final(self).rooms_connected(),
            old(self).wf() ==> final(self).wf(),
            final(self).width == old(self).width,
            final(self).height == old(self).height,
            old(self).rooms@.len() <= final(self).rooms@.len() <= old(self).rooms@.len() + MAX_ROOMS,
            final(self).rooms@.subrange(0, old(self).rooms@.len() as int) == old(self).rooms@,
            forall|i: int|
                old(self).rooms@.len() <= i < final(self).rooms@.len() ==> {
                    let room = #[trigger] final(self).rooms@[i];
                    &&& MIN_SIZE <= room.x2 - room.x1 <= MAX_SIZE
                    &&& MIN_SIZE <= room.y2 - room.y1 <= MAX_SIZE
                },
            forall|x: int, y: int| old(self).floor(x, y) ==> #[trigger] final(self).floor(x, y),
            forall|x: int, y: int| #[trigger]
                final(self).floor(x, y) ==> old(self).floor(x, y) || dug_since(
                    final(self).rooms@,
                    old(self).rooms@.len() as int,
                    x,
                    y,
                ),
    {
        let ghost start = self.rooms@.len() as int;
        let mut attempt: u32 = 0;
        while attempt < MAX_ROOMS
            invariant
                attempt <= MAX_ROOMS,
                self.usable(),
                old(self).rooms_disjoint() ==> self.rooms_disjoint(),
                old(self).rooms_carved() ==> self.rooms_carved(),
                old(self).rooms_connected() ==> self.rooms_connected(),
                self.width == old(self).width,
                self.height == old(self).height,
                start == old(self).rooms@.len(),
                start <= self.rooms@.len() <= start + attempt,
                self.rooms@.subrange(0, start) == old(self).rooms@,
                forall|i: int|
                    start <= i < self.rooms@.len() ==> {
                        let room = #[trigger] self.rooms@[i];
                        &&& MIN_SIZE <= room.x2 - room.x1 <= MAX_SIZE
                        &&& MIN_SIZE <= room.y2 - room.y1 <= MAX_SIZE
                    },
                forall|x: int, y: int| old(self).floor(x, y) ==> #[trigger] self.floor(x, y),
                forall|x: int, y: int| #[trigger]
                    self.floor(x, y) ==> old(self).floor(x, y) || dug_since(self.rooms@, start, x, y),
                attempts_made(old(self), attempt as int, self),
            decreases MAX_ROOMS - attempt,
        {
            let ghost entering = *self;
            attempt = attempt + 1;
            let w: u32 = random_range(MIN_SIZE as u64, MAX_SIZE as u64 + 1) as u32;
            let h: u32 = random_range(MIN_SIZE as u64, MAX_SIZE as u64 + 1) as u32;
            if self.width as u64 > w as u64 + 2 && self.height as u64 > h as u64 + 2 {
                let x: u32 = random_range(1, (self.width - w - 1) as u64) as u32;
                let y: u32 = random_range(1, (self.height - h - 1) as u64) as u32;
                let horizontal_first = if self.rooms.len() > 0 {
                    random_ratio(1, 2)
                } else {
                    true
                };
                let accepted = self.place_room(x, y, w, h, horizontal_first);
                proof {
                    assert(may_draw_offset(&entering, x, y, w, h));
                    assert(room_offered(&entering, x, y, w, h, horizontal_first, self));
                    if accepted {
                        let room = room_at(x, y, w, h);
                        let count = entering.rooms@.len() as int;
                        assert(self.rooms@.subrange(0, start) =~= entering.rooms@.subrange(0, start));
                        assert forall|a: int, b: int| #[trigger]
                            self.floor(a, b) implies old(self).floor(a, b) || dug_since(
                            self.rooms@,
                            start,
                            a,
                            b,
                        ) by {
                            if entering.floor(a, b) {
                                if !old(self).floor(a, b) {
                                    let i = choose|i: int|
                                        start <= i < entering.rooms@.len() && 0 <= i && #[trigger] dug_for(
                                            entering.rooms@,
                                            i,
                                            a,
                                            b,
                                        );
                                    assert(self.rooms@[i] == entering.rooms@[i]);
                                    if i > 0 {
                                        assert(self.rooms@[i - 1] == entering.rooms@[i - 1]);
                                    }
                                    assert(dug_for(self.rooms@, i, a, b));
                                }
                            } else {
                                assert(self.rooms@[count] == room);
                                if count > 0 {
                                    assert(self.rooms@[count - 1] == entering.rooms@.last());
                                }
                                assert(dug_for(self.rooms@, count, a, b));
                            }
                        }
                    }
                }
            }
            proof {
                assert(may_draw_size(w, h));
                assert(attempt_with_size(&entering, w, h, self));
                lemma_one_more_attempt(old(self), attempt as int - 1, &entering, self);
            }
        }
    }
}

/// No two rooms of a level share a cell, their borders included.
pub proof fn lemma_rooms_never_touch(level: &MapBuilder, i: int, j: int)
    requires
        level.wf(),
        0 <= i < level.rooms@.len(),
        0 <= j < level.rooms@.len(),
        i != j,
    ensures
        !level.rooms@[i].intersects(level.rooms@[j]),
{
}

/// Every tile inside the border of a room of a level is floor.
pub proof fn lemma_room_interior_is_floor(level: &MapBuilder, i: int, x: int, y: int)
    requires
        level.wf(),
        0 <= i < level.rooms@.len(),
        level.rooms@[i].x1 < x < level.rooms@[i].x2,
        level.rooms@[i].y1 < y < level.rooms@[i].y2,
    ensures
        level.floor(x, y),
        in_bounds(level.width, level.height, x, y),
{
    assert(level.rooms@[i].encloses(x, y));
    assert(level.room_fits(level.rooms@[i]));
}

/// Every room of a level but the first is joined to the room before it by
/// an L-shaped corridor of floor between their centres.
pub proof fn lemma_rooms_joined_in_sequence(level: &MapBuilder, i: int)
    requires
        level.wf(),
        0 < i < level.rooms@.len(),
    ensures
        joined(
            level.tiles@,
            level.width,
            level.height,
            level.rooms@[i - 1].middle(),
            level.rooms@[i].middle(),
        ),
{
}

/// Whether the level is a field of walls of the given size without a room.
pub open spec fn is_blank(level: &MapBuilder, width: u32, height: u32) -> bool {
    &&& level.width == width
    &&& level.height == height
    &&& level.rooms@.len() == 0
    &&& level.tiles@.len() == width * height
    &&& forall|i: int| 0 <= i < level.tiles@.len() ==> !(#[trigger] level.tiles@[i])
}

/// Generates a level of the given size: a field of walls with one generation
/// pass run on it.
pub fn generate_map(width: u32, height: u32) -> (m: MapBuilder)
    requires
        width * height <= usize::MAX,
    ensures
        exists|blank: MapBuilder| #[trigger]
            is_blank(&blank, width, height) && attempts_made(&blank, MAX_ROOMS as int, &m),
        m.wf(),
        m.rooms_disjoint(),
        m.rooms_carved(),
        m.rooms_connected(),
        m.width == width,
        m.height == height,
        m.rooms@.len() <= MAX_ROOMS,
        forall|i: int|
            0 <= i < m.rooms@.len() ==> {
                let room = #[trigger] m.rooms@[i];
                &&& MIN_SIZE <= room.x2 - room.x1 <= MAX_SIZE
                &&& MIN_SIZE <= room.y2 - room.y1 <= MAX_SIZE
            },
        forall|x: int, y: int| #[trigger] m.floor(x, y) ==> dug_since(m.rooms@, 0, x, y),
{
    let mut m = MapBuilder::new(width, height);
    let ghost blank = m;
    m.build_rooms_and_corridors();
    proof {
        assert(is_blank(&blank, width, height));
    }
    m
}

} // verus!
