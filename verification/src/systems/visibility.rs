//! Keeping sight up to date: marking the cached field of view of actors that
//! have moved, computing it anew where it is marked, and deriving from the
//! player's field of view what is shown.

use crate::arena::{lemma_same_ids_keep_wf, player_index, Arena};
use crate::components::{Actor, ActorKind, FieldOfView};
use crate::grid::{in_bounds, lemma_tile_index_bound, lemma_tile_index_injective, tile_at,
    tile_index, GridPosition};
use crate::map_builder::MapBuilder;
use vstd::prelude::*;

verus! {

/// For every tile of a level, whether the player sees it now and whether the
/// player has ever seen it. Both fields are row-major.
#[derive(Clone, Debug, PartialEq, Eq)]
pub struct TileVisibility {
    pub visible: Vec<bool>,
    pub explored: Vec<bool>,
}

impl TileVisibility {
    /// Both fields have one flag per tile of the level.
    pub open spec fn covers(&self, map: &MapBuilder) -> bool {
        self.visible@.len() == map.width * map.height && self.explored@.len() == map.width
            * map.height
    }

    /// Whether the tile at (x, y) is flagged as visible.
    pub open spec fn shows(&self, map: &MapBuilder, x: int, y: int) -> bool {
        self.visible@[tile_index(map.width, x, y)]
    }

    /// Whether the tile at (x, y) is flagged as explored.
    pub open spec fn knows(&self, map: &MapBuilder, x: int, y: int) -> bool {
        self.explored@[tile_index(map.width, x, y)]
    }

    /// Flags for a level of which nothing has been seen yet.
    pub fn new(map: &MapBuilder) -> (flags: Self)
        requires
            map.sized(),
        ensures
            flags.covers(map),
            forall|i: int| 0 <= i < flags.visible@.len() ==> !flags.visible@[i],
            forall|i: int| 0 <= i < flags.explored@.len() ==> !flags.explored@[i],
    {
        let count = map.tiles.len();
        TileVisibility { visible: vec![false; count], explored: vec![false; count] }
    }

    /// Tells whether the player sees the tile at (x, y) now. Cells without a
    /// flag are not seen.
    pub fn is_visible(&self, map: &MapBuilder, x: u32, y: u32) -> (r: bool)
        ensures
            r == (in_bounds(map.width, map.height, x as int, y as int) && tile_index(
                map.width,
                x as int,
                y as int,
            ) < self.visible@.len() && self.shows(map, x as int, y as int)),
    {
        match tile_at(self.visible.as_slice(), map.width, map.height, x, y) {
            Some(flag) => flag,
            None => false,
        }
    }

    /// Tells whether the player has ever seen the tile at (x, y). Cells
    /// without a flag have not been seen.
    pub fn is_explored(&self, map: &MapBuilder, x: u32, y: u32) -> (r: bool)
        ensures
            r == (in_bounds(map.width, map.height, x as int, y as int) && tile_index(
                map.width,
                x as int,
                y as int,
            ) < self.explored@.len() && self.knows(map, x as int, y as int)),
    {
        match tile_at(self.explored.as_slice(), map.width, map.height, x, y) {
            Some(flag) => flag,
            None => false,
        }
    }
}

/// The actor after its move has been noted: if it has moved, its field of
/// view is due for computing, and the move is no longer pending.
pub open spec fn move_noted(a: Actor) -> Actor {
    if a.moved {
        Actor { moved: false, fov: FieldOfView { is_dirty: true, ..a.fov }, ..a }
    } else {
        a
    }
}

/// The actors after their moves have been noted.
pub open spec fn moves_noted(actors: Seq<Actor>) -> Seq<Actor> {
    Seq::new(actors.len(), |i: int| move_noted(actors[i]))
}

/// Whether `now` is the actor `was` with its field of view brought up to
/// date on the level.
pub open spec fn sight_refreshed(was: Actor, map: &MapBuilder, now: Actor) -> bool {
    &&& now == (Actor { fov: now.fov, ..was })
    &&& was.fov.refreshes_to(&now.fov, map.tiles@, map.width, map.height, was.position)
}

/// The actor after the player, who sees the cells `seen`, has looked: a
/// monster is shown exactly if it stands on one of those cells.
pub open spec fn looked_at(a: Actor, seen: Set<GridPosition>) -> Actor {
    if a.kind == ActorKind::Monster {
        Actor { visible: seen.contains(a.position), ..a }
    } else {
        a
    }
}

/// Marks the field of view of every actor that has moved as due for
/// computing.
pub fn mark_fov_dirty(arena: &mut Arena)
    ensures
        final(arena).next_id == old(arena).next_id,
        final(arena).actors@ == moves_noted(old(arena).actors@),
        old(arena).wf() ==> final(arena).wf(),
{
    let count = arena.actors.len();
    let mut i: usize = 0;
    while i < count
        invariant
            i <= count,
            count == old(arena).actors@.len(),
            arena.next_id == old(arena).next_id,
            arena.actors@.len() == count,
            forall|t: int| 0 <= t < i ==> #[trigger] arena.actors@[t] == move_noted(old(arena).actors@[t]),
            forall|t: int| i <= t < count ==> #[trigger] arena.actors@[t] == old(arena).actors@[t],
        decreases count - i,
    {
        if arena.actors[i].moved {
            arena.actors[i].moved = false;
            arena.actors[i].fov.is_dirty = true;
        }
        i = i + 1;
    }
    proof {
        assert(arena.actors@ =~= moves_noted(old(arena).actors@));
        if old(arena).wf() {
            lemma_same_ids_keep_wf(old(arena), arena);
        }
    }
}

/// Brings the field of view of every actor up to date: where it is due, the
/// visible cells are computed from the actor's position on the level; where
/// it is not, the cached cells stay as they are. Afterwards none is due.
pub fn update_fov(arena: &mut Arena, map: &MapBuilder)
    ensures
        final(arena).next_id == old(arena).next_id,
        final(arena).actors@.len() == old(arena).actors@.len(),
        forall|i: int|
            0 <= i < old(arena).actors@.len() ==> sight_refreshed(
                old(arena).actors@[i],
                map,
                #[trigger] final(arena).actors@[i],
            ),
        forall|i: int|
            0 <= i < final(arena).actors@.len() ==> !(#[trigger] final(arena).actors@[i]).fov.is_dirty,
        old(arena).wf() ==> final(arena).wf(),
{
    let count = arena.actors.len();
    let mut i: usize = 0;
    while i < count
        invariant
            i <= count,
            count == old(arena).actors@.len(),
            arena.next_id == old(arena).next_id,
            arena.actors@.len() == count,
            forall|t: int|
                0 <= t < i ==> sight_refreshed(old(arena).actors@[t], map, #[trigger] arena.actors@[t]),
            forall|t: int| 0 <= t < i ==> !(#[trigger] arena.actors@[t]).fov.is_dirty,
            forall|t: int| i <= t < count ==> #[trigger] arena.actors@[t] == old(arena).actors@[t],
        decreases count - i,
    {
        let origin = arena.actors[i].position;
        arena.actors[i].fov.refresh(map.tiles.as_slice(), map.width, map.height, origin);
        i = i + 1;
    }
    proof {
        if old(arena).wf() {
            assert forall|a: int| 0 <= a < count implies (#[trigger] arena.actors@[a]).id == old(
                arena,
            ).actors@[a].id by {
                assert(sight_refreshed(old(arena).actors@[a], map, arena.actors@[a]));
            }
            lemma_same_ids_keep_wf(old(arena), arena);
        }
    }
}

/// Whether one of the first `upto` cells of `cells` is (x, y).
pub open spec fn listed_among(cells: Seq<GridPosition>, upto: int, x: int, y: int) -> bool {
    exists|j: int| 0 <= j < upto && j < cells.len() && (#[trigger] cells[j]).x == x && cells[j].y == y
}

/// One more cell lists (x, y) exactly if an earlier one did or this one is
/// it.
proof fn lemma_listed_among_step(cells: Seq<GridPosition>, k: int, x: int, y: int)
    requires
        0 <= k < cells.len(),
    ensures
        listed_among(cells, k + 1, x, y) == (listed_among(cells, k, x, y) || (cells[k].x == x
            && cells[k].y == y)),
{
    if listed_among(cells, k + 1, x, y) {
        let j = choose|j: int|
            0 <= j < k + 1 && j < cells.len() && (#[trigger] cells[j]).x == x && cells[j].y == y;
        if j < k {
            assert(listed_among(cells, k, x, y));
        }
    }
    if listed_among(cells, k, x, y) {
        let j = choose|j: int|
            0 <= j < k && j < cells.len() && (#[trigger] cells[j]).x == x && cells[j].y == y;
        assert(0 <= j < k + 1);
    }
    if cells[k].x == x && cells[k].y == y {
        assert(listed_among(cells, k + 1, x, y)) by {
            assert(cells[k].x == x);
        }
    }
}

/// Flags the tiles that the cells of `seen` name as visible and explored,
/// and every other tile as not visible.
fn show_tiles(flags: &mut TileVisibility, map: &MapBuilder, seen: &Vec<GridPosition>)
    requires
        map.sized(),
        old(flags).covers(map),
    ensures
        final(flags).covers(map),
        forall|x: int, y: int|
            in_bounds(map.width, map.height, x, y) ==> {
                &&& #[trigger] final(flags).shows(map, x, y) == seen@.to_set().contains(
                    GridPosition { x: x as u32, y: y as u32 },
                )
                &&& final(flags).knows(map, x, y) == (old(flags).knows(map, x, y) || seen@.to_set().contains(
                    GridPosition { x: x as u32, y: y as u32 },
                ))
            },
{
    let count = flags.visible.len();
    let mut i: usize = 0;
    while i < count
        invariant
            i <= count,
            count == flags.visible@.len(),
            flags.covers(map),
            flags.explored@ == old(flags).explored@,
            forall|t: int| 0 <= t < i ==> !(#[trigger] flags.visible@[t]),
        decreases count - i,
    {
        flags.visible[i] = false;
        i = i + 1;
    }
    let listed = seen.len();
    let mut k: usize = 0;
    proof {
        assert forall|x: int, y: int| in_bounds(map.width, map.height, x, y) implies {
            &&& #[trigger] flags.shows(map, x, y) == listed_among(seen@, 0, x, y)
            &&& flags.knows(map, x, y) == (old(flags).knows(map, x, y) || listed_among(
                seen@,
                0,
                x,
                y,
            ))
        } by {
            lemma_tile_index_bound(map.width, map.height, x, y);
        }
    }
    while k < listed
        invariant
            k <= listed,
            listed == seen@.len(),
            map.sized(),
            flags.covers(map),
            old(flags).covers(map),
            forall|x: int, y: int|
                in_bounds(map.width, map.height, x, y) ==> {
                    &&& #[trigger] flags.shows(map, x, y) == listed_among(seen@, k as int, x, y)
                    &&& flags.knows(map, x, y) == (old(flags).knows(map, x, y) || listed_among(
                        seen@,
                        k as int,
                        x,
                        y,
                    ))
                },
        decreases listed - k,
    {
        let cell = seen[k];
        let ghost entering = *flags;
        if cell.x < map.width && cell.y < map.height {
            proof {
                lemma_tile_index_bound(map.width, map.height, cell.x as int, cell.y as int);
                assert(0 <= cell.y * map.width) by (nonlinear_arith)
                    requires
                        0 <= cell.y,
                        0 <= map.width,
                ;
                assert(flags.visible@.len() == flags.visible.len());
            }
            let index: usize = cell.y as usize * map.width as usize + cell.x as usize;
            flags.visible[index] = true;
            flags.explored[index] = true;
        }
        proof {
            assert forall|x: int, y: int| in_bounds(map.width, map.height, x, y) implies {
                &&& #[trigger] flags.shows(map, x, y) == listed_among(seen@, k as int + 1, x, y)
                &&& flags.knows(map, x, y) == (old(flags).knows(map, x, y) || listed_among(
                    seen@,
                    k as int + 1,
                    x,
                    y,
                ))
            } by {
                lemma_tile_index_bound(map.width, map.height, x, y);
                assert(entering.shows(map, x, y) == listed_among(seen@, k as int, x, y));
                lemma_listed_among_step(seen@, k as int, x, y);
                if tile_index(map.width, x, y) == tile_index(map.width, cell.x as int, cell.y as int)
                    && cell.x < map.width {
                    lemma_tile_index_injective(map.width, x, y, cell.x as int, cell.y as int);
                }
            }
        }
        k = k + 1;
    }
    proof {
        assert forall|x: int, y: int| in_bounds(map.width, map.height, x, y) implies listed_among(
            seen@,
            listed as int,
            x,
            y,
        ) == seen@.to_set().contains(GridPosition { x: x as u32, y: y as u32 }) by {
            let cell = GridPosition { x: x as u32, y: y as u32 };
            if seen@.contains(cell) {
                let j = choose|j: int| 0 <= j < seen@.len() && seen@[j] == cell;
                assert(seen@[j].x == x);
                assert(listed_among(seen@, listed as int, x, y));
            }
            if listed_among(seen@, listed as int, x, y) {
                let j = choose|j: int|
                    0 <= j < listed && j < seen@.len() && (#[trigger] seen@[j]).x == x && seen@[j].y
                        == y;
                assert(seen@[j] == cell);
            }
        }
        assert forall|x: int, y: int| in_bounds(map.width, map.height, x, y) implies {
            &&& #[trigger] flags.shows(map, x, y) == seen@.to_set().contains(
                GridPosition { x: x as u32, y: y as u32 },
            )
            &&& flags.knows(map, x, y) == (old(flags).knows(map, x, y) || seen@.to_set().contains(
                GridPosition { x: x as u32, y: y as u32 },
            ))
        } by {
            assert(flags.shows(map, x, y) == listed_among(seen@, listed as int, x, y));
        }
    }
}

/// Derives what is shown from the player's field of view. A tile is visible
/// exactly if the player sees its cell, and explored once it has been
/// visible; a monster is visible exactly if the player sees the cell it
/// stands on. Without a player nothing changes.
pub fn update_visibility(arena: &mut Arena, map: &MapBuilder, flags: &mut TileVisibility)
    requires
        map.sized(),
        old(flags).covers(map),
    ensures
        final(arena).next_id == old(arena).next_id,
        final(arena).actors@.len() == old(arena).actors@.len(),
        final(flags).covers(map),
        player_index(old(arena).actors@).is_none() ==> final(arena).actors@ == old(arena).actors@
            && *final(flags) == *old(flags),
        player_index(old(arena).actors@).is_some() ==> {
            let seen = old(arena).actors@[player_index(old(arena).actors@).unwrap()].fov.visible();
            &&& forall|i: int|
                0 <= i < old(arena).actors@.len() ==> #[trigger] final(arena).actors@[i] == looked_at(
                    old(arena).actors@[i],
                    seen,
                )
            &&& forall|x: int, y: int|
                in_bounds(map.width, map.height, x, y) ==> {
                    &&& #[trigger] final(flags).shows(map, x, y) == seen.contains(
                        GridPosition { x: x as u32, y: y as u32 },
                    )
                    &&& final(flags).knows(map, x, y) == (old(flags).knows(map, x, y) || seen.contains(
                        GridPosition { x: x as u32, y: y as u32 },
                    ))
                }
        },
        old(arena).wf() ==> final(arena).wf(),
{
    let player = match arena.find_kind(ActorKind::Player) {
        Some(p) => p,
        None => {
            return ;
        },
    };
    show_tiles(flags, map, &arena.actors[player].fov.visible_tiles);
    let ghost seen = arena.actors@[player as int].fov.visible();
    let count = arena.actors.len();
    let mut i: usize = 0;
    while i < count
        invariant
            i <= count,
            player < count,
            count == old(arena).actors@.len(),
            arena.next_id == old(arena).next_id,
            arena.actors@.len() == count,
            old(arena).actors@[player as int].kind == ActorKind::Player,
            seen == old(arena).actors@[player as int].fov.visible(),
            forall|t: int|
                0 <= t < i ==> #[trigger] arena.actors@[t] == looked_at(old(arena).actors@[t], seen),
            forall|t: int| i <= t < count ==> #[trigger] arena.actors@[t] == old(arena).actors@[t],
            arena.actors@[player as int].fov == old(arena).actors@[player as int].fov,
        decreases count - i,
    {
        if arena.actors[i].kind == ActorKind::Monster {
            let position = arena.actors[i].position;
            let shown = arena.actors[player].fov.contains(position);
            arena.actors[i].visible = shown;
        }
        i = i + 1;
    }
    proof {
        if old(arena).wf() {
            lemma_same_ids_keep_wf(old(arena), arena);
        }
    }
}

} // verus!
