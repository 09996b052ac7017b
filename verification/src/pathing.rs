//! Route finding for monsters: which cells a monster may walk over, which
//! neighbours a cell has for the search, and the search itself, which the
//! `pathfinding` crate carries out.

use crate::arena::{blocked_by_other, can_enter, Arena};
use crate::components::Actor;
use crate::fov::span;
use crate::grid::{in_bounds, lemma_tile_index_bound, lemma_tile_index_injective, tile_at, tile_index,
    tile_value, GridPosition};
use crate::map_builder::MapBuilder;
use pathfinding::prelude::astar;
use vstd::arithmetic::div_mod::{lemma_div_pos_is_pos, lemma_fundamental_div_mod, lemma_mod_bound};
use vstd::prelude::*;

verus! {

/// Sum of the two axis distances between `a` and `b`.
pub open spec fn manhattan_distance(a: GridPosition, b: GridPosition) -> int {
    span(a.x as int, b.x as int) + span(a.y as int, b.y as int)
}

/// Column offset of the `k`-th of the eight neighbours of a cell. The
/// neighbours are counted column by column, from the left, and upwards
/// within a column.
pub open spec fn neighbour_dx(k: int) -> int {
    if k < 3 {
        -1
    } else if k < 5 {
        0
    } else {
        1
    }
}

/// Row offset of the `k`-th of the eight neighbours of a cell.
pub open spec fn neighbour_dy(k: int) -> int {
    if k == 0 || k == 3 || k == 5 {
        -1
    } else if k == 1 || k == 6 {
        0
    } else {
        1
    }
}

/// Whether the search may step on (x, y): the cell lies on the grid and is
/// either free to walk on or the goal itself.
pub open spec fn path_open(
    cells: Seq<bool>,
    width: u32,
    height: u32,
    goal: GridPosition,
    x: int,
    y: int,
) -> bool {
    in_bounds(width, height, x, y) && (tile_value(cells, width, height, x, y) == Some(true) || (x
        == goal.x && y == goal.y))
}

/// The first `upto` neighbours of `p` that the search may step on, each
/// with the cost of the step, which is 1.
pub open spec fn open_neighbours(
    cells: Seq<bool>,
    width: u32,
    height: u32,
    p: GridPosition,
    goal: GridPosition,
    upto: int,
) -> Seq<(GridPosition, u64)>
    decreases upto,
{
    if upto <= 0 {
        Seq::empty()
    } else {
        let earlier = open_neighbours(cells, width, height, p, goal, upto - 1);
        let x = p.x + neighbour_dx(upto - 1);
        let y = p.y + neighbour_dy(upto - 1);
        if path_open(cells, width, height, goal, x, y) {
            earlier.push((GridPosition { x: x as u32, y: y as u32 }, 1u64))
        } else {
            earlier
        }
    }
}

/// The cells that the actor `mover` may walk on, as a row-major field: the
/// floor tiles that no other actor blocks.
pub open spec fn walkable_field(actors: Seq<Actor>, map: &MapBuilder, mover: int) -> Seq<bool> {
    Seq::new(
        (map.width * map.height) as nat,
        |i: int|
            can_enter(
                actors,
                map,
                mover,
                GridPosition { x: (i % (map.width as int)) as u32, y: (i / (map.width as int)) as u32 },
            ),
    )
}

/// What an optional route holds.
pub open spec fn route_cells(route: Option<Vec<GridPosition>>) -> Option<Seq<GridPosition>> {
    match route {
        Some(cells) => Some(cells@),
        None => None,
    }
}

/// The route that `pathfinding::prelude::astar` returns from `start` to
/// `goal`, the start included, when the successors of a cell are its
/// `open_neighbours` on the field `cells` and the estimate of the remaining
/// cost is the Manhattan distance to `goal`; `None` when it returns none.
pub uninterp spec fn astar_route(
    cells: Seq<bool>,
    width: u32,
    height: u32,
    start: GridPosition,
    goal: GridPosition,
) -> Option<Seq<GridPosition>>;

/// Sum of the two axis distances between `a` and `b`.
pub fn manhattan(a: GridPosition, b: GridPosition) -> (d: u64)
    ensures
        d == manhattan_distance(a, b),
{
    let dx: u32 = if a.x <= b.x { b.x - a.x } else { a.x - b.x };
    let dy: u32 = if a.y <= b.y { b.y - a.y } else { a.y - b.y };
    dx as u64 + dy as u64
}

/// Tells whether `a` and `b` are the same cell.
pub fn same_cell(a: GridPosition, b: GridPosition) -> (r: bool)
    ensures
        r == (a == b),
{
    a.x == b.x && a.y == b.y
}

/// The neighbours of `p` that the search may step on, each with the cost of
/// the step.
pub fn successors(cells: &[bool], width: u32, height: u32, p: GridPosition, goal: GridPosition) -> (next:
    Vec<(GridPosition, u64)>)
    ensures
        next@ == open_neighbours(cells@, width, height, p, goal, 8),
{
    let mut next: Vec<(GridPosition, u64)> = Vec::new();
    let mut k: u8 = 0;
    while k < 8
        invariant
            k <= 8,
            next@ == open_neighbours(cells@, width, height, p, goal, k as int),
        decreases 8 - k,
    {
        let dx: i64 = if k < 3 { -1 } else if k < 5 { 0 } else { 1 };
        let dy: i64 = if k == 0 || k == 3 || k == 5 { -1 } else if k == 1 || k == 6 { 0 } else { 1 };
        let x: i64 = p.x as i64 + dx;
        let y: i64 = p.y as i64 + dy;
        if 0 <= x && x < width as i64 && 0 <= y && y < height as i64 {
            let cell = GridPosition { x: x as u32, y: y as u32 };
            let free = match tile_at(cells, width, height, cell.x, cell.y) {
                Some(t) => t,
                None => false,
            };
            if free || same_cell(cell, goal) {
                next.push((cell, 1));
            }
        }
        k = k + 1;
    }
    next
}

/// The cells that the actor `mover` may walk on.
pub fn walkable_cells(arena: &Arena, map: &MapBuilder, mover: usize) -> (cells: Vec<bool>)
    requires
        map.sized(),
    ensures
        cells@ == walkable_field(arena.actors@, map, mover as int),
        cells@.len() == map.width * map.height,
        forall|x: int, y: int|
            in_bounds(map.width, map.height, x, y) ==> #[trigger] tile_value(
                cells@,
                map.width,
                map.height,
                x,
                y,
            ) == Some(
                can_enter(arena.actors@, map, mover as int, GridPosition { x: x as u32, y: y as u32 }),
            ),
{
    let mut cells: Vec<bool> = map.tiles.clone();
    let count = arena.actors.len();
    let mut k: usize = 0;
    proof {
        assert(cells@ =~= map.tiles@);
        assert forall|x: int, y: int| in_bounds(map.width, map.height, x, y) implies #[trigger] tile_value(
            cells@,
            map.width,
            map.height,
            x,
            y,
        ) == Some(map.floor(x, y) && !blocked_among(arena.actors@, 0, mover as int, x, y)) by {
            lemma_tile_index_bound(map.width, map.height, x, y);
        }
    }
    while k < count
        invariant
            k <= count,
            count == arena.actors@.len(),
            map.sized(),
            cells@.len() == map.width * map.height,
            forall|x: int, y: int|
                in_bounds(map.width, map.height, x, y) ==> #[trigger] tile_value(
                    cells@,
                    map.width,
                    map.height,
                    x,
                    y,
                ) == Some(map.floor(x, y) && !blocked_among(arena.actors@, k as int, mover as int, x, y)),
        decreases count - k,
    {
        let other = &arena.actors[k];
        let ghost entering = cells@;
        if k != mover && other.blocks_movement && other.position.x < map.width && other.position.y
            < map.height {
            proof {
                lemma_tile_index_bound(
                    map.width,
                    map.height,
                    other.position.x as int,
                    other.position.y as int,
                );
                assert(0 <= other.position.y * map.width) by (nonlinear_arith)
                    requires
                        0 <= other.position.y,
                        0 <= map.width,
                ;
                assert(cells@.len() == cells.len());
            }
            let index: usize = other.position.y as usize * map.width as usize + other.position.x as usize;
            cells[index] = false;
        }
        proof {
            assert forall|x: int, y: int| in_bounds(map.width, map.height, x, y) implies #[trigger] tile_value(
                cells@,
                map.width,
                map.height,
                x,
                y,
            ) == Some(
                map.floor(x, y) && !blocked_among(arena.actors@, k as int + 1, mover as int, x, y),
            ) by {
                lemma_tile_index_bound(map.width, map.height, x, y);
                assert(tile_value(entering, map.width, map.height, x, y) == Some(
                    map.floor(x, y) && !blocked_among(arena.actors@, k as int, mover as int, x, y),
                ));
                lemma_blocked_among_step(arena.actors@, k as int, mover as int, x, y);
                if tile_index(map.width, x, y) == tile_index(
                    map.width,
                    other.position.x as int,
                    other.position.y as int,
                ) && other.position.x < map.width {
                    lemma_tile_index_injective(
                        map.width,
                        x,
                        y,
                        other.position.x as int,
                        other.position.y as int,
                    );
                }
            }
        }
        k = k + 1;
    }
    proof {
        assert forall|x: int, y: int| in_bounds(map.width, map.height, x, y) implies #[trigger] tile_value(
            cells@,
            map.width,
            map.height,
            x,
            y,
        ) == Some(
            can_enter(arena.actors@, map, mover as int, GridPosition { x: x as u32, y: y as u32 }),
        ) by {
            let pos = GridPosition { x: x as u32, y: y as u32 };
            assert(tile_value(cells@, map.width, map.height, x, y) == Some(
                map.floor(x, y) && !blocked_among(arena.actors@, count as int, mover as int, x, y),
            ));
            if blocked_by_other(arena.actors@, mover as int, pos) {
                let j = choose|j: int|
                    0 <= j < arena.actors@.len() && j != mover && (#[trigger] arena.actors@[j]).blocks_movement
                        && arena.actors@[j].position == pos;
                assert(blocked_among(arena.actors@, count as int, mover as int, x, y));
            }
        }
        let field = walkable_field(arena.actors@, map, mover as int);
        assert forall|i: int| 0 <= i < cells@.len() implies cells@[i] == field[i] by {
            let w = map.width as int;
            assert(w > 0) by {
                if w == 0 {
                    assert(map.width * map.height == 0) by (nonlinear_arith)
                        requires
                            map.width == 0,
                    ;
                }
            }
            let x = i % w;
            let y = i / w;
            lemma_fundamental_div_mod(i, w);
            lemma_mod_bound(i, w);
            lemma_div_pos_is_pos(i, w);
            assert(w * y == y * w) by (nonlinear_arith);
            assert(y < map.height) by {
                if y >= map.height {
                    assert(y * w >= map.height * w) by (nonlinear_arith)
                        requires
                            y >= map.height,
                            w >= 0,
                    ;
                    assert(map.height * w == map.width * map.height) by (nonlinear_arith)
                        requires
                            w == map.width,
                    ;
                }
            }
            assert(tile_index(map.width, x, y) == i);
            assert(tile_value(cells@, map.width, map.height, x, y) == Some(
                can_enter(arena.actors@, map, mover as int, GridPosition { x: x as u32, y: y as u32 }),
            ));
        }
        assert(cells@ =~= field);
    }
    cells
}

/// Searches a route for the actor `mover` to `goal` over the cells that it
/// may walk on, the goal itself included whoever stands there. The route
/// starts at the actor's cell. What comes back is what the search of the
/// `pathfinding` crate returns.
pub fn find_route(arena: &Arena, map: &MapBuilder, mover: usize, goal: GridPosition) -> (route: Option<
    Vec<GridPosition>,
>)
    requires
        map.sized(),
        mover < arena.actors@.len(),
    ensures
        route_cells(route) == astar_route(
            walkable_field(arena.actors@, map, mover as int),
            map.width,
            map.height,
            arena.actors@[mover as int].position,
            goal,
        ),
        match route {
            Some(path) => path@.len() >= 1 && path@[0] == arena.actors@[mover as int].position
                && path@.last() == goal,
            None => true,
        },
{
    let cells = walkable_cells(arena, map, mover);
    astar_path(&cells, map.width, map.height, arena.actors[mover].position, goal)
}

/// Whether one of the first `upto` actors, `mover` apart, blocks (x, y).
pub open spec fn blocked_among(actors: Seq<Actor>, upto: int, mover: int, x: int, y: int) -> bool {
    exists|j: int|
        0 <= j < upto && j < actors.len() && j != mover && (#[trigger] actors[j]).blocks_movement
            && actors[j].position.x == x && actors[j].position.y == y
}

/// One more actor blocks (x, y) exactly if an earlier one did or this one
/// does.
proof fn lemma_blocked_among_step(actors: Seq<Actor>, k: int, mover: int, x: int, y: int)
    requires
        0 <= k < actors.len(),
    ensures
        blocked_among(actors, k + 1, mover, x, y) == (blocked_among(actors, k, mover, x, y) || (k
            != mover && actors[k].blocks_movement && actors[k].position.x == x && actors[k].position.y
            == y)),
{
    if blocked_among(actors, k + 1, mover, x, y) {
        let j = choose|j: int|
            0 <= j < k + 1 && j < actors.len() && j != mover && (#[trigger] actors[j]).blocks_movement
                && actors[j].position.x == x && actors[j].position.y == y;
        if j < k {
            assert(blocked_among(actors, k, mover, x, y));
        }
    }
    if blocked_among(actors, k, mover, x, y) {
        let j = choose|j: int|
            0 <= j < k && j < actors.len() && j != mover && (#[trigger] actors[j]).blocks_movement
                && actors[j].position.x == x && actors[j].position.y == y;
        assert(0 <= j < k + 1);
    }
    if k != mover && actors[k].blocks_movement && actors[k].position.x == x && actors[k].position.y
        == y {
        assert(actors[k].blocks_movement);
    }
}

/// Runs `pathfinding::prelude::astar` from `start`. The successors of a cell
/// are what `successors` returns for it, the estimate of the remaining cost
/// is `manhattan` to `goal`, and the search ends at `goal`. Of the answer the
/// route is kept and the cost dropped.
///
/// Nothing of this is proved. The contract names the answer, which depends
/// on the arguments alone, and repeats what the crate documents of a route
/// that it returns: it comprises the start and the node at which the search
/// ended. The field has to cover the grid: a cost is then at most the number
/// of its cells and an estimate below 2^33, so that no sum of the two leaves
/// what a `u64` holds.
#[verifier::external_body]
fn astar_path(
    cells: &Vec<bool>,
    width: u32,
    height: u32,
    start: GridPosition,
    goal: GridPosition,
) -> (route: Option<Vec<GridPosition>>)
    requires
        cells@.len() == width * height,
    ensures
        route_cells(route) == astar_route(cells@, width, height, start, goal),
        match route {
            Some(path) => path@.len() >= 1 && path@[0] == start && path@.last() == goal,
            None => true,
        },
{
    astar(
        &start,
        |p| successors(cells, width, height, *p, goal),
        |p| manhattan(*p, goal),
        |p| same_cell(*p, goal),
    ).map(|found| found.0)
}

} // verus!
