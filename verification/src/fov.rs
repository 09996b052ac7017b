//! Field of view by per-tile line of sight: a floor tile is lit when it is
//! within the sight radius and the discrete line from the origin reaches it
//! over floor only; the walls around lit floor are seen as well.

use crate::grid::{floor_at, in_bounds, tile_at, wall_at, GridPosition};
use vstd::arithmetic::div_mod::{lemma_basic_div, lemma_div_pos_is_pos, lemma_fundamental_div_mod,
    lemma_mod_bound};
use vstd::prelude::*;

verus! {

/// Distance between two coordinates.
pub open spec fn span(a: int, b: int) -> int {
    if a <= b {
        b - a
    } else {
        a - b
    }
}

/// Number of steps of the line between two cells: the larger of the two
/// axis distances.
pub open spec fn line_steps(ox: int, oy: int, tx: int, ty: int) -> int {
    if span(ox, tx) >= span(oy, ty) {
        span(ox, tx)
    } else {
        span(oy, ty)
    }
}

/// How far a line that covers the distance `d` in `n` steps has come after
/// `i` steps: the integer nearest to `i * d / n`, halves rounded up.
pub open spec fn line_offset(d: int, n: int, i: int) -> int {
    (2 * i * d + n) / (2 * n)
}

/// Coordinate after `i` of `n` steps on the way from `from` to `to`.
pub open spec fn line_coord(from: int, to: int, n: int, i: int) -> int {
    if from <= to {
        from + line_offset(to - from, n, i)
    } else {
        from - line_offset(from - to, n, i)
    }
}

/// Whether step `i` of the line from (ox, oy) to (tx, ty) falls on floor.
pub open spec fn line_step_open(
    tiles: Seq<bool>,
    width: u32,
    height: u32,
    ox: int,
    oy: int,
    tx: int,
    ty: int,
    i: int,
) -> bool {
    floor_at(
        tiles,
        width,
        height,
        line_coord(ox, tx, line_steps(ox, oy, tx, ty), i),
        line_coord(oy, ty, line_steps(ox, oy, tx, ty), i),
    )
}

/// Whether every cell strictly between the two ends of the line from
/// (ox, oy) to (tx, ty) is floor.
pub open spec fn line_clear(
    tiles: Seq<bool>,
    width: u32,
    height: u32,
    ox: int,
    oy: int,
    tx: int,
    ty: int,
) -> bool {
    forall|i: int|
        0 < i < line_steps(ox, oy, tx, ty) ==> #[trigger] line_step_open(
            tiles,
            width,
            height,
            ox,
            oy,
            tx,
            ty,
            i,
        )
}

/// Whether the Euclidean distance between the two cells is at most `radius`.
pub open spec fn within_radius(ox: int, oy: int, tx: int, ty: int, radius: int) -> bool {
    (tx - ox) * (tx - ox) + (ty - oy) * (ty - oy) <= radius * radius
}

/// Whether (x, y) is a floor tile that the origin sees: within the radius,
/// and with nothing but floor on the line in between.
pub open spec fn lit(
    tiles: Seq<bool>,
    width: u32,
    height: u32,
    ox: int,
    oy: int,
    radius: int,
    x: int,
    y: int,
) -> bool {
    &&& floor_at(tiles, width, height, x, y)
    &&& within_radius(ox, oy, x, y, radius)
    &&& line_clear(tiles, width, height, ox, oy, x, y)
}

/// Whether one of the eight neighbours of (x, y) is lit.
pub open spec fn beside_lit(
    tiles: Seq<bool>,
    width: u32,
    height: u32,
    ox: int,
    oy: int,
    radius: int,
    x: int,
    y: int,
) -> bool {
    ||| lit(tiles, width, height, ox, oy, radius, x - 1, y - 1)
    ||| lit(tiles, width, height, ox, oy, radius, x, y - 1)
    ||| lit(tiles, width, height, ox, oy, radius, x + 1, y - 1)
    ||| lit(tiles, width, height, ox, oy, radius, x - 1, y)
    ||| lit(tiles, width, height, ox, oy, radius, x + 1, y)
    ||| lit(tiles, width, height, ox, oy, radius, x - 1, y + 1)
    ||| lit(tiles, width, height, ox, oy, radius, x, y + 1)
    ||| lit(tiles, width, height, ox, oy, radius, x + 1, y + 1)
}

/// Whether an actor at `origin` with the given sight radius sees `p`: its own
/// cell, every lit floor tile, and every wall that touches a lit floor tile.
pub open spec fn sees(
    tiles: Seq<bool>,
    width: u32,
    height: u32,
    origin: GridPosition,
    radius: u32,
    p: GridPosition,
) -> bool {
    ||| p == origin
    ||| lit(tiles, width, height, origin.x as int, origin.y as int, radius as int, p.x as int, p.y as int)
    ||| (wall_at(tiles, width, height, p.x as int, p.y as int) && beside_lit(
        tiles,
        width,
        height,
        origin.x as int,
        origin.y as int,
        radius as int,
        p.x as int,
        p.y as int,
    ))
}

/// The set of cells that an actor at `origin` sees.
pub open spec fn visible_set(
    tiles: Seq<bool>,
    width: u32,
    height: u32,
    origin: GridPosition,
    radius: u32,
) -> Set<GridPosition> {
    Set::new(|p: GridPosition| sees(tiles, width, height, origin, radius, p))
}

/// A line never runs further along an axis than the distance it has to
/// cover there.
pub proof fn lemma_line_offset_bound(d: int, n: int, i: int)
    requires
        0 <= d <= n,
        0 <= i <= n,
        0 < n,
    ensures
        0 <= line_offset(d, n, i) <= d,
        i == 0 ==> line_offset(d, n, i) == 0,
        i == n ==> line_offset(d, n, i) == d,
{
    let a = 2 * i * d + n;
    let b = 2 * n;
    assert(0 <= i * d <= n * d) by (nonlinear_arith)
        requires
            0 <= i <= n,
            0 <= d,
    ;
    assert(2 * i * d == 2 * (i * d)) by (nonlinear_arith);
    assert(b * d == 2 * (n * d)) by (nonlinear_arith)
        requires
            b == 2 * n,
    ;
    assert(0 <= a < b * (d + 1)) by (nonlinear_arith)
        requires
            a == 2 * i * d + n,
            b == 2 * n,
            0 <= 2 * i * d <= b * d,
            0 < n,
    ;
    lemma_div_pos_is_pos(a, b);
    lemma_fundamental_div_mod(a, b);
    lemma_mod_bound(a, b);
    assert(a / b <= d) by (nonlinear_arith)
        requires
            a == b * (a / b) + a % b,
            0 <= a % b < b,
            a < b * (d + 1),
            0 < b,
    ;
    if i == 0 {
        lemma_basic_div(a, b);
    }
    if i == n {
        assert(a == b * d + n) by (nonlinear_arith)
            requires
                a == 2 * i * d + n,
                b == 2 * n,
                i == n,
        ;
        assert(a / b >= d) by (nonlinear_arith)
            requires
                a == b * (a / b) + a % b,
                0 <= a % b < b,
                a >= b * d,
                0 < b,
        ;
    }
}

/// A cell within the radius is no further than the radius along either axis.
pub proof fn lemma_within_radius_spans(ox: int, oy: int, tx: int, ty: int, radius: int)
    requires
        0 <= radius,
        within_radius(ox, oy, tx, ty, radius),
    ensures
        span(ox, tx) <= radius,
        span(oy, ty) <= radius,
{
    let dx = tx - ox;
    let dy = ty - oy;
    assert(dx * dx >= 0 && dy * dy >= 0) by (nonlinear_arith);
    if span(ox, tx) > radius {
        assert(dx * dx > radius * radius) by (nonlinear_arith)
            requires
                dx > radius || -dx > radius,
                0 <= radius,
        ;
    }
    if span(oy, ty) > radius {
        assert(dy * dy > radius * radius) by (nonlinear_arith)
            requires
                dy > radius || -dy > radius,
                0 <= radius,
        ;
    }
}

/// A line stays between its two ends along either axis.
pub proof fn lemma_line_coord_between(from: int, to: int, n: int, i: int)
    requires
        span(from, to) <= n,
        0 <= i <= n,
        0 < n,
    ensures
        from <= line_coord(from, to, n, i) <= to || to <= line_coord(from, to, n, i) <= from,
{
    lemma_line_offset_bound(span(from, to), n, i);
}

/// The origin is always seen.
pub proof fn lemma_origin_is_seen(tiles: Seq<bool>, width: u32, height: u32, origin: GridPosition, radius: u32)
    ensures
        visible_set(tiles, width, height, origin, radius).contains(origin),
{
}

/// A floor tile other than the origin is seen only if it is within the
/// radius and every cell on the line to it is floor.
pub proof fn lemma_seen_floor_is_lit(
    tiles: Seq<bool>,
    width: u32,
    height: u32,
    origin: GridPosition,
    radius: u32,
    p: GridPosition,
)
    requires
        visible_set(tiles, width, height, origin, radius).contains(p),
        p != origin,
        floor_at(tiles, width, height, p.x as int, p.y as int),
    ensures
        within_radius(origin.x as int, origin.y as int, p.x as int, p.y as int, radius as int),
        line_clear(tiles, width, height, origin.x as int, origin.y as int, p.x as int, p.y as int),
{
}

/// A floor tile with a cell that is not floor on the line to it is not
/// seen, however near it is.
pub proof fn lemma_blocked_floor_is_hidden(
    tiles: Seq<bool>,
    width: u32,
    height: u32,
    origin: GridPosition,
    radius: u32,
    p: GridPosition,
    i: int,
)
    requires
        p != origin,
        floor_at(tiles, width, height, p.x as int, p.y as int),
        0 < i < line_steps(origin.x as int, origin.y as int, p.x as int, p.y as int),
        !line_step_open(
            tiles,
            width,
            height,
            origin.x as int,
            origin.y as int,
            p.x as int,
            p.y as int,
            i,
        ),
    ensures
        !visible_set(tiles, width, height, origin, radius).contains(p),
{
}

/// A wall that touches a lit floor tile is seen, whether or not it is
/// within the radius itself.
pub proof fn lemma_wall_beside_lit_is_seen(
    tiles: Seq<bool>,
    width: u32,
    height: u32,
    origin: GridPosition,
    radius: u32,
    wall: GridPosition,
    lit_x: int,
    lit_y: int,
)
    requires
        wall_at(tiles, width, height, wall.x as int, wall.y as int),
        lit(tiles, width, height, origin.x as int, origin.y as int, radius as int, lit_x, lit_y),
        -1 <= lit_x - wall.x <= 1,
        -1 <= lit_y - wall.y <= 1,
    ensures
        visible_set(tiles, width, height, origin, radius).contains(wall),
{
}

/// On a grid without walls, an actor on the grid sees exactly the cells of
/// the grid that are within its radius: nothing blocks a line.
pub proof fn lemma_open_grid_shows_the_disc(
    tiles: Seq<bool>,
    width: u32,
    height: u32,
    origin: GridPosition,
    radius: u32,
    p: GridPosition,
)
    requires
        in_bounds(width, height, origin.x as int, origin.y as int),
        forall|x: int, y: int|
            in_bounds(width, height, x, y) ==> #[trigger] floor_at(tiles, width, height, x, y),
    ensures
        visible_set(tiles, width, height, origin, radius).contains(p) == (in_bounds(
            width,
            height,
            p.x as int,
            p.y as int,
        ) && within_radius(origin.x as int, origin.y as int, p.x as int, p.y as int, radius as int)),
{
    let ox = origin.x as int;
    let oy = origin.y as int;
    let px = p.x as int;
    let py = p.y as int;
    if in_bounds(width, height, px, py) {
        let n = line_steps(ox, oy, px, py);
        assert forall|i: int| 0 < i < n implies #[trigger] line_step_open(
            tiles,
            width,
            height,
            ox,
            oy,
            px,
            py,
            i,
        ) by {
            lemma_line_coord_between(ox, px, n, i);
            lemma_line_coord_between(oy, py, n, i);
            assert(in_bounds(width, height, line_coord(ox, px, n, i), line_coord(oy, py, n, i)));
        }
        if p == origin {
            assert(within_radius(ox, oy, px, py, radius as int)) by (nonlinear_arith)
                requires
                    px == ox,
                    py == oy,
                    radius >= 0,
            ;
        }
        assert(!wall_at(tiles, width, height, px, py));
    }
}

/// Coordinate after `i` of `n` steps on the way from `from` to `to`.
fn line_coordinate(from: u32, to: u32, n: u32, i: u32) -> (c: u32)
    requires
        0 < n,
        i <= n,
        span(from as int, to as int) <= n,
    ensures
        c == line_coord(from as int, to as int, n as int, i as int),
{
    let d: u32 = if from <= to { to - from } else { from - to };
    proof {
        lemma_line_offset_bound(d as int, n as int, i as int);
        assert(0 <= i * d <= 0xffff_ffff * 0xffff_ffff) by (nonlinear_arith)
            requires
                0 <= i <= 0xffff_ffff,
                0 <= d <= 0xffff_ffff,
        ;
        assert(2 * i * d == 2 * (i * d)) by (nonlinear_arith);
    }
    let product: u128 = i as u128 * d as u128;
    let offset: u128 = (2 * product + n as u128) / (2 * n as u128);
    if from <= to {
        from + offset as u32
    } else {
        from - offset as u32
    }
}

/// Tells whether every cell strictly between `origin` and `target` on the
/// line that joins them is floor.
pub fn line_of_sight(
    tiles: &[bool],
    width: u32,
    height: u32,
    origin: GridPosition,
    target: GridPosition,
) -> (clear: bool)
    ensures
        clear == line_clear(
            tiles@,
            width,
            height,
            origin.x as int,
            origin.y as int,
            target.x as int,
            target.y as int,
        ),
{
    let dx: u32 = if origin.x <= target.x { target.x - origin.x } else { origin.x - target.x };
    let dy: u32 = if origin.y <= target.y { target.y - origin.y } else { origin.y - target.y };
    let n: u32 = if dx >= dy { dx } else { dy };
    let mut i: u32 = 1;
    while i < n
        invariant
            1 <= i,
            n == line_steps(origin.x as int, origin.y as int, target.x as int, target.y as int),
            span(origin.x as int, target.x as int) <= n,
            span(origin.y as int, target.y as int) <= n,
            forall|j: int|
                0 < j < i ==> #[trigger] line_step_open(
                    tiles@,
                    width,
                    height,
                    origin.x as int,
                    origin.y as int,
                    target.x as int,
                    target.y as int,
                    j,
                ),
        decreases n - i,
    {
        let x = line_coordinate(origin.x, target.x, n, i);
        let y = line_coordinate(origin.y, target.y, n, i);
        match tile_at(tiles, width, height, x, y) {
            Some(true) => {},
            _ => {
                assert(!line_step_open(
                    tiles@,
                    width,
                    height,
                    origin.x as int,
                    origin.y as int,
                    target.x as int,
                    target.y as int,
                    i as int,
                ));
                return false;
            },
        }
        i = i + 1;
    }
    true
}

/// Tells whether (x, y) is a floor tile that `origin` sees.
pub fn is_lit(
    tiles: &[bool],
    width: u32,
    height: u32,
    origin: GridPosition,
    radius: u32,
    x: i64,
    y: i64,
) -> (r: bool)
    ensures
        r == lit(
            tiles@,
            width,
            height,
            origin.x as int,
            origin.y as int,
            radius as int,
            x as int,
            y as int,
        ),
{
    if x < 0 || y < 0 || x > u32::MAX as i64 || y > u32::MAX as i64 {
        return false;
    }
    let target = GridPosition { x: x as u32, y: y as u32 };
    match tile_at(tiles, width, height, target.x, target.y) {
        Some(true) => {},
        _ => {
            return false;
        },
    }
    let dx: u32 = if origin.x <= target.x { target.x - origin.x } else { origin.x - target.x };
    let dy: u32 = if origin.y <= target.y { target.y - origin.y } else { origin.y - target.y };
    proof {
        let sx = target.x - origin.x;
        let sy = target.y - origin.y;
        assert(dx * dx == sx * sx) by (nonlinear_arith)
            requires
                dx == sx || dx == -sx,
        ;
        assert(dy * dy == sy * sy) by (nonlinear_arith)
            requires
                dy == sy || dy == -sy,
        ;
        assert(0 <= dx * dx <= 0xffff_ffff * 0xffff_ffff) by (nonlinear_arith)
            requires
                0 <= dx <= 0xffff_ffff,
        ;
        assert(0 <= dy * dy <= 0xffff_ffff * 0xffff_ffff) by (nonlinear_arith)
            requires
                0 <= dy <= 0xffff_ffff,
        ;
        assert(0 <= radius * radius <= 0xffff_ffff * 0xffff_ffff) by (nonlinear_arith)
            requires
                0 <= radius <= 0xffff_ffff,
        ;
    }
    let distance_squared: u128 = dx as u128 * dx as u128 + dy as u128 * dy as u128;
    if distance_squared > radius as u128 * radius as u128 {
        return false;
    }
    line_of_sight(tiles, width, height, origin, target)
}

/// Tells whether one of the eight neighbours of `p` is a floor tile that
/// `origin` sees.
fn has_lit_neighbour(
    tiles: &[bool],
    width: u32,
    height: u32,
    origin: GridPosition,
    radius: u32,
    p: GridPosition,
) -> (r: bool)
    ensures
        r == beside_lit(
            tiles@,
            width,
            height,
            origin.x as int,
            origin.y as int,
            radius as int,
            p.x as int,
            p.y as int,
        ),
{
    let x: i64 = p.x as i64;
    let y: i64 = p.y as i64;
    is_lit(tiles, width, height, origin, radius, x - 1, y - 1) || is_lit(
        tiles,
        width,
        height,
        origin,
        radius,
        x,
        y - 1,
    ) || is_lit(tiles, width, height, origin, radius, x + 1, y - 1) || is_lit(
        tiles,
        width,
        height,
        origin,
        radius,
        x - 1,
        y,
    ) || is_lit(tiles, width, height, origin, radius, x + 1, y) || is_lit(
        tiles,
        width,
        height,
        origin,
        radius,
        x - 1,
        y + 1,
    ) || is_lit(tiles, width, height, origin, radius, x, y + 1) || is_lit(
        tiles,
        width,
        height,
        origin,
        radius,
        x + 1,
        y + 1,
    )
}

/// Tells whether an actor at `origin` with the given sight radius sees `p`.
pub fn is_visible(
    tiles: &[bool],
    width: u32,
    height: u32,
    origin: GridPosition,
    radius: u32,
    p: GridPosition,
) -> (r: bool)
    ensures
        r == sees(tiles@, width, height, origin, radius, p),
{
    if p.x == origin.x && p.y == origin.y {
        return true;
    }
    match tile_at(tiles, width, height, p.x, p.y) {
        Some(true) => is_lit(tiles, width, height, origin, radius, p.x as i64, p.y as i64),
        Some(false) => has_lit_neighbour(tiles, width, height, origin, radius, p),
        None => false,
    }
}

/// Appending a value that a duplicate-free sequence lacks keeps it
/// duplicate-free and adds that value alone.
pub proof fn lemma_push_fresh<T>(s: Seq<T>, v: T)
    requires
        s.no_duplicates(),
        !s.contains(v),
    ensures
        s.push(v).no_duplicates(),
        forall|x: T| #[trigger] s.push(v).contains(x) <==> (s.contains(x) || x == v),
{
    let t = s.push(v);
    assert forall|i: int, j: int| 0 <= i < t.len() && 0 <= j < t.len() && i != j implies t[i]
        != t[j] by {
        if i < s.len() && j < s.len() {
            assert(s[i] != s[j]);
        } else if i < s.len() {
            assert(s.contains(s[i]));
        } else {
            assert(s.contains(s[j]));
        }
    }
    assert forall|x: T| #[trigger] t.contains(x) <==> (s.contains(x) || x == v) by {
        if t.contains(x) {
            let i = choose|i: int| 0 <= i < t.len() && t[i] == x;
            if i < s.len() {
                assert(s[i] == x);
            }
        }
        if s.contains(x) {
            let i = choose|i: int| 0 <= i < s.len() && s[i] == x;
            assert(t[i] == x);
        }
        if x == v {
            assert(t[s.len() as int] == x);
        }
    }
}

/// Whether `p` lies in the part of the grid that is at most `radius + 1`
/// cells from the origin along either axis.
pub open spec fn in_reach(width: u32, height: u32, origin: GridPosition, radius: u32, p: GridPosition) -> bool {
    &&& p.x < width
    &&& p.y < height
    &&& span(origin.x as int, p.x as int) <= radius + 1
    &&& span(origin.y as int, p.y as int) <= radius + 1
}

/// Every cell that is seen, but for the origin itself, is within reach.
pub proof fn lemma_seen_in_reach(
    tiles: Seq<bool>,
    width: u32,
    height: u32,
    origin: GridPosition,
    radius: u32,
    p: GridPosition,
)
    requires
        sees(tiles, width, height, origin, radius, p),
        p != origin,
    ensures
        in_reach(width, height, origin, radius, p),
{
    let ox = origin.x as int;
    let oy = origin.y as int;
    let r = radius as int;
    let x = p.x as int;
    let y = p.y as int;
    if lit(tiles, width, height, ox, oy, r, x, y) {
        lemma_within_radius_spans(ox, oy, x, y, r);
    } else {
        if lit(tiles, width, height, ox, oy, r, x - 1, y - 1) {
            lemma_within_radius_spans(ox, oy, x - 1, y - 1, r);
        } else if lit(tiles, width, height, ox, oy, r, x, y - 1) {
            lemma_within_radius_spans(ox, oy, x, y - 1, r);
        } else if lit(tiles, width, height, ox, oy, r, x + 1, y - 1) {
            lemma_within_radius_spans(ox, oy, x + 1, y - 1, r);
        } else if lit(tiles, width, height, ox, oy, r, x - 1, y) {
            lemma_within_radius_spans(ox, oy, x - 1, y, r);
        } else if lit(tiles, width, height, ox, oy, r, x + 1, y) {
            lemma_within_radius_spans(ox, oy, x + 1, y, r);
        } else if lit(tiles, width, height, ox, oy, r, x - 1, y + 1) {
            lemma_within_radius_spans(ox, oy, x - 1, y + 1, r);
        } else if lit(tiles, width, height, ox, oy, r, x, y + 1) {
            lemma_within_radius_spans(ox, oy, x, y + 1, r);
        } else {
            lemma_within_radius_spans(ox, oy, x + 1, y + 1, r);
        }
    }
}

/// The cells that an actor at `origin` with the given sight radius sees on
/// the tile field: each one once.
pub fn compute_fov(tiles: &[bool], width: u32, height: u32, origin: &GridPosition, radius: u32) -> (visible:
    Vec<GridPosition>)
    ensures
        visible@.no_duplicates(),
        visible@.to_set() == visible_set(tiles@, width, height, *origin, radius),
        forall|p: GridPosition| #[trigger]
            visible@.contains(p) <==> sees(tiles@, width, height, *origin, radius, p),
{
    let reach: u64 = radius as u64 + 1;
    let x_first: u64 = if origin.x as u64 >= reach { origin.x as u64 - reach } else { 0 };
    let y_first: u64 = if origin.y as u64 >= reach { origin.y as u64 - reach } else { 0 };
    let x_end: u64 = if origin.x as u64 + reach < width as u64 {
        origin.x as u64 + reach + 1
    } else {
        width as u64
    };
    let y_end: u64 = if origin.y as u64 + reach < height as u64 {
        origin.y as u64 + reach + 1
    } else {
        height as u64
    };
    let mut visible: Vec<GridPosition> = Vec::new();
    let mut y: u64 = y_first;
    while y < y_end
        invariant
            y_first <= y,
            y <= y_end || y == y_first,
            y_end <= height,
            x_end <= width,
            visible@.no_duplicates(),
            forall|p: GridPosition| #[trigger]
                visible@.contains(p) <==> (sees(tiles@, width, height, *origin, radius, p)
                    && x_first <= p.x < x_end && y_first <= p.y < y),
        decreases y_end - y,
    {
        let mut x: u64 = x_first;
        while x < x_end
            invariant
                x_first <= x,
                y_first <= y < y_end,
                y_end <= height,
                x_end <= width,
                visible@.no_duplicates(),
                forall|p: GridPosition| #[trigger]
                    visible@.contains(p) <==> (sees(tiles@, width, height, *origin, radius, p)
                        && x_first <= p.x < x_end && y_first <= p.y && (p.y < y || (p.y == y && p.x
                        < x))),
            decreases x_end - x,
        {
            let p = GridPosition { x: x as u32, y: y as u32 };
            if is_visible(tiles, width, height, *origin, radius, p) {
                proof {
                    lemma_push_fresh(visible@, p);
                }
                visible.push(p);
            }
            x = x + 1;
        }
        y = y + 1;
    }
    let origin_scanned = x_first <= origin.x as u64 && (origin.x as u64) < x_end && y_first
        <= origin.y as u64 && (origin.y as u64) < y_end;
    if !origin_scanned {
        proof {
            lemma_push_fresh(visible@, *origin);
        }
        visible.push(*origin);
    }
    proof {
        assert forall|p: GridPosition| #[trigger]
            visible@.contains(p) <==> sees(tiles@, width, height, *origin, radius, p) by {
            if sees(tiles@, width, height, *origin, radius, p) && p != *origin {
                lemma_seen_in_reach(tiles@, width, height, *origin, radius, p);
            }
        }
        assert(visible@.to_set() =~= visible_set(tiles@, width, height, *origin, radius));
    }
    visible
}

} // verus!
