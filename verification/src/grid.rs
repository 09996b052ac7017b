//! Grid primitives shared by every other module: positions, the eight
//! directions, and row-major access to a tile field.

use vstd::prelude::*;

verus! {

/// A cell of the grid. `x` grows to the right and `y` upwards.
#[derive(Clone, Copy, Debug, PartialEq, Eq, Structural, Hash)]
pub struct GridPosition {
    pub x: u32,
    pub y: u32,
}

/// Grid dimensions and the edge length of one tile in whole pixels.
#[derive(Clone, Copy, Debug, PartialEq, Eq, Structural)]
pub struct MapDimensions {
    pub width: u32,
    pub height: u32,
    pub tile_size: u32,
}

impl Default for MapDimensions {
    fn default() -> (d: Self)
        ensures
            d == (MapDimensions { width: 32, height: 32, tile_size: 16 }),
    {
        MapDimensions { width: 32, height: 32, tile_size: 16 }
    }
}

/// One of the eight moves an actor can make.
#[derive(Clone, Copy, Debug, PartialEq, Eq, Structural)]
pub enum Direction {
    North,
    NorthEast,
    East,
    SouthEast,
    South,
    SouthWest,
    West,
    NorthWest,
}

impl Direction {
    /// Horizontal component of the move: -1, 0 or 1.
    pub open spec fn dx(self) -> int {
        match self {
            Direction::NorthEast | Direction::East | Direction::SouthEast => 1,
            Direction::NorthWest | Direction::West | Direction::SouthWest => -1,
            Direction::North | Direction::South => 0,
        }
    }

    /// Vertical component of the move: -1, 0 or 1.
    pub open spec fn dy(self) -> int {
        match self {
            Direction::NorthWest | Direction::North | Direction::NorthEast => 1,
            Direction::SouthWest | Direction::South | Direction::SouthEast => -1,
            Direction::West | Direction::East => 0,
        }
    }

    /// Horizontal component of the move.
    pub fn delta_x(self) -> (d: i8)
        ensures
            d == self.dx(),
    {
        match self {
            Direction::NorthEast | Direction::East | Direction::SouthEast => 1,
            Direction::NorthWest | Direction::West | Direction::SouthWest => -1,
            Direction::North | Direction::South => 0,
        }
    }

    /// Vertical component of the move.
    pub fn delta_y(self) -> (d: i8)
        ensures
            d == self.dy(),
    {
        match self {
            Direction::NorthWest | Direction::North | Direction::NorthEast => 1,
            Direction::SouthWest | Direction::South | Direction::SouthEast => -1,
            Direction::West | Direction::East => 0,
        }
    }
}

/// Whether (x, y) lies on a grid of the given size.
pub open spec fn in_bounds(width: u32, height: u32, x: int, y: int) -> bool {
    0 <= x < width && 0 <= y < height
}

/// Row-major index of (x, y).
pub open spec fn tile_index(width: u32, x: int, y: int) -> int {
    y * width + x
}

/// What a tile field holds at (x, y): `Some(true)` for floor, `Some(false)`
/// for wall, `None` where the field has no tile.
pub open spec fn tile_value(tiles: Seq<bool>, width: u32, height: u32, x: int, y: int) -> Option<
    bool,
> {
    if in_bounds(width, height, x, y) && tile_index(width, x, y) < tiles.len() {
        Some(tiles[tile_index(width, x, y)])
    } else {
        None
    }
}

/// Whether the field has a floor tile at (x, y).
pub open spec fn floor_at(tiles: Seq<bool>, width: u32, height: u32, x: int, y: int) -> bool {
    tile_value(tiles, width, height, x, y) == Some(true)
}

/// Whether the field has a wall tile at (x, y).
pub open spec fn wall_at(tiles: Seq<bool>, width: u32, height: u32, x: int, y: int) -> bool {
    tile_value(tiles, width, height, x, y) == Some(false)
}

/// The cell reached from `pos` by one move in direction `dir`, if that cell
/// has coordinates a position can hold.
pub open spec fn step_from(pos: GridPosition, dir: Direction) -> Option<GridPosition> {
    let x = pos.x + dir.dx();
    let y = pos.y + dir.dy();
    if 0 <= x <= u32::MAX && 0 <= y <= u32::MAX {
        Some(GridPosition { x: x as u32, y: y as u32 })
    } else {
        None
    }
}

/// Whether `a` and `b` are distinct cells that touch by an edge or a corner.
pub open spec fn adjacent(a: GridPosition, b: GridPosition) -> bool {
    &&& a != b
    &&& -1 <= a.x - b.x <= 1
    &&& -1 <= a.y - b.y <= 1
}

/// Row-major indices of a grid stay below the number of its cells.
pub proof fn lemma_tile_index_bound(width: u32, height: u32, x: int, y: int)
    requires
        in_bounds(width, height, x, y),
    ensures
        0 <= tile_index(width, x, y) < width * height,
        tile_index(width, x, y) <= u64::MAX,
{
    assert(y * width <= (height - 1) * width) by (nonlinear_arith)
        requires
            0 <= y <= height - 1,
            0 <= width,
    ;
    assert((height - 1) * width == height * width - width) by (nonlinear_arith);
    assert(width * height == height * width) by (nonlinear_arith);
    assert(0 <= y * width) by (nonlinear_arith)
        requires
            0 <= y,
            0 <= width,
    ;
    assert(height * width <= 0xffff_ffff * 0xffff_ffff) by (nonlinear_arith)
        requires
            0 <= height <= 0xffff_ffff,
            0 <= width <= 0xffff_ffff,
    ;
}

/// Distinct cells of a grid have distinct row-major indices.
pub proof fn lemma_tile_index_injective(width: u32, x1: int, y1: int, x2: int, y2: int)
    requires
        0 <= x1 < width,
        0 <= x2 < width,
        tile_index(width, x1, y1) == tile_index(width, x2, y2),
    ensures
        x1 == x2,
        y1 == y2,
{
    if y1 < y2 {
        assert((y2 - y1) * width >= width) by (nonlinear_arith)
            requires
                y2 - y1 >= 1,
                width >= 0,
        ;
        assert((y2 - y1) * width == y2 * width - y1 * width) by (nonlinear_arith);
    } else if y2 < y1 {
        assert((y1 - y2) * width >= width) by (nonlinear_arith)
            requires
                y1 - y2 >= 1,
                width >= 0,
        ;
        assert((y1 - y2) * width == y1 * width - y2 * width) by (nonlinear_arith);
    }
}

/// Reads the tile at (x, y) of a row-major field.
pub fn tile_at(tiles: &[bool], width: u32, height: u32, x: u32, y: u32) -> (r: Option<bool>)
    ensures
        r == tile_value(tiles@, width, height, x as int, y as int),
{
    if x >= width || y >= height {
        return None;
    }
    proof {
        lemma_tile_index_bound(width, height, x as int, y as int);
    }
    let index: u64 = y as u64 * width as u64 + x as u64;
    if index < tiles.len() as u64 {
        Some(tiles[index as usize])
    } else {
        None
    }
}

/// Moves one cell from `pos` in direction `dir`.
pub fn step(pos: GridPosition, dir: Direction) -> (r: Option<GridPosition>)
    ensures
        r == step_from(pos, dir),
{
    let x: i64 = pos.x as i64 + dir.delta_x() as i64;
    let y: i64 = pos.y as i64 + dir.delta_y() as i64;
    if 0 <= x && x <= u32::MAX as i64 && 0 <= y && y <= u32::MAX as i64 {
        Some(GridPosition { x: x as u32, y: y as u32 })
    } else {
        None
    }
}

/// Tells whether two cells touch by an edge or a corner without being the
/// same cell.
pub fn is_adjacent(a: GridPosition, b: GridPosition) -> (r: bool)
    ensures
        r == adjacent(a, b),
{
    let dx: i64 = a.x as i64 - b.x as i64;
    let dy: i64 = a.y as i64 - b.y as i64;
    -1 <= dx && dx <= 1 && -1 <= dy && dy <= 1 && !(dx == 0 && dy == 0)
}

} // verus!
