use anarchy2090::fov::{compute_fov, is_lit, is_visible, line_of_sight};
use anarchy2090::grid::GridPosition;

fn open_field(width: u32, height: u32) -> Vec<bool> {
    vec![true; (width * height) as usize]
}

fn pos(x: u32, y: u32) -> GridPosition {
    GridPosition { x, y }
}

#[test]
fn open_field_shows_every_cell_within_radius() {
    let tiles = open_field(5, 5);
    let seen = compute_fov(&tiles, 5, 5, &pos(2, 2), 2);
    assert_eq!(seen.len(), 13);
    for y in 0..5u32 {
        for x in 0..5u32 {
            let dx = x as i64 - 2;
            let dy = y as i64 - 2;
            let near = dx * dx + dy * dy <= 4;
            assert_eq!(seen.contains(&pos(x, y)), near, "cell ({x}, {y})");
        }
    }
}

#[test]
fn wall_hides_the_tile_behind_it_and_is_seen_itself() {
    let mut tiles = open_field(5, 5);
    tiles[2 * 5 + 3] = false;
    let seen = compute_fov(&tiles, 5, 5, &pos(2, 2), 2);
    assert!(!seen.contains(&pos(4, 2)));
    assert!(seen.contains(&pos(3, 2)));
    assert!(seen.contains(&pos(2, 2)));
    assert!(seen.contains(&pos(0, 2)));
    assert_eq!(seen.len(), 12);
}

#[test]
fn origin_is_seen_even_off_the_grid() {
    let tiles = open_field(3, 3);
    let seen = compute_fov(&tiles, 3, 3, &pos(10, 10), 1);
    assert_eq!(seen, vec![pos(10, 10)]);
}

#[test]
fn origin_is_seen_with_radius_zero() {
    let tiles = open_field(3, 3);
    let seen = compute_fov(&tiles, 3, 3, &pos(1, 1), 0);
    assert_eq!(seen, vec![pos(1, 1)]);
}

#[test]
fn walls_around_a_lit_room_are_seen_beyond_the_radius() {
    // A 3x3 room of floor in a 5x5 field of walls, seen from its centre with
    // radius 1: the four edge neighbours are lit, and every wall that touches
    // one of them or the centre is seen, the corners of the field excepted.
    let mut tiles = vec![false; 25];
    for y in 1..4 {
        for x in 1..4 {
            tiles[y * 5 + x] = true;
        }
    }
    let seen = compute_fov(&tiles, 5, 5, &pos(2, 2), 1);
    assert!(seen.contains(&pos(2, 0)));
    assert!(seen.contains(&pos(1, 0)));
    assert!(seen.contains(&pos(0, 2)));
    assert!(!seen.contains(&pos(0, 0)));
    assert!(!seen.contains(&pos(1, 1)));
    assert!(seen.contains(&pos(1, 2)));
}

#[test]
fn fov_lists_each_cell_once() {
    let tiles = open_field(9, 9);
    let seen = compute_fov(&tiles, 9, 9, &pos(4, 4), 3);
    for (i, a) in seen.iter().enumerate() {
        for b in seen.iter().skip(i + 1) {
            assert_ne!(a, b);
        }
    }
}

#[test]
fn line_of_sight_follows_the_nearest_cells() {
    // From (0, 0) to (4, 2) the line passes (1, 1), (2, 1), (3, 2).
    let mut tiles = open_field(5, 3);
    assert!(line_of_sight(&tiles, 5, 3, pos(0, 0), pos(4, 2)));
    tiles[1 * 5 + 2] = false;
    assert!(!line_of_sight(&tiles, 5, 3, pos(0, 0), pos(4, 2)));
    tiles[1 * 5 + 2] = true;
    tiles[0 * 5 + 1] = false;
    assert!(line_of_sight(&tiles, 5, 3, pos(0, 0), pos(4, 2)));
    tiles[1 * 5 + 1] = false;
    assert!(!line_of_sight(&tiles, 5, 3, pos(0, 0), pos(4, 2)));
}

#[test]
fn line_of_sight_ignores_both_ends() {
    let mut tiles = open_field(3, 1);
    tiles[0] = false;
    tiles[2] = false;
    assert!(line_of_sight(&tiles, 3, 1, pos(0, 0), pos(2, 0)));
    assert!(line_of_sight(&tiles, 3, 1, pos(2, 0), pos(0, 0)));
    assert!(line_of_sight(&tiles, 3, 1, pos(1, 0), pos(1, 0)));
}

#[test]
fn lit_needs_floor_radius_and_clear_line() {
    let mut tiles = open_field(5, 1);
    assert!(is_lit(&tiles, 5, 1, pos(0, 0), 3, 3, 0));
    assert!(!is_lit(&tiles, 5, 1, pos(0, 0), 3, 4, 0));
    assert!(!is_lit(&tiles, 5, 1, pos(0, 0), 3, -1, 0));
    assert!(!is_lit(&tiles, 5, 1, pos(0, 0), 3, 5, 0));
    tiles[3] = false;
    assert!(!is_lit(&tiles, 5, 1, pos(0, 0), 3, 3, 0));
    tiles[3] = true;
    tiles[2] = false;
    assert!(!is_lit(&tiles, 5, 1, pos(0, 0), 3, 3, 0));
    assert!(is_visible(&tiles, 5, 1, pos(0, 0), 3, pos(2, 0)));
    assert!(!is_visible(&tiles, 5, 1, pos(0, 0), 3, pos(3, 0)));
}

#[test]
fn euclidean_radius_cuts_the_corners() {
    let tiles = open_field(7, 7);
    let seen = compute_fov(&tiles, 7, 7, &pos(3, 3), 3);
    assert!(seen.contains(&pos(6, 3)));
    assert!(seen.contains(&pos(5, 5)));
    assert!(!seen.contains(&pos(6, 5)));
    assert!(!seen.contains(&pos(6, 6)));
    // 29 cells have a squared distance of at most 9.
    assert_eq!(seen.len(), 29);
}
