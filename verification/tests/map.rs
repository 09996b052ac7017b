use anarchy2090::grid::{tile_at, GridPosition, MapDimensions};
use anarchy2090::map_builder::{generate_map, MapBuilder, Rect, MAX_ROOMS, MAX_SIZE, MIN_SIZE};

fn floor_cells(map: &MapBuilder) -> Vec<(u32, u32)> {
    let mut cells = Vec::new();
    for y in 0..map.height {
        for x in 0..map.width {
            if map.is_floor(x, y) {
                cells.push((x, y));
            }
        }
    }
    cells
}

fn check_level(map: &MapBuilder) {
    assert_eq!(map.tiles.len(), (map.width * map.height) as usize);
    for (i, a) in map.rooms.iter().enumerate() {
        assert!(a.x1 >= 1 && a.y1 >= 1);
        assert!(a.x2 + 1 < map.width && a.y2 + 1 < map.height);
        for (j, b) in map.rooms.iter().enumerate() {
            if i != j {
                assert!(!a.intersect(b), "rooms {i} and {j} touch");
            }
        }
        for y in a.y1 + 1..a.y2 {
            for x in a.x1 + 1..a.x2 {
                assert!(map.is_floor(x, y), "interior ({x}, {y}) of room {i}");
            }
        }
    }
    for pair in map.rooms.windows(2) {
        let a = pair[0].center();
        let b = pair[1].center();
        let row = |y: u32| (a.x.min(b.x)..=a.x.max(b.x)).all(|x| map.is_floor(x, y));
        let column = |x: u32| (a.y.min(b.y)..=a.y.max(b.y)).all(|y| map.is_floor(x, y));
        assert!((row(a.y) && column(b.x)) || (column(a.x) && row(b.y)));
    }
}

#[test]
fn map_dimensions_default() {
    let d = MapDimensions::default();
    assert_eq!(d.width, 32);
    assert_eq!(d.height, 32);
    assert_eq!(d.tile_size, 16);
}

#[test]
fn rect_new_and_center() {
    let r = Rect::new(2, 3, 6, 8);
    assert_eq!(r, Rect { x1: 2, y1: 3, x2: 8, y2: 11 });
    assert_eq!(r.center(), GridPosition { x: 5, y: 7 });
    let big = Rect { x1: u32::MAX - 1, y1: u32::MAX, x2: u32::MAX, y2: u32::MAX };
    assert_eq!(big.center(), GridPosition { x: u32::MAX - 1, y: u32::MAX });
}

#[test]
fn rect_intersect_counts_shared_borders() {
    let a = Rect::new(0, 0, 4, 4);
    assert!(a.intersect(&Rect::new(4, 4, 2, 2)));
    assert!(a.intersect(&Rect::new(2, 2, 1, 1)));
    assert!(!a.intersect(&Rect::new(5, 0, 2, 2)));
    assert!(!a.intersect(&Rect::new(0, 5, 2, 2)));
    assert!(Rect::new(5, 0, 2, 2).intersect(&Rect::new(7, 2, 1, 1)));
}

#[test]
fn new_level_is_all_wall() {
    let map = MapBuilder::new(7, 5);
    assert_eq!(map.tiles, vec![false; 35]);
    assert!(map.rooms.is_empty());
    assert!(floor_cells(&map).is_empty());
    assert!(!map.is_floor(7, 0));
    assert!(!map.is_floor(0, 5));
}

#[test]
fn tile_at_reads_row_major() {
    let tiles = vec![true, false, false, true, true, false];
    assert_eq!(tile_at(&tiles, 3, 2, 0, 0), Some(true));
    assert_eq!(tile_at(&tiles, 3, 2, 1, 0), Some(false));
    assert_eq!(tile_at(&tiles, 3, 2, 0, 1), Some(true));
    assert_eq!(tile_at(&tiles, 3, 2, 2, 1), Some(false));
    assert_eq!(tile_at(&tiles, 3, 2, 3, 0), None);
    assert_eq!(tile_at(&tiles, 3, 2, 0, 2), None);
    assert_eq!(tile_at(&tiles, 3, 3, 0, 2), None);
}

#[test]
fn first_room_carves_its_interior_only() {
    let mut map = MapBuilder::new(12, 10);
    assert!(map.place_room(1, 1, 4, 3, true));
    assert_eq!(map.rooms, vec![Rect { x1: 1, y1: 1, x2: 5, y2: 4 }]);
    let expected: Vec<(u32, u32)> = vec![(2, 2), (3, 2), (4, 2), (2, 3), (3, 3), (4, 3)];
    assert_eq!(floor_cells(&map), expected);
    check_level(&map);
}

#[test]
fn room_that_touches_another_is_rejected() {
    let mut map = MapBuilder::new(30, 30);
    assert!(map.place_room(2, 2, 6, 6, true));
    let before = map.tiles.clone();
    // Shares the corner (8, 8).
    assert!(!map.place_room(8, 8, 6, 6, true));
    // Lies inside.
    assert!(!map.place_room(3, 3, 2, 2, false));
    assert_eq!(map.rooms.len(), 1);
    assert_eq!(map.tiles, before);
    // One column further it is free.
    assert!(map.place_room(9, 2, 6, 6, true));
    check_level(&map);
}

#[test]
fn room_off_the_grid_is_rejected() {
    let mut map = MapBuilder::new(12, 12);
    assert!(!map.place_room(0, 1, 5, 5, true));
    assert!(!map.place_room(1, 0, 5, 5, true));
    assert!(!map.place_room(1, 1, 10, 5, true));
    assert!(!map.place_room(1, 1, 5, 10, true));
    assert!(!map.place_room(1, 1, 1, 5, true));
    assert!(!map.place_room(1, 1, 5, 1, true));
    assert!(!map.place_room(u32::MAX, 1, 5, 5, true));
    assert!(!map.place_room(1, 1, u32::MAX, 5, true));
    assert!(map.rooms.is_empty());
    assert!(floor_cells(&map).is_empty());
    // The largest room that fits.
    assert!(map.place_room(1, 1, 9, 9, true));
}

#[test]
fn corridor_leaves_along_the_row_when_horizontal_first() {
    let mut map = MapBuilder::new(20, 12);
    assert!(map.place_room(1, 1, 2, 2, true));
    assert!(map.place_room(10, 6, 2, 2, true));
    // Centres (2, 2) and (11, 7): row 2 from column 2 to 11, then column 11
    // from row 2 to 7.
    for x in 2..=11 {
        assert!(map.is_floor(x, 2));
    }
    for y in 2..=7 {
        assert!(map.is_floor(11, y));
    }
    assert!(!map.is_floor(2, 3));
    assert!(!map.is_floor(2, 7));
    assert_eq!(floor_cells(&map).len(), 10 + 5);
    check_level(&map);
}

#[test]
fn corridor_leaves_along_the_column_when_vertical_first() {
    let mut map = MapBuilder::new(20, 12);
    assert!(map.place_room(1, 1, 2, 2, true));
    assert!(map.place_room(10, 6, 2, 2, false));
    // Column 2 from row 2 to 7, then row 7 from column 2 to 11.
    for y in 2..=7 {
        assert!(map.is_floor(2, y));
    }
    for x in 2..=11 {
        assert!(map.is_floor(x, 7));
    }
    assert!(!map.is_floor(3, 2));
    assert!(!map.is_floor(11, 2));
    assert_eq!(floor_cells(&map).len(), 6 + 9);
    check_level(&map);
}

#[test]
fn corridor_runs_backwards_too() {
    let mut map = MapBuilder::new(20, 12);
    assert!(map.place_room(10, 6, 2, 2, true));
    assert!(map.place_room(1, 1, 2, 2, true));
    // From (11, 7) to (2, 2): row 7 down to column 2, then column 2.
    for x in 2..=11 {
        assert!(map.is_floor(x, 7));
    }
    for y in 2..=7 {
        assert!(map.is_floor(2, y));
    }
    check_level(&map);
}

#[test]
fn can_place_agrees_with_place_room() {
    let mut map = MapBuilder::new(30, 30);
    assert!(map.can_place(2, 2, 6, 6));
    assert!(map.place_room(2, 2, 6, 6, true));
    assert!(!map.can_place(2, 2, 6, 6));
    assert!(!map.can_place(8, 2, 6, 6));
    assert!(map.can_place(9, 2, 6, 6));
}

#[test]
fn generation_keeps_rooms_apart_carved_and_connected() {
    for _ in 0..40 {
        let mut map = MapBuilder::new(80, 50);
        map.build_rooms_and_corridors();
        assert!(!map.rooms.is_empty());
        assert!(map.rooms.len() <= MAX_ROOMS as usize);
        for room in &map.rooms {
            let w = room.x2 - room.x1;
            let h = room.y2 - room.y1;
            assert!((MIN_SIZE..=MAX_SIZE).contains(&w), "width {w}");
            assert!((MIN_SIZE..=MAX_SIZE).contains(&h), "height {h}");
        }
        check_level(&map);
    }
}

#[test]
fn generation_carves_nothing_but_rooms_and_corridors() {
    for _ in 0..20 {
        let map = generate_map(60, 40);
        for (x, y) in floor_cells(&map) {
            let in_room = map.rooms.iter().any(|r| r.x1 < x && x < r.x2 && r.y1 < y && y < r.y2);
            let on_corridor = map.rooms.windows(2).any(|pair| {
                let a = pair[0].center();
                let b = pair[1].center();
                let in_columns = a.x.min(b.x) <= x && x <= a.x.max(b.x);
                let in_rows = a.y.min(b.y) <= y && y <= a.y.max(b.y);
                (in_columns && (y == a.y || y == b.y)) || (in_rows && (x == a.x || x == b.x))
            });
            assert!(in_room || on_corridor, "floor at ({x}, {y})");
        }
    }
}

#[test]
fn generation_varies_what_it_samples() {
    let mut widths = std::collections::BTreeSet::new();
    let mut columns = std::collections::BTreeSet::new();
    let mut most_rooms = 0;
    for _ in 0..40 {
        let map = generate_map(80, 50);
        most_rooms = most_rooms.max(map.rooms.len());
        for room in &map.rooms {
            widths.insert(room.x2 - room.x1);
            columns.insert(room.x1);
            assert!(room.x1 >= 1 && room.x1 < 80 - (room.x2 - room.x1) - 1);
        }
    }
    assert!(most_rooms >= 2);
    assert!(widths.len() >= 2);
    assert!(columns.len() >= 2);
}

#[test]
fn usable_level_has_all_its_tiles_and_rooms_that_fit() {
    let mut map = MapBuilder::new(20, 12);
    assert!(map.is_usable());
    assert!(map.place_room(1, 1, 4, 4, true));
    assert!(map.is_usable());
    map.tiles.pop();
    assert!(!map.is_usable());
    map.tiles.push(false);
    map.rooms.push(Rect { x1: 0, y1: 1, x2: 5, y2: 5 });
    assert!(!map.is_usable());
    map.rooms[1] = Rect { x1: 10, y1: 5, x2: 18, y2: 10 };
    assert!(map.is_usable());
    map.rooms[1] = Rect { x1: 10, y1: 5, x2: 19, y2: 10 };
    assert!(!map.is_usable());
    map.rooms[1] = Rect { x1: 10, y1: 5, x2: 11, y2: 10 };
    assert!(!map.is_usable());
}

#[test]
fn generation_appends_to_the_rooms_it_finds() {
    let mut map = MapBuilder::new(80, 50);
    assert!(map.place_room(30, 20, 8, 8, true));
    let first = map.rooms[0];
    map.build_rooms_and_corridors();
    assert_eq!(map.rooms[0], first);
    check_level(&map);
}

#[test]
fn grid_too_small_for_any_room_stays_wall() {
    for _ in 0..10 {
        let map = generate_map(8, 8);
        assert!(map.rooms.is_empty());
        assert!(floor_cells(&map).is_empty());
    }
    let map = generate_map(0, 0);
    assert!(map.tiles.is_empty());
}

#[test]
fn grid_that_holds_only_the_smallest_rooms() {
    // Width 9 holds rooms of width 6 only.
    for _ in 0..20 {
        let map = generate_map(9, 40);
        for room in &map.rooms {
            assert_eq!(room.x2 - room.x1, 6);
            assert_eq!(room.x1, 1);
        }
        check_level(&map);
    }
}
