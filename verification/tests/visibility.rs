use anarchy2090::arena::Arena;
use anarchy2090::components::{ActorKind, FieldOfView, GameLog};
use anarchy2090::grid::GridPosition;
use anarchy2090::map_builder::MapBuilder;
use anarchy2090::systems::visibility::{
    mark_fov_dirty, update_fov, update_visibility, TileVisibility,
};
use anarchy2090::world::refresh_sight;

fn pos(x: u32, y: u32) -> GridPosition {
    GridPosition { x, y }
}

fn open_level(width: u32, height: u32) -> MapBuilder {
    MapBuilder { width, height, rooms: Vec::new(), tiles: vec![true; (width * height) as usize] }
}

#[test]
fn new_field_of_view_is_empty_and_due() {
    let f = FieldOfView::new(6);
    assert!(f.visible_tiles.is_empty());
    assert_eq!(f.range, 6);
    assert!(f.is_dirty);
    assert!(!f.contains(pos(0, 0)));
}

#[test]
fn refresh_computes_once_and_then_keeps_the_cache() {
    let tiles = vec![true; 25];
    let mut f = FieldOfView::new(2);
    f.refresh(&tiles, 5, 5, pos(2, 2));
    assert!(!f.is_dirty);
    assert_eq!(f.visible_tiles.len(), 13);
    assert!(f.contains(pos(2, 4)));
    assert!(!f.contains(pos(4, 4)));
    let first = f.visible_tiles.clone();
    f.refresh(&tiles, 5, 5, pos(2, 2));
    assert_eq!(f.visible_tiles, first);
    assert!(!f.is_dirty);
    // A clean cache is handed back as it is, whatever it holds.
    f.visible_tiles = vec![pos(9, 9)];
    f.refresh(&tiles, 5, 5, pos(2, 2));
    assert_eq!(f.visible_tiles, vec![pos(9, 9)]);
    // Marked dirty, it is computed anew.
    f.is_dirty = true;
    f.refresh(&tiles, 5, 5, pos(0, 0));
    assert!(f.contains(pos(0, 0)) && f.contains(pos(2, 0)) && f.contains(pos(1, 1)));
    assert_eq!(f.visible_tiles.len(), 6);
}

#[test]
fn moves_mark_the_field_of_view_as_due() {
    let mut arena = Arena::new();
    arena.spawn(ActorKind::Player, pos(1, 1), 8);
    arena.spawn(ActorKind::Monster, pos(3, 3), 6);
    for actor in arena.actors.iter_mut() {
        actor.fov.is_dirty = false;
        actor.fov.visible_tiles = vec![pos(7, 7)];
    }
    arena.actors[1].moved = true;
    mark_fov_dirty(&mut arena);
    assert!(!arena.actors[0].fov.is_dirty);
    assert!(arena.actors[1].fov.is_dirty);
    assert!(!arena.actors[1].moved);
    assert_eq!(arena.actors[1].fov.visible_tiles, vec![pos(7, 7)]);
    mark_fov_dirty(&mut arena);
    assert!(!arena.actors[0].fov.is_dirty);
}

#[test]
fn update_fov_computes_only_what_is_due() {
    let map = open_level(9, 9);
    let mut arena = Arena::new();
    arena.spawn(ActorKind::Player, pos(4, 4), 2);
    arena.spawn(ActorKind::Monster, pos(0, 0), 1);
    arena.actors[1].fov.is_dirty = false;
    arena.actors[1].fov.visible_tiles = vec![pos(8, 8)];
    update_fov(&mut arena, &map);
    assert_eq!(arena.actors[0].fov.visible_tiles.len(), 13);
    assert!(!arena.actors[0].fov.is_dirty);
    assert_eq!(arena.actors[1].fov.visible_tiles, vec![pos(8, 8)]);
    arena.actors[1].fov.is_dirty = true;
    update_fov(&mut arena, &map);
    assert_eq!(arena.actors[1].fov.visible_tiles, vec![pos(0, 0), pos(1, 0), pos(0, 1)]);
    assert_eq!(arena.actors[0].position, pos(4, 4));
}

#[test]
fn tiles_are_visible_while_seen_and_explored_ever_after() {
    let map = open_level(4, 3);
    let mut flags = TileVisibility::new(&map);
    assert_eq!(flags.visible, vec![false; 12]);
    assert_eq!(flags.explored, vec![false; 12]);
    let mut arena = Arena::new();
    arena.spawn(ActorKind::Player, pos(0, 0), 8);
    arena.spawn(ActorKind::Monster, pos(1, 0), 6);
    arena.spawn(ActorKind::Monster, pos(3, 2), 6);
    arena.actors[0].fov.visible_tiles = vec![pos(0, 0), pos(1, 0), pos(1, 1), pos(9, 9)];
    update_visibility(&mut arena, &map, &mut flags);
    assert!(flags.is_visible(&map, 0, 0) && flags.is_visible(&map, 1, 0) && flags.is_visible(&map, 1, 1));
    assert!(!flags.is_visible(&map, 2, 0));
    assert!(!flags.is_visible(&map, 9, 9));
    assert_eq!(flags.visible.iter().filter(|v| **v).count(), 3);
    assert_eq!(flags.explored, flags.visible);
    assert!(arena.actors[1].visible);
    assert!(!arena.actors[2].visible);
    assert!(!arena.actors[0].visible);
    // The player looks elsewhere.
    arena.actors[0].fov.visible_tiles = vec![pos(3, 2), pos(2, 2)];
    update_visibility(&mut arena, &map, &mut flags);
    assert!(!flags.is_visible(&map, 0, 0));
    assert!(flags.is_explored(&map, 0, 0) && flags.is_explored(&map, 1, 1));
    assert!(flags.is_visible(&map, 3, 2) && flags.is_explored(&map, 3, 2));
    assert!(!flags.is_explored(&map, 0, 2));
    assert!(!flags.is_explored(&map, 4, 0));
    assert_eq!(flags.explored.iter().filter(|v| **v).count(), 5);
    assert!(!arena.actors[1].visible);
    assert!(arena.actors[2].visible);
}

#[test]
fn nothing_is_shown_anew_without_a_player() {
    let map = open_level(4, 3);
    let mut flags = TileVisibility::new(&map);
    flags.visible[5] = true;
    let mut arena = Arena::new();
    arena.spawn(ActorKind::Monster, pos(1, 0), 6);
    arena.actors[0].visible = true;
    update_visibility(&mut arena, &map, &mut flags);
    assert!(flags.visible[5]);
    assert!(arena.actors[0].visible);
}

#[test]
fn refresh_sight_runs_all_three_stages() {
    let mut map = open_level(7, 1);
    map.tiles[4] = false;
    let mut flags = TileVisibility::new(&map);
    let mut arena = Arena::new();
    arena.spawn(ActorKind::Player, pos(1, 0), 8);
    arena.spawn(ActorKind::Monster, pos(3, 0), 6);
    arena.spawn(ActorKind::Monster, pos(6, 0), 6);
    let spotted = refresh_sight(&mut arena, &map, &mut flags);
    assert_eq!(spotted, vec![1]);
    assert!(arena.actors.iter().all(|a| !a.fov.is_dirty));
    assert!(arena.actors[1].visible && arena.actors[1].detected.is_detected);
    assert!(!arena.actors[2].visible && !arena.actors[2].detected.is_detected);
    assert_eq!(flags.visible, vec![true, true, true, true, true, false, false]);
    assert_eq!(flags.explored, flags.visible);
    assert!(refresh_sight(&mut arena, &map, &mut flags).is_empty());
}

#[test]
fn log_keeps_the_last_hundred_messages() {
    let mut log = GameLog::default();
    assert!(log.messages.is_empty());
    for i in 0..100 {
        log.add_message(format!("message {i}"));
    }
    assert_eq!(log.messages.len(), 100);
    assert_eq!(log.messages[0], "message 0");
    log.add_message("one more".to_string());
    assert_eq!(log.messages.len(), 100);
    assert_eq!(log.messages[0], "message 1");
    assert_eq!(log.messages[99], "one more");
    // A log that was filled beyond its capacity loses one message per call.
    let mut long = GameLog { messages: vec![String::new(); 150] };
    long.add_message("x".to_string());
    assert_eq!(long.messages.len(), 150);
    assert_eq!(long.messages[149], "x");
}
