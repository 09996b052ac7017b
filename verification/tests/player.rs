use anarchy2090::arena::Arena;
use anarchy2090::components::{ActorKind, PlayerDetected, Stats};
use anarchy2090::grid::{is_adjacent, step, Direction, GridPosition};
use anarchy2090::map_builder::MapBuilder;
use anarchy2090::systems::player::{player_movement, player_spawn_point, spawn_player, PLAYER_SIGHT};

fn pos(x: u32, y: u32) -> GridPosition {
    GridPosition { x, y }
}

fn open_level(width: u32, height: u32) -> MapBuilder {
    MapBuilder { width, height, rooms: Vec::new(), tiles: vec![true; (width * height) as usize] }
}

const ALL: [(Direction, i64, i64); 8] = [
    (Direction::North, 0, 1),
    (Direction::NorthEast, 1, 1),
    (Direction::East, 1, 0),
    (Direction::SouthEast, 1, -1),
    (Direction::South, 0, -1),
    (Direction::SouthWest, -1, -1),
    (Direction::West, -1, 0),
    (Direction::NorthWest, -1, 1),
];

#[test]
fn eight_directions() {
    for (direction, dx, dy) in ALL {
        assert_eq!(direction.delta_x() as i64, dx);
        assert_eq!(direction.delta_y() as i64, dy);
        assert_eq!(step(pos(5, 5), direction), Some(pos((5 + dx) as u32, (5 + dy) as u32)));
    }
    assert_eq!(step(pos(0, 5), Direction::West), None);
    assert_eq!(step(pos(5, 0), Direction::SouthEast), None);
    assert_eq!(step(pos(u32::MAX, 5), Direction::East), None);
    assert_eq!(step(pos(5, u32::MAX), Direction::North), None);
    assert_eq!(step(pos(u32::MAX - 1, 1), Direction::NorthEast), Some(pos(u32::MAX, 2)));
}

#[test]
fn adjacent_means_one_of_the_eight_neighbours() {
    for (direction, _, _) in ALL {
        let next = step(pos(5, 5), direction).unwrap();
        assert!(is_adjacent(pos(5, 5), next));
        assert!(is_adjacent(next, pos(5, 5)));
    }
    assert!(!is_adjacent(pos(5, 5), pos(5, 5)));
    assert!(!is_adjacent(pos(5, 5), pos(7, 5)));
    assert!(!is_adjacent(pos(5, 5), pos(6, 7)));
    assert!(!is_adjacent(pos(0, 0), pos(u32::MAX, 0)));
}

#[test]
fn player_appears_at_the_centre_of_the_first_room() {
    let mut map = MapBuilder::new(40, 30);
    assert!(map.place_room(3, 5, 8, 6, true));
    assert!(map.place_room(20, 15, 8, 6, true));
    assert_eq!(player_spawn_point(&map), pos(7, 8));
    let mut arena = Arena::new();
    assert_eq!(spawn_player(&mut arena, &map), Some(0));
    let player = &arena.actors[0];
    assert_eq!(player.id, 0);
    assert_eq!(player.kind, ActorKind::Player);
    assert_eq!(player.position, pos(7, 8));
    assert!(player.blocks_movement);
    assert!(!player.moved);
    assert!(!player.visible);
    assert_eq!(player.fov.range, PLAYER_SIGHT);
    assert!(player.fov.is_dirty);
    assert!(player.fov.visible_tiles.is_empty());
    assert_eq!(player.stats, Stats::default());
    assert_eq!(player.detected, PlayerDetected::default());
    assert!(player.wants_to_melee.is_none());
    assert!(player.suffer_damage.is_none());
    assert_eq!(arena.next_id, 1);
}

#[test]
fn player_appears_at_the_centre_of_a_level_without_rooms() {
    let map = MapBuilder::new(80, 50);
    assert_eq!(player_spawn_point(&map), pos(40, 25));
    let mut arena = Arena::new();
    assert_eq!(spawn_player(&mut arena, &map), Some(0));
    assert_eq!(arena.actors[0].position, pos(40, 25));
}

#[test]
fn a_second_player_is_not_spawned() {
    let map = MapBuilder::new(80, 50);
    let mut arena = Arena::new();
    arena.spawn(ActorKind::Monster, pos(1, 1), 6);
    assert_eq!(spawn_player(&mut arena, &map), Some(1));
    assert_eq!(spawn_player(&mut arena, &map), None);
    assert_eq!(arena.actors.len(), 2);
    assert_eq!(arena.next_id, 2);
}

#[test]
fn default_stats() {
    let s = Stats::default();
    assert_eq!((s.muscle, s.brains, s.skill, s.cool, s.fitness), (1, 1, 1, 1, 1));
    assert_eq!((s.attack, s.defense), (2, 0));
    assert_eq!((s.health, s.current_health), (10, 10));
    assert_eq!((s.stamina, s.current_stamina), (10, 10));
    assert_eq!((s.load, s.current_load), (10, 10));
}

#[test]
fn player_moves_in_each_direction() {
    let map = open_level(9, 9);
    for (direction, dx, dy) in ALL {
        let mut arena = Arena::new();
        arena.spawn(ActorKind::Player, pos(4, 4), 8);
        assert!(player_movement(&mut arena, &map, Some(direction)));
        assert_eq!(arena.actors[0].position, pos((4 + dx) as u32, (4 + dy) as u32));
        assert!(arena.actors[0].moved);
    }
}

#[test]
fn player_without_a_request_stays() {
    let map = open_level(9, 9);
    let mut arena = Arena::new();
    arena.spawn(ActorKind::Player, pos(4, 4), 8);
    assert!(!player_movement(&mut arena, &map, None));
    assert_eq!(arena.actors[0].position, pos(4, 4));
    assert!(!arena.actors[0].moved);
}

#[test]
fn player_stays_on_the_grid() {
    let map = open_level(3, 3);
    let mut arena = Arena::new();
    arena.spawn(ActorKind::Player, pos(0, 0), 8);
    assert!(!player_movement(&mut arena, &map, Some(Direction::West)));
    assert!(!player_movement(&mut arena, &map, Some(Direction::South)));
    assert!(!player_movement(&mut arena, &map, Some(Direction::SouthWest)));
    assert_eq!(arena.actors[0].position, pos(0, 0));
    arena.actors[0].position = pos(2, 2);
    assert!(!player_movement(&mut arena, &map, Some(Direction::East)));
    assert!(!player_movement(&mut arena, &map, Some(Direction::North)));
    assert!(!player_movement(&mut arena, &map, Some(Direction::NorthEast)));
    assert_eq!(arena.actors[0].position, pos(2, 2));
    assert!(!arena.actors[0].moved);
}

#[test]
fn player_is_stopped_by_walls_and_by_other_actors() {
    let mut map = open_level(5, 5);
    map.tiles[2 * 5 + 3] = false;
    let mut arena = Arena::new();
    arena.spawn(ActorKind::Monster, pos(2, 3), 6);
    arena.spawn(ActorKind::Player, pos(2, 2), 8);
    assert!(!player_movement(&mut arena, &map, Some(Direction::East)));
    assert!(!player_movement(&mut arena, &map, Some(Direction::North)));
    assert_eq!(arena.actors[1].position, pos(2, 2));
    // An actor that does not block lets the player pass.
    arena.actors[0].blocks_movement = false;
    assert!(player_movement(&mut arena, &map, Some(Direction::North)));
    assert_eq!(arena.actors[1].position, pos(2, 3));
    assert_eq!(arena.actors[0].position, pos(2, 3));
}

#[test]
fn no_player_no_move() {
    let map = open_level(5, 5);
    let mut arena = Arena::new();
    arena.spawn(ActorKind::Monster, pos(2, 3), 6);
    assert!(!player_movement(&mut arena, &map, Some(Direction::East)));
    assert_eq!(arena.actors[0].position, pos(2, 3));
}
