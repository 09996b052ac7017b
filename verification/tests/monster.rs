use anarchy2090::arena::Arena;
use anarchy2090::components::{ActorKind, PlayerDetected, TickTimer, Timer, WantsToMelee};
use anarchy2090::grid::{Direction, GridPosition};
use anarchy2090::map_builder::{MapBuilder, Rect};
use anarchy2090::pathing::{find_route, manhattan, same_cell, successors, walkable_cells};
use anarchy2090::systems::monster::{
    decide_monster_move, heading_for, monster_act, monster_ai, monster_turn, spawn_monsters,
    MonsterMove, MAX_MONSTERS, MIN_MONSTERS, MONSTER_SIGHT,
};

fn pos(x: u32, y: u32) -> GridPosition {
    GridPosition { x, y }
}

fn open_level(width: u32, height: u32) -> MapBuilder {
    MapBuilder { width, height, rooms: Vec::new(), tiles: vec![true; (width * height) as usize] }
}

fn released() -> TickTimer {
    TickTimer { timer: Timer { duration: 10, elapsed: 0, times_finished_this_tick: 1 }, count: 1 }
}

fn waiting() -> TickTimer {
    TickTimer { timer: Timer { duration: 10, elapsed: 5, times_finished_this_tick: 0 }, count: 1 }
}

/// A monster at `monster` that has the player in sight, and the player at
/// `player`: actors 0 and 1.
fn chase(monster: GridPosition, player: GridPosition) -> Arena {
    let mut arena = Arena::new();
    arena.spawn(ActorKind::Monster, monster, MONSTER_SIGHT);
    arena.spawn(ActorKind::Player, player, 8);
    arena.actors[0].detected = PlayerDetected { is_detected: true, was_detected_last_frame: true };
    arena
}

#[test]
fn route_over_open_ground_is_straight() {
    let arena = chase(pos(0, 0), pos(3, 0));
    let map = open_level(6, 4);
    let route = find_route(&arena, &map, 0, pos(3, 0));
    assert_eq!(route, Some(vec![pos(0, 0), pos(1, 0), pos(2, 0), pos(3, 0)]));
    assert_eq!(route.map(|r| r.len()), Some(4));
}

#[test]
fn monster_steps_along_the_route() {
    let mut arena = chase(pos(0, 0), pos(3, 0));
    let map = open_level(6, 4);
    for _ in 0..20 {
        arena.actors[0].position = pos(0, 0);
        arena.actors[0].moved = false;
        monster_turn(&mut arena, &map, &released());
        assert_eq!(arena.actors[0].position, pos(1, 0));
        assert!(arena.actors[0].moved);
        assert!(arena.actors[0].wants_to_melee.is_none());
        assert_eq!(arena.actors[1].position, pos(3, 0));
    }
}

#[test]
fn route_leads_around_a_wall() {
    let arena = chase(pos(0, 1), pos(4, 1));
    let mut map = open_level(5, 3);
    for y in 0..2 {
        map.tiles[y * 5 + 2] = false;
    }
    let route = find_route(&arena, &map, 0, pos(4, 1)).expect("a way over the top");
    assert_eq!(route.first(), Some(&pos(0, 1)));
    assert_eq!(route.last(), Some(&pos(4, 1)));
    assert!(route.contains(&pos(2, 2)));
    for pair in route.windows(2) {
        let dx = pair[0].x.abs_diff(pair[1].x);
        let dy = pair[0].y.abs_diff(pair[1].y);
        assert!(dx <= 1 && dy <= 1 && dx + dy > 0);
        assert!(map.is_floor(pair[1].x, pair[1].y));
    }
}

#[test]
fn no_route_through_a_closed_wall() {
    let arena = chase(pos(0, 1), pos(4, 1));
    let mut map = open_level(5, 3);
    for y in 0..3 {
        map.tiles[y * 5 + 2] = false;
    }
    assert_eq!(find_route(&arena, &map, 0, pos(4, 1)), None);
}

#[test]
fn route_to_the_own_cell_is_that_cell() {
    let arena = chase(pos(2, 2), pos(4, 1));
    let map = open_level(5, 5);
    assert_eq!(find_route(&arena, &map, 0, pos(2, 2)), Some(vec![pos(2, 2)]));
}

#[test]
fn other_actors_block_the_route_but_the_goal_does_not() {
    let mut arena = chase(pos(0, 0), pos(2, 0));
    arena.spawn(ActorKind::Monster, pos(1, 0), MONSTER_SIGHT);
    let map = open_level(3, 1);
    assert_eq!(find_route(&arena, &map, 0, pos(2, 0)), None);
    arena.actors[2].blocks_movement = false;
    assert_eq!(find_route(&arena, &map, 0, pos(2, 0)), Some(vec![pos(0, 0), pos(1, 0), pos(2, 0)]));
}

#[test]
fn walkable_cells_leave_out_walls_and_other_actors() {
    let mut arena = chase(pos(0, 0), pos(2, 1));
    arena.spawn(ActorKind::Monster, pos(9, 9), MONSTER_SIGHT);
    let mut map = open_level(3, 2);
    map.tiles[1] = false;
    assert_eq!(walkable_cells(&arena, &map, 0), vec![true, false, true, true, true, false]);
    assert_eq!(walkable_cells(&arena, &map, 1), vec![false, false, true, true, true, true]);
    arena.actors[1].blocks_movement = false;
    assert_eq!(walkable_cells(&arena, &map, 0), vec![true, false, true, true, true, true]);
}

#[test]
fn successors_come_column_by_column() {
    let cells = vec![true; 9];
    let all = successors(&cells, 3, 3, pos(1, 1), pos(0, 0));
    let expected: Vec<(GridPosition, u64)> = [
        (0, 0), (0, 1), (0, 2), (1, 0), (1, 2), (2, 0), (2, 1), (2, 2),
    ]
    .iter()
    .map(|&(x, y)| (pos(x, y), 1))
    .collect();
    assert_eq!(all, expected);
    let corner = successors(&cells, 3, 3, pos(0, 0), pos(2, 2));
    assert_eq!(corner, vec![(pos(0, 1), 1), (pos(1, 0), 1), (pos(1, 1), 1)]);
}

#[test]
fn successors_skip_closed_cells_but_keep_the_goal() {
    let mut cells = vec![true; 9];
    cells[0] = false;
    cells[1] = false;
    let next = successors(&cells, 3, 3, pos(1, 1), pos(1, 0));
    assert!(!next.contains(&(pos(0, 0), 1)));
    assert!(next.contains(&(pos(1, 0), 1)));
    assert_eq!(next.len(), 7);
    assert!(successors(&cells, 3, 3, pos(7, 7), pos(1, 0)).is_empty());
}

#[test]
fn manhattan_adds_the_axis_distances() {
    assert_eq!(manhattan(pos(0, 0), pos(3, 0)), 3);
    assert_eq!(manhattan(pos(5, 1), pos(2, 7)), 9);
    assert_eq!(manhattan(pos(4, 4), pos(4, 4)), 0);
    assert_eq!(manhattan(pos(0, u32::MAX), pos(u32::MAX, 0)), 2 * (u32::MAX as u64));
    assert!(same_cell(pos(1, 2), pos(1, 2)));
    assert!(!same_cell(pos(1, 2), pos(2, 1)));
}

#[test]
fn monster_next_to_the_player_strikes_and_stays() {
    for player in [pos(3, 3), pos(2, 3), pos(1, 1), pos(3, 2)] {
        let mut arena = chase(pos(2, 2), player);
        let map = open_level(6, 6);
        monster_turn(&mut arena, &map, &released());
        assert_eq!(arena.actors[0].wants_to_melee, Some(WantsToMelee { target: 1 }));
        assert_eq!(arena.actors[0].position, pos(2, 2));
        assert!(!arena.actors[0].moved);
        assert!(arena.actors[1].wants_to_melee.is_none());
    }
}

#[test]
fn nothing_happens_between_turns() {
    let mut arena = chase(pos(0, 0), pos(1, 0));
    let map = open_level(6, 4);
    for _ in 0..20 {
        monster_turn(&mut arena, &map, &waiting());
    }
    assert_eq!(arena.actors[0].position, pos(0, 0));
    assert!(arena.actors[0].wants_to_melee.is_none());
}

#[test]
fn nothing_happens_without_a_player() {
    let mut arena = Arena::new();
    arena.spawn(ActorKind::Monster, pos(2, 2), MONSTER_SIGHT);
    arena.actors[0].detected.is_detected = true;
    let map = open_level(6, 6);
    for _ in 0..50 {
        monster_turn(&mut arena, &map, &released());
    }
    assert_eq!(arena.actors[0].position, pos(2, 2));
    assert!(!arena.actors[0].moved);
}

#[test]
fn unaware_monster_wanders_one_orthogonal_step_at_a_time() {
    let mut arena = Arena::new();
    arena.spawn(ActorKind::Monster, pos(5, 5), MONSTER_SIGHT);
    arena.spawn(ActorKind::Player, pos(0, 0), 8);
    let mut map = open_level(11, 11);
    map.tiles[5 * 11 + 6] = false;
    let mut moves = 0;
    for _ in 0..400 {
        let before = arena.actors[0].position;
        monster_turn(&mut arena, &map, &released());
        let after = arena.actors[0].position;
        let dx = before.x.abs_diff(after.x);
        let dy = before.y.abs_diff(after.y);
        assert!(dx + dy <= 1);
        assert!(map.is_floor(after.x, after.y));
        assert!(after != pos(0, 0));
        if dx + dy == 1 {
            moves += 1;
        }
        assert!(arena.actors[0].wants_to_melee.is_none());
    }
    // One turn in four on average.
    assert!(moves > 20 && moves < 250, "{moves} moves");
}

#[test]
fn boxed_in_monster_never_moves() {
    let mut arena = Arena::new();
    arena.spawn(ActorKind::Monster, pos(1, 1), MONSTER_SIGHT);
    arena.spawn(ActorKind::Player, pos(1, 2), 8);
    let mut map = open_level(3, 3);
    map.tiles[1] = false;
    map.tiles[1 * 3 + 2] = false;
    map.tiles[1 * 3] = false;
    for _ in 0..200 {
        monster_turn(&mut arena, &map, &released());
        assert_eq!(arena.actors[0].position, pos(1, 1));
    }
}

#[test]
fn monster_that_finds_no_route_falls_back_to_wandering() {
    let mut arena = chase(pos(0, 1), pos(4, 1));
    let mut map = open_level(5, 3);
    for y in 0..3 {
        map.tiles[y * 5 + 2] = false;
    }
    let mut moves = 0;
    for _ in 0..400 {
        let before = arena.actors[0].position;
        monster_turn(&mut arena, &map, &released());
        let after = arena.actors[0].position;
        assert!(after.x < 2);
        if before != after {
            moves += 1;
        }
    }
    assert!(moves > 0);
}

#[test]
fn decision_follows_the_order_strike_chase_wander() {
    let map = open_level(6, 6);
    let near = chase(pos(2, 2), pos(3, 3));
    let route = Some(vec![pos(2, 2), pos(2, 3)]);
    assert_eq!(
        decide_monster_move(&near, &map, 0, 1, &route, true, Direction::North),
        MonsterMove::Strike
    );
    let far = chase(pos(2, 2), pos(5, 5));
    assert_eq!(
        decide_monster_move(&far, &map, 0, 1, &route, true, Direction::South),
        MonsterMove::StepTo(pos(2, 3))
    );
    assert_eq!(
        decide_monster_move(&far, &map, 0, 1, &None, true, Direction::South),
        MonsterMove::StepTo(pos(2, 1))
    );
    assert_eq!(
        decide_monster_move(&far, &map, 0, 1, &None, false, Direction::South),
        MonsterMove::Stay
    );
    assert_eq!(
        decide_monster_move(&far, &map, 0, 1, &Some(vec![pos(2, 2)]), false, Direction::South),
        MonsterMove::Stay
    );
    // A route whose next cell is not next to the monster is not followed.
    assert_eq!(
        decide_monster_move(&far, &map, 0, 1, &Some(vec![pos(2, 2), pos(4, 4)]), false, Direction::South),
        MonsterMove::Stay
    );
    let mut unaware = chase(pos(2, 2), pos(3, 3));
    unaware.actors[0].detected.is_detected = false;
    assert_eq!(
        decide_monster_move(&unaware, &map, 0, 1, &route, true, Direction::East),
        MonsterMove::StepTo(pos(3, 2))
    );
    // The player's cell is blocked.
    unaware.actors[1].position = pos(3, 2);
    assert_eq!(
        decide_monster_move(&unaware, &map, 0, 1, &route, true, Direction::East),
        MonsterMove::Stay
    );
}

#[test]
fn wander_stops_at_the_edge_of_the_grid() {
    let map = open_level(3, 3);
    let mut arena = chase(pos(0, 0), pos(2, 2));
    arena.actors[0].detected.is_detected = false;
    for heading in [Direction::South, Direction::West, Direction::SouthWest] {
        assert_eq!(decide_monster_move(&arena, &map, 0, 1, &None, true, heading), MonsterMove::Stay);
    }
    arena.actors[0].position = pos(2, 0);
    assert_eq!(
        decide_monster_move(&arena, &map, 0, 1, &None, true, Direction::East),
        MonsterMove::Stay
    );
    assert_eq!(
        decide_monster_move(&arena, &map, 0, 1, &None, true, Direction::North),
        MonsterMove::StepTo(pos(2, 1))
    );
}

#[test]
fn monster_act_carries_the_decision_out() {
    let map = open_level(6, 6);
    let mut arena = chase(pos(2, 2), pos(5, 5));
    let choice = monster_act(
        &mut arena,
        &map,
        0,
        1,
        Some(vec![pos(2, 2), pos(3, 3), pos(4, 4)]),
        false,
        Direction::North,
    );
    assert_eq!(choice, MonsterMove::StepTo(pos(3, 3)));
    assert_eq!(arena.actors[0].position, pos(3, 3));
    assert!(arena.actors[0].moved);
    arena.actors[0].position = pos(4, 4);
    let choice = monster_act(&mut arena, &map, 0, 1, None, false, Direction::North);
    assert_eq!(choice, MonsterMove::Strike);
    assert_eq!(arena.actors[0].wants_to_melee, Some(WantsToMelee { target: 1 }));
    assert_eq!(arena.actors[0].position, pos(4, 4));
}

#[test]
fn headings_for_the_four_draws() {
    assert_eq!(heading_for(0), Direction::North);
    assert_eq!(heading_for(1), Direction::South);
    assert_eq!(heading_for(2), Direction::West);
    assert_eq!(heading_for(3), Direction::East);
    assert_eq!(heading_for(9), Direction::East);
}

#[test]
fn detection_is_reported_once_when_it_starts() {
    let mut arena = Arena::new();
    arena.spawn(ActorKind::Monster, pos(0, 0), MONSTER_SIGHT);
    arena.spawn(ActorKind::Player, pos(3, 0), 8);
    arena.spawn(ActorKind::Monster, pos(9, 9), MONSTER_SIGHT);
    arena.actors[0].fov.visible_tiles = vec![pos(0, 0), pos(3, 0)];
    arena.actors[2].fov.visible_tiles = vec![pos(9, 9)];
    assert_eq!(monster_ai(&mut arena), vec![0]);
    assert_eq!(
        arena.actors[0].detected,
        PlayerDetected { is_detected: true, was_detected_last_frame: false }
    );
    assert!(arena.actors[0].detected.just_detected());
    assert_eq!(arena.actors[2].detected, PlayerDetected::default());
    assert_eq!(arena.actors[1].detected, PlayerDetected::default());
    // Sustained sight is not reported again.
    assert!(monster_ai(&mut arena).is_empty());
    assert_eq!(
        arena.actors[0].detected,
        PlayerDetected { is_detected: true, was_detected_last_frame: true }
    );
    // The player steps out of sight and back in.
    arena.actors[1].position = pos(4, 0);
    assert!(monster_ai(&mut arena).is_empty());
    assert_eq!(
        arena.actors[0].detected,
        PlayerDetected { is_detected: false, was_detected_last_frame: true }
    );
    arena.actors[1].position = pos(3, 0);
    assert_eq!(monster_ai(&mut arena), vec![0]);
}

#[test]
fn threat_decision_needs_a_player() {
    let mut arena = Arena::new();
    arena.spawn(ActorKind::Monster, pos(0, 0), MONSTER_SIGHT);
    arena.actors[0].fov.visible_tiles = vec![pos(0, 0)];
    arena.actors[0].detected.is_detected = true;
    assert!(monster_ai(&mut arena).is_empty());
    assert_eq!(
        arena.actors[0].detected,
        PlayerDetected { is_detected: true, was_detected_last_frame: false }
    );
}

fn level_with_rooms() -> MapBuilder {
    let mut map = MapBuilder::new(40, 30);
    assert!(map.place_room(1, 1, 6, 6, true));
    assert!(map.place_room(10, 10, 7, 8, true));
    assert!(map.place_room(25, 3, 9, 6, false));
    map
}

#[test]
fn monsters_appear_inside_rooms_other_than_the_first() {
    for _ in 0..30 {
        let map = level_with_rooms();
        let mut arena = Arena::new();
        arena.spawn(ActorKind::Player, pos(4, 4), 8);
        let spawned = spawn_monsters(&mut arena, &map);
        assert!((MIN_MONSTERS..=MAX_MONSTERS).contains(&spawned));
        assert_eq!(arena.actors.len() as u64, 1 + spawned);
        assert_eq!(arena.next_id, 1 + spawned);
        for (i, monster) in arena.actors.iter().enumerate().skip(1) {
            assert_eq!(monster.id, i as u64);
            assert_eq!(monster.kind, ActorKind::Monster);
            assert_eq!(monster.fov.range, MONSTER_SIGHT);
            assert!(monster.fov.is_dirty);
            assert!(monster.blocks_movement);
            assert_eq!(monster.stats.current_health, 10);
            let p = monster.position;
            let inside = |r: &Rect| r.x1 < p.x && p.x < r.x2 && r.y1 < p.y && p.y < r.y2;
            assert!(map.rooms.iter().skip(1).any(inside));
            assert!(!inside(&map.rooms[0]));
            assert!(map.is_floor(p.x, p.y));
        }
        // With monsters around, nothing more is spawned.
        assert_eq!(spawn_monsters(&mut arena, &map), 0);
        assert_eq!(arena.actors.len() as u64, 1 + spawned);
    }
}

#[test]
fn no_monsters_without_a_second_room() {
    let mut map = MapBuilder::new(40, 30);
    let mut arena = Arena::new();
    assert_eq!(spawn_monsters(&mut arena, &map), 0);
    assert!(map.place_room(1, 1, 6, 6, true));
    assert_eq!(spawn_monsters(&mut arena, &map), 0);
    assert!(arena.actors.is_empty());
    assert_eq!(arena.next_id, 0);
}

#[test]
fn monsters_stop_when_the_ids_run_out() {
    let map = level_with_rooms();
    let mut arena = Arena::new();
    arena.next_id = u64::MAX - 2;
    assert_eq!(spawn_monsters(&mut arena, &map), 2);
    assert_eq!(arena.next_id, u64::MAX);
    assert_eq!(arena.actors.len(), 2);
}
