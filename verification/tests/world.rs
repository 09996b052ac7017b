use anarchy2090::arena::Arena;
use anarchy2090::components::{ActorKind, WantsToMelee, TURN_INTERVAL};
use anarchy2090::fov::compute_fov;
use anarchy2090::grid::{Direction, GridPosition};
use anarchy2090::world::World;

fn pos(x: u32, y: u32) -> GridPosition {
    GridPosition { x, y }
}

fn check_frame_end(world: &World) {
    let player = world.arena.actors.iter().find(|a| a.kind == ActorKind::Player);
    for actor in &world.arena.actors {
        assert!(actor.wants_to_melee.is_none());
        assert!(actor.suffer_damage.is_none());
        assert!(!actor.fov.is_dirty);
        assert!(actor.kind != ActorKind::Monster || actor.stats.current_health > 0);
        if let (ActorKind::Monster, Some(p)) = (actor.kind, player) {
            assert_eq!(actor.detected.is_detected, actor.fov.contains(p.position));
            assert_eq!(actor.visible, p.fov.contains(actor.position));
        }
    }
    if let Some(p) = player {
        for y in 0..world.map.height {
            for x in 0..world.map.width {
                let shown = world.flags.is_visible(&world.map, x, y);
                assert_eq!(shown, p.fov.contains(pos(x, y)));
                assert!(!shown || world.flags.is_explored(&world.map, x, y));
            }
        }
    }
    for actor in &world.arena.actors {
        if !actor.moved {
            let mut cached = actor.fov.visible_tiles.clone();
            let mut seen = compute_fov(
                &world.map.tiles,
                world.map.width,
                world.map.height,
                &actor.position,
                actor.fov.range,
            );
            cached.sort_by_key(|p| (p.y, p.x));
            seen.sort_by_key(|p| (p.y, p.x));
            assert_eq!(cached, seen);
        }
    }
    let mut ids: Vec<u64> = world.arena.actors.iter().map(|a| a.id).collect();
    ids.sort();
    ids.dedup();
    assert_eq!(ids.len(), world.arena.actors.len());
    assert!(ids.iter().all(|id| *id < world.arena.next_id));
}

#[test]
fn new_world_has_a_level_and_no_actors() {
    let world = World::new(80, 50);
    assert_eq!((world.map.width, world.map.height), (80, 50));
    assert!(world.arena.actors.is_empty());
    assert_eq!(world.clock.count, 0);
    assert_eq!(world.clock.timer.duration, TURN_INTERVAL);
    assert_eq!(world.flags.visible, vec![false; 4000]);
    assert_eq!(world.flags.explored, vec![false; 4000]);
}

#[test]
fn world_is_usable_while_level_and_flags_match() {
    let mut world = World::new(30, 20);
    assert!(world.is_usable());
    world.advance_frame(1, None);
    assert!(world.is_usable());
    world.flags.visible.pop();
    assert!(!world.is_usable());
    world.flags.visible.push(false);
    world.flags.explored.push(false);
    assert!(!world.is_usable());
    world.flags.explored.pop();
    world.map.tiles.push(true);
    assert!(!world.is_usable());
}

#[test]
fn player_moves_before_the_monsters_take_their_turn() {
    // The monster stands two cells from the player and has it in sight. The
    // player steps next to it in the frame that releases the turn, so the
    // monster strikes in that very frame.
    let mut world = World::new(9, 3);
    world.map.tiles = vec![true; 27];
    world.arena.spawn(ActorKind::Player, pos(1, 1), 8);
    world.arena.spawn(ActorKind::Monster, pos(4, 1), 6);
    world.arena.actors[1].detected.is_detected = true;
    let report = world.advance_frame(TURN_INTERVAL, Some(Direction::East));
    assert!(report.player_moved);
    assert_eq!(world.clock.count, 1);
    assert_eq!(world.arena.actors[0].position, pos(2, 1));
    assert_eq!(world.arena.actors[1].position, pos(3, 1));
    // Next to each other now: the monster strikes on the next turn, and the
    // strike is resolved within that frame.
    let health = world.arena.actors[0].stats.current_health;
    let report = world.advance_frame(TURN_INTERVAL, None);
    assert_eq!(report.combat.strikes.len(), 1);
    assert_eq!(report.combat.strikes[0].attacker, world.arena.actors[1].id);
    assert_eq!(report.combat.strikes[0].target, world.arena.actors[0].id);
    assert_eq!(report.combat.strikes[0].damage, 2);
    assert_eq!(world.arena.actors[0].stats.current_health, health - 2);
    assert_eq!(world.arena.actors[1].position, pos(3, 1));
    check_frame_end(&world);
    // Between turns the monster holds still.
    world.advance_frame(TURN_INTERVAL / 2, None);
    assert_eq!(world.arena.actors[0].stats.current_health, health - 2);
}

#[test]
fn first_frame_spawns_player_and_monsters() {
    let mut world = World::new(80, 50);
    let report = world.advance_frame(16_000_000, None);
    assert_eq!(report.player_spawned, Some(0));
    assert!(!report.player_moved);
    assert!(report.combat.deaths.removed.is_empty());
    let player = &world.arena.actors[0];
    assert_eq!(player.kind, ActorKind::Player);
    assert_eq!(player.position, world.map.rooms[0].center());
    if world.map.rooms.len() > 1 {
        assert!((5..=10).contains(&report.monsters_spawned));
    } else {
        assert_eq!(report.monsters_spawned, 0);
    }
    assert_eq!(world.arena.actors.len() as u64, 1 + report.monsters_spawned);
    assert_eq!(world.clock.count, 0);
    assert_eq!(world.clock.timer.elapsed, 16_000_000);
    assert!(world.flags.is_visible(&world.map, player.position.x, player.position.y));
    check_frame_end(&world);
    let second = world.advance_frame(16_000_000, None);
    assert_eq!(second.player_spawned, None);
    assert_eq!(second.monsters_spawned, 0);
    check_frame_end(&world);
}

#[test]
fn frames_keep_the_world_in_order() {
    let headings = [
        Direction::North,
        Direction::East,
        Direction::South,
        Direction::West,
        Direction::NorthEast,
        Direction::SouthWest,
    ];
    for round in 0..5 {
        let mut world = World::new(60, 40);
        let level = world.map.tiles.clone();
        let mut explored = 0;
        for frame in 0..120u64 {
            let input = if frame % 3 == 0 { Some(headings[(frame as usize / 3 + round) % 6]) } else { None };
            world.advance_frame(TURN_INTERVAL / 2, input);
            check_frame_end(&world);
            assert_eq!(world.map.tiles, level);
            assert_eq!(world.clock.count as u64, (frame + 1) / 2);
            let now = world.flags.explored.iter().filter(|e| **e).count();
            assert!(now >= explored);
            explored = now;
            let player = world.arena.actors.iter().find(|a| a.kind == ActorKind::Player).unwrap();
            assert!(world.map.is_floor(player.position.x, player.position.y));
        }
    }
}

#[test]
fn a_frame_resolves_the_intents_it_finds() {
    let mut world = World::new(80, 50);
    world.advance_frame(1, None);
    if world.arena.actors.len() < 2 {
        return;
    }
    let monster_id = world.arena.actors[1].id;
    world.arena.actors[0].stats.attack = 50;
    world.arena.actors[0].wants_to_melee = Some(WantsToMelee { target: monster_id });
    let report = world.advance_frame(1, None);
    assert_eq!(report.combat.deaths.removed, vec![monster_id]);
    assert!(world.arena.actors.iter().all(|a| a.id != monster_id));
    check_frame_end(&world);
}

#[test]
fn dead_player_stays_and_is_reported_every_frame() {
    let mut world = World::new(80, 50);
    world.advance_frame(1, None);
    world.arena.actors[0].stats.current_health = 0;
    for _ in 0..3 {
        let report = world.advance_frame(1, None);
        assert_eq!(report.combat.deaths.fallen_players, vec![0]);
        assert_eq!(world.arena.actors[0].kind, ActorKind::Player);
    }
}

#[test]
fn arena_gives_each_actor_a_new_id() {
    let mut arena = Arena::new();
    assert_eq!(arena.spawn(ActorKind::Monster, pos(1, 1), 6), Some(0));
    assert_eq!(arena.spawn(ActorKind::Player, pos(2, 2), 8), Some(1));
    assert_eq!(arena.spawn(ActorKind::Monster, pos(1, 1), 6), Some(2));
    assert_eq!(arena.find(1), Some(1));
    assert_eq!(arena.find(5), None);
    assert_eq!(arena.find_kind(ActorKind::Player), Some(1));
    assert_eq!(arena.find_kind(ActorKind::Monster), Some(0));
    arena.actors.remove(0);
    assert_eq!(arena.find(2), Some(1));
    assert_eq!(arena.find(0), None);
    assert_eq!(arena.spawn(ActorKind::Monster, pos(3, 3), 6), Some(3));
    arena.next_id = u64::MAX;
    assert_eq!(arena.spawn(ActorKind::Monster, pos(3, 3), 6), None);
    assert_eq!(arena.actors.len(), 3);
}

#[test]
fn blocking_looks_at_every_other_actor() {
    let mut arena = Arena::new();
    arena.spawn(ActorKind::Monster, pos(1, 1), 6);
    arena.spawn(ActorKind::Player, pos(2, 2), 8);
    assert!(arena.is_blocked(0, pos(2, 2)));
    assert!(!arena.is_blocked(1, pos(2, 2)));
    assert!(arena.is_blocked(1, pos(1, 1)));
    assert!(!arena.is_blocked(0, pos(3, 3)));
    arena.actors[1].blocks_movement = false;
    assert!(!arena.is_blocked(0, pos(2, 2)));
    assert!(arena.is_blocked(7, pos(1, 1)));
}
