//! The player: where it appears and how a move requested by input is
//! resolved.

use crate::arena::{blockers_apart, can_enter, lemma_same_ids_keep_wf, newly_spawned, player_index,
    Arena};
use crate::components::{Actor, ActorKind};
use crate::grid::{step, step_from, Direction, GridPosition};
use crate::map_builder::MapBuilder;
use crate::systems::monster::lemma_step_keeps_blockers_apart;
use vstd::prelude::*;

verus! {

/// Sight range that the player is spawned with.
pub const PLAYER_SIGHT: u32 = 8;

/// Where the player appears: at the centre of the first room, or at the
/// centre of the grid when the level has no room.
pub open spec fn spawn_point(map: &MapBuilder) -> GridPosition {
    if map.rooms@.len() > 0 {
        map.rooms@[0].middle()
    } else {
        GridPosition { x: map.width / 2, y: map.height / 2 }
    }
}

/// The cell that the actor `p` reaches by a move in direction `direction`:
/// the neighbouring cell, provided that it is free to enter.
pub open spec fn destination(
    actors: Seq<Actor>,
    map: &MapBuilder,
    p: int,
    direction: Direction,
) -> Option<GridPosition> {
    match step_from(actors[p].position, direction) {
        Some(cell) => if can_enter(actors, map, p, cell) {
            Some(cell)
        } else {
            None
        },
        None => None,
    }
}

/// Where the player appears.
pub fn player_spawn_point(map: &MapBuilder) -> (point: GridPosition)
    ensures
        point == spawn_point(map),
{
    if map.rooms.len() > 0 {
        map.rooms[0].center()
    } else {
        GridPosition { x: map.width / 2, y: map.height / 2 }
    }
}

/// Whether `after` is what the spawning of the player makes of the arena
/// `before`, and `id` what it returns. An arena without a player gets one at
/// the spawn point of the level, under the next id, as its last actor. An
/// arena with a player, or without an id to give, stays as it is.
pub open spec fn player_spawned(before: &Arena, map: &MapBuilder, after: &Arena, id: Option<u64>) -> bool {
    if player_index(before.actors@).is_none() && before.next_id < u64::MAX {
        &&& id == Some(before.next_id)
        &&& after.next_id == before.next_id + 1
        &&& after.actors@.len() == before.actors@.len() + 1
        &&& after.actors@.drop_last() == before.actors@
        &&& newly_spawned(
            after.actors@.last(),
            before.next_id,
            ActorKind::Player,
            spawn_point(map),
            PLAYER_SIGHT,
        )
    } else {
        id.is_none() && after.actors@ == before.actors@ && after.next_id == before.next_id
    }
}

/// Spawns the player unless the arena has one, and returns its id. The
/// player appears at the spawn point of the level.
pub fn spawn_player(arena: &mut Arena, map: &MapBuilder) -> (id: Option<u64>)
    ensures
        player_spawned(old(arena), map, final(arena), id),
        old(arena).wf() ==> final(arena).wf(),
{
    match arena.find_kind(ActorKind::Player) {
        Some(_) => None,
        None => {
            let point = player_spawn_point(map);
            arena.spawn(ActorKind::Player, point, PLAYER_SIGHT)
        },
    }
}

/// The actors after the move that input asks of the player has been
/// resolved: the player stands on the destination of the move, if the move
/// has one, and is marked as moved. Without a player or without a request
/// nothing changes.
pub open spec fn player_moved(actors: Seq<Actor>, map: &MapBuilder, direction: Option<Direction>) -> Seq<
    Actor,
> {
    match (player_index(actors), direction) {
        (Some(p), Some(d)) => match destination(actors, map, p, d) {
            Some(cell) => actors.update(p, Actor { position: cell, moved: true, ..actors[p] }),
            None => actors,
        },
        _ => actors,
    }
}

/// Resolves the move that input asks of the player. The player moves one
/// cell in the given direction if that cell is floor and no other actor
/// blocks it; a move off the grid, into a wall or into a blocked cell leaves
/// the player where it is. Returns whether the player has moved.
pub fn player_movement(arena: &mut Arena, map: &MapBuilder, direction: Option<Direction>) -> (moved: bool)
    ensures
        final(arena).next_id == old(arena).next_id,
        final(arena).actors@ == player_moved(old(arena).actors@, map, direction),
        moved == (player_index(old(arena).actors@).is_some() && direction.is_some() && destination(
            old(arena).actors@,
            map,
            player_index(old(arena).actors@).unwrap(),
            direction.unwrap(),
        ).is_some()),
        old(arena).wf() ==> final(arena).wf(),
        blockers_apart(old(arena).actors@) ==> blockers_apart(final(arena).actors@),
{
    let player = match arena.find_kind(ActorKind::Player) {
        Some(p) => p,
        None => {
            return false;
        },
    };
    let heading = match direction {
        Some(d) => d,
        None => {
            return false;
        },
    };
    let cell = match step(arena.actors[player].position, heading) {
        Some(c) => c,
        None => {
            return false;
        },
    };
    if !arena.may_enter(map, player, cell) {
        return false;
    }
    arena.actors[player].position = cell;
    arena.actors[player].moved = true;
    proof {
        let before = old(arena).actors@;
        assert(arena.actors@ =~= player_moved(before, map, direction));
        if blockers_apart(before) {
            lemma_step_keeps_blockers_apart(before, arena.actors@, player as int, cell);
        }
        if old(arena).wf() {
            lemma_same_ids_keep_wf(old(arena), arena);
        }
    }
    true
}

} // verus!
