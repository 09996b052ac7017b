//! Monsters: where they appear, when they notice the player, and what they
//! do with their turn.

use crate::arena::{blocked_by_other, blockers_apart, can_enter, lemma_same_ids_keep_wf,
    newly_spawned, player_index, Arena};
use crate::components::{Actor, ActorKind, PlayerDetected, TickTimer, WantsToMelee};
use crate::grid::{adjacent, is_adjacent, step, step_from, Direction, GridPosition};
use crate::map_builder::MapBuilder;
use crate::pathing::{astar_route, find_route, route_cells, walkable_field};
use crate::random::{random_range, random_ratio};
use crate::systems::combat::id_of;
use vstd::prelude::*;

verus! {

/// Sight range that a monster is spawned with.
pub const MONSTER_SIGHT: u32 = 6;

/// Fewest monsters that one spawning brings.
pub const MIN_MONSTERS: u64 = 5;

/// Most monsters that one spawning brings.
pub const MAX_MONSTERS: u64 = 10;

/// What a monster does with its turn.
#[derive(Clone, Copy, Debug, PartialEq, Eq, Structural)]
pub enum MonsterMove {
    /// Strike the player, who stands next to it.
    Strike,
    /// Walk to the cell.
    StepTo(GridPosition),
    /// Stay where it is.
    Stay,
}

/// The actor after the threat decision for a player at `player_position`: a
/// monster remembers whether it had the player in sight and notes whether it
/// has now; any other actor is left as it is.
pub open spec fn threat_updated(a: Actor, player_position: GridPosition) -> Actor {
    if a.kind == ActorKind::Monster {
        Actor {
            detected: PlayerDetected {
                is_detected: a.fov.visible().contains(player_position),
                was_detected_last_frame: a.detected.is_detected,
            },
            ..a
        }
    } else {
        a
    }
}

/// The monsters that have just caught sight of the player.
pub open spec fn alerted() -> spec_fn(Actor) -> bool {
    |a: Actor| a.kind == ActorKind::Monster && a.detected.rising()
}

/// The step along a route that a search has found for the monster `m`: its
/// second cell, provided that it is next to the monster and free to enter.
pub open spec fn chase_step(
    actors: Seq<Actor>,
    map: &MapBuilder,
    m: int,
    route: Option<Seq<GridPosition>>,
) -> Option<GridPosition> {
    match route {
        Some(cells) => if cells.len() > 1 && adjacent(actors[m].position, cells[1]) && can_enter(
            actors,
            map,
            m,
            cells[1],
        ) {
            Some(cells[1])
        } else {
            None
        },
        None => None,
    }
}

/// The step that the monster `m` takes at random: if `wander` is set, the
/// cell next to it in the direction `heading`, provided that it is free to
/// enter.
pub open spec fn wander_step(
    actors: Seq<Actor>,
    map: &MapBuilder,
    m: int,
    wander: bool,
    heading: Direction,
) -> Option<GridPosition> {
    if wander {
        match step_from(actors[m].position, heading) {
            Some(cell) => if can_enter(actors, map, m, cell) {
                Some(cell)
            } else {
                None
            },
            None => None,
        }
    } else {
        None
    }
}

/// What the monster `m` does when the player is the actor `p`. A monster
/// that has the player in sight strikes if the player stands next to it and
/// otherwise follows the route, if that offers a step. A monster that has not,
/// or that has no step to follow, wanders.
pub open spec fn monster_choice(
    actors: Seq<Actor>,
    map: &MapBuilder,
    m: int,
    p: int,
    route: Option<Seq<GridPosition>>,
    wander: bool,
    heading: Direction,
) -> MonsterMove {
    let me = actors[m];
    if me.detected.is_detected && adjacent(me.position, actors[p].position) {
        MonsterMove::Strike
    } else if me.detected.is_detected && chase_step(actors, map, m, route).is_some() {
        MonsterMove::StepTo(chase_step(actors, map, m, route).unwrap())
    } else if wander_step(actors, map, m, wander, heading).is_some() {
        MonsterMove::StepTo(wander_step(actors, map, m, wander, heading).unwrap())
    } else {
        MonsterMove::Stay
    }
}

/// The actor after it has carried out `choice` against the player with the
/// id `player_id`.
pub open spec fn after_move(a: Actor, choice: MonsterMove, player_id: u64) -> Actor {
    match choice {
        MonsterMove::Strike => Actor {
            wants_to_melee: Some(WantsToMelee { target: player_id }),
            ..a
        },
        MonsterMove::StepTo(cell) => Actor { position: cell, moved: true, ..a },
        MonsterMove::Stay => a,
    }
}

/// Whether a monster needs a route to the player `p`: it has the player in
/// sight, and the player does not stand next to it.
pub open spec fn gives_chase(actors: Seq<Actor>, m: int, p: int) -> bool {
    actors[m].detected.is_detected && !adjacent(actors[m].position, actors[p].position)
}

/// The route that the search finds for the monster `m` when it gives chase
/// to the player `p`; none when it does not give chase.
pub open spec fn route_sought(actors: Seq<Actor>, map: &MapBuilder, m: int, p: int) -> Option<
    Seq<GridPosition>,
> {
    if gives_chase(actors, m, p) {
        astar_route(
            walkable_field(actors, map, m),
            map.width,
            map.height,
            actors[m].position,
            actors[p].position,
        )
    } else {
        None
    }
}

/// Whether `after` is what the turn of the actor `i` may make of `before`
/// when the player is the actor `p`. An actor that is no monster does
/// nothing. A monster does what `monster_choice` says for the route that the
/// search finds for it, for some draw of whether it would wander and for some
/// draw of a direction up, down, left or right.
pub open spec fn takes_turn(before: Seq<Actor>, map: &MapBuilder, p: int, i: int, after: Seq<Actor>) -> bool {
    if before[i].kind == ActorKind::Monster {
        exists|wander: bool, draw: u64| #[trigger]
            after_draws(before, map, p, i, wander, draw) == after
    } else {
        after == before
    }
}

/// The actors after the turn of the monster `i` with the given draws.
pub open spec fn after_draws(
    before: Seq<Actor>,
    map: &MapBuilder,
    p: int,
    i: int,
    wander: bool,
    draw: u64,
) -> Seq<Actor> {
    before.update(
        i,
        after_move(
            before[i],
            monster_choice(
                before,
                map,
                i,
                p,
                route_sought(before, map, i, p),
                wander,
                heading_of(draw),
            ),
            before[p].id,
        ),
    )
}

/// Whether `after` is what the turns of the first `upto` actors, taken one
/// after the other in arena order, may make of `before`: each actor finds
/// the arena as those before it have left it.
pub open spec fn turns_taken(before: Seq<Actor>, map: &MapBuilder, p: int, upto: int, after: Seq<Actor>) -> bool
    decreases upto,
{
    if upto <= 0 {
        after == before
    } else {
        exists|between: Seq<Actor>|
            turns_taken(before, map, p, upto - 1, between) && #[trigger] takes_turn(
                between,
                map,
                p,
                upto - 1,
                after,
            )
    }
}

/// Whether `after` is what the turn logic may make of the actors `before` on
/// a frame with the clock at `turn_timer`: with a turn released and a player
/// in the arena, what the turns of all actors make of them; otherwise, the
/// same actors.
pub open spec fn monsters_turned(
    before: Seq<Actor>,
    map: &MapBuilder,
    turn_timer: TickTimer,
    after: Seq<Actor>,
) -> bool {
    if turn_timer.timer.times_finished_this_tick > 0 && player_index(before).is_some() {
        turns_taken(before, map, player_index(before).unwrap(), before.len() as int, after)
    } else {
        after == before
    }
}

/// Whether `a` and `b` touch by an edge.
pub open spec fn beside(a: GridPosition, b: GridPosition) -> bool {
    ||| (a.x == b.x && (a.y - b.y == 1 || b.y - a.y == 1))
    ||| (a.y == b.y && (a.x - b.x == 1 || b.x - a.x == 1))
}

/// Whether `now` is what a released turn may make of the actor `i` when the
/// player is the actor `p`. Only monsters act. A monster that has the player
/// in sight and next to it wants to strike the player and stays. Any other
/// monster stays as it is or has moved to a neighbouring floor cell that is
/// not the cell of a blocking player; a monster that has not the player in
/// sight moves up, down, left or right only.
pub open spec fn turn_taken(before: Seq<Actor>, map: &MapBuilder, p: int, i: int, now: Actor) -> bool {
    let was = before[i];
    if was.kind != ActorKind::Monster {
        now == was
    } else if was.detected.is_detected && adjacent(was.position, before[p].position) {
        now == (Actor { wants_to_melee: Some(WantsToMelee { target: before[p].id }), ..was })
    } else {
        ||| now == was
        ||| {
            &&& now == (Actor { position: now.position, moved: true, ..was })
            &&& adjacent(was.position, now.position)
            &&& was.detected.is_detected || beside(was.position, now.position)
            &&& map.floor(now.position.x as int, now.position.y as int)
            &&& !(before[p].blocks_movement && before[p].position == now.position)
        }
    }
}

/// Threat decision. Every monster notes whether the player's cell is among
/// the cells it sees, and remembers what it had noted before. Returns the
/// ids of the monsters that have just caught sight of the player, in arena
/// order. Without a player nothing changes.
pub fn monster_ai(arena: &mut Arena) -> (spotted: Vec<u64>)
    ensures
        final(arena).next_id == old(arena).next_id,
        final(arena).actors@.len() == old(arena).actors@.len(),
        player_index(old(arena).actors@).is_none() ==> final(arena).actors@ == old(arena).actors@
            && spotted@.len() == 0,
        player_index(old(arena).actors@).is_some() ==> {
            &&& forall|i: int|
                0 <= i < old(arena).actors@.len() ==> #[trigger] final(arena).actors@[i] == threat_updated(
                    old(arena).actors@[i],
                    old(arena).actors@[player_index(old(arena).actors@).unwrap()].position,
                )
            &&& spotted@ == final(arena).actors@.filter(alerted()).map_values(id_of())
        },
        old(arena).wf() ==> final(arena).wf(),
{
    let mut spotted: Vec<u64> = Vec::new();
    let player = match arena.find_kind(ActorKind::Player) {
        Some(p) => p,
        None => {
            return spotted;
        },
    };
    let player_position = arena.actors[player].position;
    let count = arena.actors.len();
    let mut i: usize = 0;
    proof {
        reveal(Seq::filter);
        assert(arena.actors@.take(0).filter(alerted()) =~= Seq::<Actor>::empty());
        assert(spotted@ =~= arena.actors@.take(0).filter(alerted()).map_values(id_of()));
    }
    while i < count
        invariant
            i <= count,
            count == old(arena).actors@.len(),
            arena.next_id == old(arena).next_id,
            arena.actors@.len() == count,
            player_index(old(arena).actors@) == Some(player as int),
            player_position == old(arena).actors@[player as int].position,
            forall|t: int|
                0 <= t < i ==> #[trigger] arena.actors@[t] == threat_updated(
                    old(arena).actors@[t],
                    player_position,
                ),
            forall|t: int| i <= t < count ==> #[trigger] arena.actors@[t] == old(arena).actors@[t],
            spotted@ == arena.actors@.take(i as int).filter(alerted()).map_values(id_of()),
        decreases count - i,
    {
        let ghost entering = arena.actors@;
        if arena.actors[i].kind == ActorKind::Monster {
            let can_see = arena.actors[i].fov.contains(player_position);
            let had_seen = arena.actors[i].detected.is_detected;
            arena.actors[i].detected = PlayerDetected {
                is_detected: can_see,
                was_detected_last_frame: had_seen,
            };
            if can_see && !had_seen {
                spotted.push(arena.actors[i].id);
            }
        }
        proof {
            reveal(Seq::filter);
            assert(arena.actors@.take(i as int) =~= entering.take(i as int));
            assert(arena.actors@.take(i as int + 1).drop_last() =~= arena.actors@.take(i as int));
            assert(arena.actors@.take(i as int + 1).last() == arena.actors@[i as int]);
            assert(spotted@ =~= arena.actors@.take(i as int + 1).filter(alerted()).map_values(
                id_of(),
            ));
        }
        i = i + 1;
    }
    proof {
        assert(arena.actors@.take(count as int) =~= arena.actors@);
        if old(arena).wf() {
            lemma_same_ids_keep_wf(old(arena), arena);
        }
    }
    spotted
}

/// The direction of a random step for a number drawn from 0 to 3: up,
/// down, left, right.
pub open spec fn heading_of(n: u64) -> Direction {
    if n == 0 {
        Direction::North
    } else if n == 1 {
        Direction::South
    } else if n == 2 {
        Direction::West
    } else {
        Direction::East
    }
}

/// The direction of a random step for a number drawn from 0 to 3.
pub fn heading_for(n: u64) -> (d: Direction)
    ensures
        d == heading_of(n),
{
    if n == 0 {
        Direction::North
    } else if n == 1 {
        Direction::South
    } else if n == 2 {
        Direction::West
    } else {
        Direction::East
    }
}

/// Decides what the monster `m` does when the player is the actor `p`,
/// given the route that a search has found, whether the monster would
/// wander, and in which direction.
pub fn decide_monster_move(
    arena: &Arena,
    map: &MapBuilder,
    m: usize,
    p: usize,
    route: &Option<Vec<GridPosition>>,
    wander: bool,
    heading: Direction,
) -> (choice: MonsterMove)
    requires
        m < arena.actors@.len(),
        p < arena.actors@.len(),
    ensures
        choice == monster_choice(
            arena.actors@,
            map,
            m as int,
            p as int,
            route_cells(*route),
            wander,
            heading,
        ),
{
    let me = &arena.actors[m];
    let here = me.position;
    if me.detected.is_detected {
        if is_adjacent(here, arena.actors[p].position) {
            return MonsterMove::Strike;
        }
        match route {
            Some(cells) => {
                if cells.len() > 1 {
                    let next = cells[1];
                    if is_adjacent(here, next) && arena.may_enter(map, m, next) {
                        return MonsterMove::StepTo(next);
                    }
                }
            },
            None => {},
        }
    }
    if wander {
        match step(here, heading) {
            Some(cell) => {
                if arena.may_enter(map, m, cell) {
                    return MonsterMove::StepTo(cell);
                }
            },
            None => {},
        }
    }
    MonsterMove::Stay
}

/// Lets the monster `m` take its turn against the player `p`: it decides as
/// `decide_monster_move` does and carries the decision out.
pub fn monster_act(
    arena: &mut Arena,
    map: &MapBuilder,
    m: usize,
    p: usize,
    route: Option<Vec<GridPosition>>,
    wander: bool,
    heading: Direction,
) -> (choice: MonsterMove)
    requires
        m < old(arena).actors@.len(),
        p < old(arena).actors@.len(),
    ensures
        choice == monster_choice(
            old(arena).actors@,
            map,
            m as int,
            p as int,
            route_cells(route),
            wander,
            heading,
        ),
        final(arena).next_id == old(arena).next_id,
        final(arena).actors@.len() == old(arena).actors@.len(),
        forall|u: int|
            0 <= u < old(arena).actors@.len() && u != m ==> #[trigger] final(arena).actors@[u] == old(
                arena,
            ).actors@[u],
        final(arena).actors@[m as int] == after_move(
            old(arena).actors@[m as int],
            choice,
            old(arena).actors@[p as int].id,
        ),
{
    let choice = decide_monster_move(arena, map, m, p, &route, wander, heading);
    let player_id = arena.actors[p].id;
    match choice {
        MonsterMove::Strike => {
            arena.actors[m].wants_to_melee = Some(WantsToMelee { target: player_id });
        },
        MonsterMove::StepTo(cell) => {
            arena.actors[m].position = cell;
            arena.actors[m].moved = true;
        },
        MonsterMove::Stay => {},
    }
    choice
}

/// A step to a cell that no other actor blocks keeps blocking actors in
/// cells of their own.
pub proof fn lemma_step_keeps_blockers_apart(before: Seq<Actor>, after: Seq<Actor>, m: int, cell: GridPosition)
    requires
        0 <= m < before.len(),
        after.len() == before.len(),
        blockers_apart(before),
        !blocked_by_other(before, m, cell),
        forall|u: int| 0 <= u < before.len() && u != m ==> #[trigger] after[u] == before[u],
        after[m].position == cell,
    ensures
        blockers_apart(after),
{
    assert forall|i: int, j: int|
        0 <= i < after.len() && 0 <= j < after.len() && i != j && (#[trigger] after[i]).blocks_movement
            && (#[trigger] after[j]).blocks_movement implies after[i].position != after[j].position by {
        if i == m {
            assert(before[j].blocks_movement);
        } else if j == m {
            assert(before[i].blocks_movement);
        } else {
            assert(before[i].blocks_movement && before[j].blocks_movement);
        }
    }
}

/// Turn logic. On a frame on which the clock has released a turn, and with a
/// player in the arena, every monster acts once, in arena order: it strikes
/// the player if it has the player in sight and next to it; it follows the
/// route that the search finds if it has the player in sight further away;
/// and otherwise, or when the search finds no step, it takes a random step up,
/// down, left or right one time in four. A step is only ever taken to a floor
/// cell that no other actor blocks at that moment. On any other frame nothing
/// changes.
pub fn monster_turn(arena: &mut Arena, map: &MapBuilder, turn_timer: &TickTimer)
    requires
        map.sized(),
    ensures
        final(arena).next_id == old(arena).next_id,
        final(arena).actors@.len() == old(arena).actors@.len(),
        monsters_turned(old(arena).actors@, map, *turn_timer, final(arena).actors@),
        turn_timer.timer.times_finished_this_tick > 0 && player_index(old(arena).actors@).is_some()
            ==> forall|i: int|
            0 <= i < old(arena).actors@.len() ==> turn_taken(
                old(arena).actors@,
                map,
                player_index(old(arena).actors@).unwrap(),
                i,
                #[trigger] final(arena).actors@[i],
            ),
        old(arena).wf() ==> final(arena).wf(),
        blockers_apart(old(arena).actors@) ==> blockers_apart(final(arena).actors@),
{
    if !turn_timer.timer.just_finished() {
        return ;
    }
    let player = match arena.find_kind(ActorKind::Player) {
        Some(p) => p,
        None => {
            return ;
        },
    };
    let ghost before = arena.actors@;
    let count = arena.actors.len();
    let mut i: usize = 0;
    while i < count
        invariant
            i <= count,
            map.sized(),
            player < count,
            count == before.len(),
            before == old(arena).actors@,
            player_index(before) == Some(player as int),
            before[player as int].kind == ActorKind::Player,
            arena.actors@[player as int] == before[player as int],
            arena.next_id == old(arena).next_id,
            arena.actors@.len() == count,
            forall|t: int|
                0 <= t < i ==> turn_taken(before, map, player as int, t, #[trigger] arena.actors@[t]),
            forall|t: int| i <= t < count ==> #[trigger] arena.actors@[t] == before[t],
            blockers_apart(before) ==> blockers_apart(arena.actors@),
            turns_taken(before, map, player as int, i as int, arena.actors@),
        decreases count - i,
    {
        let ghost entering = arena.actors@;
        if arena.actors[i].kind == ActorKind::Monster {
            let chasing = arena.actors[i].detected.is_detected && !is_adjacent(
                arena.actors[i].position,
                arena.actors[player].position,
            );
            let route = if chasing {
                find_route(arena, map, i, arena.actors[player].position)
            } else {
                None
            };
            let wander = random_ratio(1, 4);
            let draw = random_range(0, 4);
            let heading = heading_for(draw);
            let choice = monster_act(arena, map, i, player, route, wander, heading);
            proof {
                assert(route_cells(route) == route_sought(entering, map, i as int, player as int));
                assert(arena.actors@ =~= after_draws(
                    entering,
                    map,
                    player as int,
                    i as int,
                    wander,
                    draw,
                ));
                assert(takes_turn(entering, map, player as int, i as int, arena.actors@));
                let was = before[i as int];
                let now = arena.actors@[i as int];
                match choice {
                    MonsterMove::StepTo(cell) => {
                        assert(can_enter(entering, map, i as int, cell));
                        assert(adjacent(was.position, cell)) by {
                            if !(was.detected.is_detected && chase_step(
                                entering,
                                map,
                                i as int,
                                route_cells(route),
                            ).is_some()) {
                                assert(step_from(was.position, heading) == Some(cell));
                            }
                        }
                        if !was.detected.is_detected {
                            assert(step_from(was.position, heading) == Some(cell));
                        }
                        if before[player as int].blocks_movement && before[player as int].position
                            == cell {
                            assert(entering[player as int].blocks_movement);
                            assert(blocked_by_other(entering, i as int, cell));
                        }
                        if blockers_apart(before) {
                            lemma_step_keeps_blockers_apart(entering, arena.actors@, i as int, cell);
                        }
                    },
                    MonsterMove::Strike => {
                        if blockers_apart(before) {
                            lemma_same_cells_keep_blockers_apart(entering, arena.actors@);
                        }
                    },
                    MonsterMove::Stay => {
                        if blockers_apart(before) {
                            lemma_same_cells_keep_blockers_apart(entering, arena.actors@);
                        }
                    },
                }
                assert(turn_taken(before, map, player as int, i as int, now));
                assert forall|t: int| 0 <= t < i + 1 implies turn_taken(
                    before,
                    map,
                    player as int,
                    t,
                    #[trigger] arena.actors@[t],
                ) by {
                    if t < i {
                        assert(arena.actors@[t] == entering[t]);
                    }
                }
            }
        }
        proof {
            lemma_one_more_turn(before, map, player as int, i as int, entering, arena.actors@);
        }
        i = i + 1;
    }
    proof {
        if old(arena).wf() {
            assert forall|a: int| 0 <= a < count implies (#[trigger] arena.actors@[a]).id
                == before[a].id by {
                assert(turn_taken(before, map, player as int, a, arena.actors@[a]));
            }
            lemma_same_ids_keep_wf(old(arena), arena);
        }
    }
}

/// The turns of the first `upto` actors followed by the turn of the next
/// actor are the turns of the first `upto + 1` actors.
proof fn lemma_one_more_turn(
    before: Seq<Actor>,
    map: &MapBuilder,
    p: int,
    upto: int,
    between: Seq<Actor>,
    after: Seq<Actor>,
)
    requires
        0 <= upto,
        turns_taken(before, map, p, upto, between),
        takes_turn(between, map, p, upto, after),
    ensures
        turns_taken(before, map, p, upto + 1, after),
{
    let next = upto + 1;
    assert(turns_taken(before, map, p, next - 1, between));
    assert(takes_turn(between, map, p, next - 1, after));
}

/// Actors that block and stand where they did keep cells of their own.
pub proof fn lemma_same_cells_keep_blockers_apart(before: Seq<Actor>, after: Seq<Actor>)
    requires
        after.len() == before.len(),
        blockers_apart(before),
        forall|u: int|
            0 <= u < before.len() ==> (#[trigger] after[u]).position == before[u].position
                && after[u].blocks_movement == before[u].blocks_movement,
    ensures
        blockers_apart(after),
{
    assert forall|i: int, j: int|
        0 <= i < after.len() && 0 <= j < after.len() && i != j && (#[trigger] after[i]).blocks_movement
            && (#[trigger] after[j]).blocks_movement implies after[i].position != after[j].position by {
        assert(before[i].blocks_movement && before[j].blocks_movement);
    }
}

/// Whether a room other than the first, which is kept for the player,
/// encloses `cell`.
pub open spec fn in_monster_room(map: &MapBuilder, cell: GridPosition) -> bool {
    exists|r: int|
        1 <= r < map.rooms@.len() && (#[trigger] map.rooms@[r]).encloses(cell.x as int, cell.y as int)
}

/// Whether the arena has a monster.
pub open spec fn has_monster(actors: Seq<Actor>) -> bool {
    exists|i: int| 0 <= i < actors.len() && (#[trigger] actors[i]).kind == ActorKind::Monster
}

/// Whether `after` is what the spawning of monsters may make of the arena
/// `before`, and `spawned` what it returns. An arena with a monster, and any
/// arena on a level without a second room, stays as it is. Otherwise
/// `spawned` monsters join the arena as its last actors, under the next ids
/// in turn, each inside a room other than the first. Their number is between
/// `MIN_MONSTERS` and `MAX_MONSTERS`, or less where the ids run out.
pub open spec fn monsters_spawned(before: &Arena, map: &MapBuilder, after: &Arena, spawned: u64) -> bool {
    &&& after.next_id == before.next_id + spawned
    &&& after.actors@.len() == before.actors@.len() + spawned
    &&& after.actors@.subrange(0, before.actors@.len() as int) == before.actors@
    &&& if has_monster(before.actors@) || map.rooms@.len() <= 1 {
        spawned == 0
    } else {
        &&& spawned <= MAX_MONSTERS
        &&& before.next_id <= u64::MAX - MAX_MONSTERS ==> MIN_MONSTERS <= spawned
        &&& forall|j: int|
            before.actors@.len() <= j < after.actors@.len() ==> {
                let a = #[trigger] after.actors@[j];
                &&& newly_spawned(
                    a,
                    (before.next_id + (j - before.actors@.len())) as u64,
                    ActorKind::Monster,
                    a.position,
                    MONSTER_SIGHT,
                )
                &&& in_monster_room(map, a.position)
                &&& map.rooms_disjoint() ==> !map.rooms@[0].encloses(
                    a.position.x as int,
                    a.position.y as int,
                )
            }
    }
}

/// Spawns monsters unless the arena has one already or the level has no
/// room besides the player's. The number of monsters is drawn between
/// `MIN_MONSTERS` and `MAX_MONSTERS`; each appears inside a room drawn among
/// those that are not the player's, at a cell drawn from its interior.
/// Returns how many monsters were spawned.
pub fn spawn_monsters(arena: &mut Arena, map: &MapBuilder) -> (spawned: u64)
    requires
        map.rooms_in_bounds(),
    ensures
        monsters_spawned(old(arena), map, final(arena), spawned),
        old(arena).wf() ==> final(arena).wf(),
{
    let ghost before = arena.actors@;
    let mut i: usize = 0;
    while i < arena.actors.len()
        invariant
            i <= arena.actors@.len(),
            arena.actors@ == before,
            forall|j: int| 0 <= j < i ==> (#[trigger] arena.actors@[j]).kind != ActorKind::Monster,
        decreases arena.actors@.len() - i,
    {
        if arena.actors[i].kind == ActorKind::Monster {
            proof {
                assert(arena.actors@.subrange(0, before.len() as int) =~= before);
            }
            return 0;
        }
        i = i + 1;
    }
    let room_count = map.rooms.len();
    if room_count <= 1 {
        proof {
            assert(arena.actors@.subrange(0, before.len() as int) =~= before);
        }
        return 0;
    }
    let wanted: u64 = random_range(MIN_MONSTERS, MAX_MONSTERS + 1);
    let mut spawned: u64 = 0;
    let mut attempt: u64 = 0;
    proof {
        assert(arena.actors@.subrange(0, before.len() as int) =~= before);
    }
    while attempt < wanted
        invariant
            map.rooms_in_bounds(),
            room_count == map.rooms@.len(),
            room_count > 1,
            MIN_MONSTERS <= wanted <= MAX_MONSTERS,
            attempt <= wanted,
            spawned <= attempt,
            old(arena).next_id <= u64::MAX - MAX_MONSTERS ==> spawned == attempt,
            before == old(arena).actors@,
            old(arena).wf() ==> arena.wf(),
            arena.next_id == old(arena).next_id + spawned,
            arena.actors@.len() == before.len() + spawned,
            arena.actors@.subrange(0, before.len() as int) == before,
            forall|j: int|
                before.len() <= j < arena.actors@.len() ==> {
                    let a = #[trigger] arena.actors@[j];
                    &&& newly_spawned(
                        a,
                        (old(arena).next_id + (j - before.len())) as u64,
                        ActorKind::Monster,
                        a.position,
                        MONSTER_SIGHT,
                    )
                    &&& in_monster_room(map, a.position)
                    &&& map.rooms_disjoint() ==> !map.rooms@[0].encloses(
                        a.position.x as int,
                        a.position.y as int,
                    )
                },
        decreases wanted - attempt,
    {
        let r: usize = random_range(1, room_count as u64) as usize;
        let room = map.rooms[r];
        proof {
            assert(map.room_fits(map.rooms@[r as int]));
        }
        let x: u32 = random_range(room.x1 as u64 + 1, room.x2 as u64) as u32;
        let y: u32 = random_range(room.y1 as u64 + 1, room.y2 as u64) as u32;
        let cell = GridPosition { x, y };
        let ghost entering = arena.actors@;
        match arena.spawn(ActorKind::Monster, cell, MONSTER_SIGHT) {
            Some(_) => {
                proof {
                    assert(map.rooms@[r as int].encloses(cell.x as int, cell.y as int));
                    assert(in_monster_room(map, cell));
                    assert(arena.actors@.drop_last() == entering);
                    assert forall|j: int| 0 <= j < entering.len() implies arena.actors@[j]
                        == entering[j] by {
                        assert(arena.actors@.drop_last()[j] == arena.actors@[j]);
                    }
                    assert(arena.actors@.subrange(0, before.len() as int) =~= before) by {
                        assert forall|j: int| 0 <= j < before.len() implies arena.actors@.subrange(
                            0,
                            before.len() as int,
                        )[j] == before[j] by {
                            assert(entering.subrange(0, before.len() as int)[j] == entering[j]);
                        }
                    }
                    assert forall|j: int| before.len() <= j < arena.actors@.len() implies {
                        let a = #[trigger] arena.actors@[j];
                        &&& newly_spawned(
                            a,
                            (old(arena).next_id + (j - before.len())) as u64,
                            ActorKind::Monster,
                            a.position,
                            MONSTER_SIGHT,
                        )
                        &&& in_monster_room(map, a.position)
                        &&& map.rooms_disjoint() ==> !map.rooms@[0].encloses(
                            a.position.x as int,
                            a.position.y as int,
                        )
                    } by {
                        if map.rooms_disjoint() {
                            assert(!map.rooms@[r as int].intersects(map.rooms@[0]));
                        }
                        if j < entering.len() {
                            assert(arena.actors@[j] == entering[j]);
                        } else {
                            assert(arena.actors@[j] == arena.actors@.last());
                        }
                    }
                }
                spawned = spawned + 1;
            },
            None => {},
        }
        attempt = attempt + 1;
    }
    spawned
}

} // verus!
