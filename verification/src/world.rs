//! The world: a level, the arena of actors, the turn clock and what is
//! shown, advanced frame by frame through the stages in their fixed order.

use crate::arena::{first_of_kind, lemma_index_of_kind, player_index, Arena};
use crate::components::{clamp_i32, sum_of, Actor, ActorKind, PlayerDetected, Stats, TickTimer, Timer,
    TURN_INTERVAL};
use crate::fov::visible_set;
use crate::grid::{in_bounds, Direction, GridPosition};
use crate::map_builder::{attempts_made, dug_since, generate_map, is_blank, MapBuilder, MAX_ROOMS,
    MAX_SIZE, MIN_SIZE};
use crate::systems::combat::{apply_damage, damage_applied, delete_the_dead, falls, id_of, incoming,
    intents_resolved, is_dead_monster, melee_combat, pending, perishes, strikes_by, survives,
    DeathReport, Strike};
use crate::systems::monster::{alerted, monster_ai, monster_turn, monsters_spawned, monsters_turned,
    spawn_monsters, threat_updated, turn_taken};
use crate::systems::player::{destination, player_moved, player_movement, player_spawned,
    spawn_player};
use crate::systems::timer::{tick, ticked};
use crate::systems::visibility::{looked_at, mark_fov_dirty, moves_noted, sight_refreshed,
    update_fov, update_visibility, TileVisibility};
use vstd::prelude::*;

verus! {

/// Everything that the simulation holds.
#[derive(Clone, Debug, PartialEq, Eq)]
pub struct World {
    pub map: MapBuilder,
    pub arena: Arena,
    pub clock: TickTimer,
    pub flags: TileVisibility,
}

/// What a resolution pass did.
#[derive(Clone, Debug, PartialEq, Eq)]
pub struct CombatReport {
    /// The strikes that the intent phase resolved, in arena order of the
    /// attackers.
    pub strikes: Vec<Strike>,
    /// What the death sweep found.
    pub deaths: DeathReport,
}

/// What happened during one frame.
#[derive(Clone, Debug, PartialEq, Eq)]
pub struct FrameReport {
    /// Id of the player, if this frame spawned it.
    pub player_spawned: Option<u64>,
    /// Number of monsters that this frame spawned.
    pub monsters_spawned: u64,
    /// Whether the player moved.
    pub player_moved: bool,
    /// What the resolution of combat did.
    pub combat: CombatReport,
    /// Ids of the monsters that have just caught sight of the player.
    pub spotted: Vec<u64>,
}

/// Whether nothing of a resolution pass is left on the actor: no intent to
/// strike and no pending damage.
pub open spec fn settled(a: Actor) -> bool {
    a.wants_to_melee.is_none() && a.suffer_damage.is_none()
}

/// Nothing of a resolution pass is left on any actor, and no dead monster is
/// among them.
pub open spec fn combat_resolved(actors: Seq<Actor>) -> bool {
    forall|i: int|
        0 <= i < actors.len() ==> settled(#[trigger] actors[i]) && !is_dead_monster(actors[i])
}

/// Every field of view is up to date.
pub open spec fn sight_current(actors: Seq<Actor>) -> bool {
    forall|i: int| 0 <= i < actors.len() ==> !(#[trigger] actors[i]).fov.is_dirty
}

/// Every monster has noted whether it sees the player's cell, and is shown
/// exactly if the player sees the monster's cell.
pub open spec fn monsters_sighted(actors: Seq<Actor>) -> bool {
    player_index(actors).is_some() ==> forall|i: int|
        0 <= i < actors.len() && (#[trigger] actors[i]).kind == ActorKind::Monster ==> {
            let a = actors[i];
            let player = actors[player_index(actors).unwrap()];
            &&& a.detected.is_detected == a.fov.visible().contains(player.position)
            &&& a.visible == player.fov.visible().contains(a.position)
        }
}

/// A tile is flagged as visible exactly if the player sees its cell, and
/// every visible tile is flagged as explored.
pub open spec fn shows_what_player_sees(actors: Seq<Actor>, map: &MapBuilder, flags: &TileVisibility) -> bool {
    player_index(actors).is_some() ==> forall|x: int, y: int|
        in_bounds(map.width, map.height, x, y) ==> {
            let player = actors[player_index(actors).unwrap()];
            &&& #[trigger] flags.shows(map, x, y) == player.fov.visible().contains(
                GridPosition { x: x as u32, y: y as u32 },
            )
            &&& flags.shows(map, x, y) ==> flags.knows(map, x, y)
        }
}

/// Every tile that was flagged as explored in `before` is flagged so in
/// `after`.
pub open spec fn keeps_explored(before: &TileVisibility, after: &TileVisibility, map: &MapBuilder) -> bool {
    forall|x: int, y: int|
        in_bounds(map.width, map.height, x, y) && before.knows(map, x, y) ==> #[trigger] after.knows(
            map,
            x,
            y,
        )
}

/// Whether the cache of the actor can be relied on: it holds no cell twice,
/// and unless it is due for computing, or a move of the actor has yet to be
/// noted, it holds exactly what the actor sees from its cell.
pub open spec fn cache_right(a: Actor, map: &MapBuilder) -> bool {
    &&& a.fov.wf()
    &&& !a.fov.is_dirty && !a.moved ==> a.fov.visible() == visible_set(
        map.tiles@,
        map.width,
        map.height,
        a.position,
        a.fov.range,
    )
}

/// The cache of every actor can be relied on.
pub open spec fn caches_right(actors: Seq<Actor>, map: &MapBuilder) -> bool {
    forall|i: int| 0 <= i < actors.len() ==> cache_right(#[trigger] actors[i], map)
}

/// The actor `t` once the intent phase and the application phase have run:
/// the sum of what was pending and of every strike aimed at it has been taken
/// from its current health in one subtraction, and nothing of the pass is
/// left on it.
pub open spec fn fought(before: Seq<Actor>, t: int) -> Actor {
    let a = before[t];
    let due = pending(a) + incoming(before, t, before.len() as int);
    Actor {
        wants_to_melee: None,
        suffer_damage: None,
        stats: Stats {
            current_health: clamp_i32(a.stats.current_health - clamp_i32(sum_of(due))),
            ..a.stats
        },
        ..a
    }
}

/// The actors once the intent phase and the application phase have run.
pub open spec fn all_fought(before: Seq<Actor>) -> Seq<Actor> {
    Seq::new(before.len(), |t: int| fought(before, t))
}

/// Whether `now` is what bringing sight up to date makes of the actor `i`.
/// Its field of view is brought up to date. With a player in the arena, a
/// monster notes whether it now sees the player's cell, remembers what it
/// had noted, and is shown exactly if the player now sees the monster's
/// cell. Nothing else changes.
pub open spec fn sight_settled(before: Seq<Actor>, map: &MapBuilder, after: Seq<Actor>, i: int) -> bool {
    let was = before[i];
    let now = after[i];
    &&& now == (Actor { fov: now.fov, detected: now.detected, visible: now.visible, ..was })
    &&& was.fov.refreshes_to(&now.fov, map.tiles@, map.width, map.height, was.position)
    &&& match player_index(before) {
        Some(p) => if was.kind == ActorKind::Monster {
            &&& now.detected == (PlayerDetected {
                is_detected: now.fov.visible().contains(before[p].position),
                was_detected_last_frame: was.detected.is_detected,
            })
            &&& now.visible == after[p].fov.visible().contains(was.position)
        } else {
            now.detected == was.detected && now.visible == was.visible
        },
        None => now.detected == was.detected && now.visible == was.visible,
    }
}

/// Whether the flags `after` are what the derivation of what is shown makes
/// of `before` when the player sees the cells `seen`: a tile is visible
/// exactly if its cell is among them, and explored if it was or is visible.
pub open spec fn flags_derived(
    before: &TileVisibility,
    after: &TileVisibility,
    map: &MapBuilder,
    seen: Set<GridPosition>,
) -> bool {
    forall|x: int, y: int|
        in_bounds(map.width, map.height, x, y) ==> {
            &&& #[trigger] after.shows(map, x, y) == seen.contains(
                GridPosition { x: x as u32, y: y as u32 },
            )
            &&& after.knows(map, x, y) == (before.knows(map, x, y) || seen.contains(
                GridPosition { x: x as u32, y: y as u32 },
            ))
        }
}

/// Whether `after` and `shown` are what bringing sight up to date makes of
/// the actors `before` and of the flags `flags`, and `spotted` what it
/// returns: every actor is as `sight_settled` says; with a player, the flags
/// are derived from what the player then sees, and `spotted` lists the
/// monsters that have just caught sight of the player; without one, the flags
/// stay and nothing is listed.
pub open spec fn sight_brought(
    before: Seq<Actor>,
    map: &MapBuilder,
    flags: &TileVisibility,
    after: Seq<Actor>,
    shown: &TileVisibility,
    spotted: Seq<u64>,
) -> bool {
    &&& after.len() == before.len()
    &&& forall|i: int| 0 <= i < before.len() ==> #[trigger] sight_settled(before, map, after, i)
    &&& shown.covers(map)
    &&& match player_index(before) {
        Some(p) => {
            &&& flags_derived(flags, shown, map, after[p].fov.visible())
            &&& spotted == after.filter(alerted()).map_values(id_of())
        },
        None => *shown == *flags && spotted.len() == 0,
    }
}

/// Whether `after` is what a frame of `delta` nanoseconds with the input
/// `input` may make of the world `before`, and `report` what it returns. The
/// stages follow each other in their fixed order, each on what the stages
/// before it have left: the spawning of a missing player and of missing
/// monsters; the turn clock; the noting of moves, the player's move and the
/// monsters' turn, which sees the clock and the player's move of this frame;
/// the resolution of combat; and the refresh of sight.
pub open spec fn frame_advanced(
    before: &World,
    delta: u64,
    input: Option<Direction>,
    after: &World,
    report: &FrameReport,
) -> bool {
    exists|spawned: Arena, crowded: Arena, turned: Seq<Actor>|
        #![trigger
            player_spawned(&before.arena, &before.map, &spawned, report.player_spawned),
            monsters_turned(
                ready_for_turn(crowded.actors@, &before.map, input),
                &before.map,
                after.clock,
                turned,
            )]
        {
            &&& player_spawned(&before.arena, &before.map, &spawned, report.player_spawned)
            &&& monsters_spawned(&spawned, &before.map, &crowded, report.monsters_spawned)
            &&& after.clock == ticked(before.clock, delta)
            &&& after.map == before.map
            &&& after.arena.next_id == crowded.next_id
            &&& report.player_moved == (ready_for_turn(crowded.actors@, &before.map, input)
                != moves_noted(crowded.actors@))
            &&& monsters_turned(
                ready_for_turn(crowded.actors@, &before.map, input),
                &before.map,
                after.clock,
                turned,
            )
            &&& report.combat.strikes@ == strikes_by(turned, turned.len() as int)
            &&& report.combat.deaths.removed@ == all_fought(turned).filter(perishes()).map_values(
                id_of(),
            )
            &&& report.combat.deaths.fallen_players@ == all_fought(turned).filter(falls()).map_values(
                id_of(),
            )
            &&& sight_brought(
                all_fought(turned).filter(survives()),
                &before.map,
                &before.flags,
                after.arena.actors@,
                &after.flags,
                report.spotted@,
            )
        }
}

/// The actors as the monsters' turn finds them: their moves noted, and the
/// player's move of this frame resolved.
pub open spec fn ready_for_turn(actors: Seq<Actor>, map: &MapBuilder, input: Option<Direction>) -> Seq<
    Actor,
> {
    player_moved(moves_noted(actors), map, input)
}

/// The sum of two runs of amounts is the sum of their sums.
pub proof fn lemma_sum_of_concat(a: Seq<i32>, b: Seq<i32>)
    ensures
        sum_of(a + b) == sum_of(a) + sum_of(b),
    decreases b.len(),
{
    if b.len() == 0 {
        assert(a + b =~= a);
    } else {
        assert((a + b).drop_last() =~= a + b.drop_last());
        lemma_sum_of_concat(a, b.drop_last());
    }
}

/// What the two phases make of an actor is what `fought` says.
proof fn lemma_fought(before: Seq<Actor>, t: int, resolved: Actor)
    requires
        0 <= t < before.len(),
        intents_resolved(before, t, resolved),
    ensures
        damage_applied(resolved) == fought(before, t),
{
    let hits = incoming(before, t, before.len() as int);
    if hits.len() == 0 {
        assert(pending(before[t]) + hits =~= pending(before[t]));
        if before[t].suffer_damage.is_none() {
            assert(sum_of(Seq::<i32>::empty()) == 0);
        }
    }
}

/// The player's move changes the actors exactly if the move has a
/// destination.
proof fn lemma_moved_is_elsewhere(actors: Seq<Actor>, map: &MapBuilder, direction: Option<Direction>)
    ensures
        (player_moved(actors, map, direction) != actors) == (player_index(actors).is_some()
            && direction.is_some() && destination(
            actors,
            map,
            player_index(actors).unwrap(),
            direction.unwrap(),
        ).is_some()),
{
    if player_index(actors).is_some() && direction.is_some() {
        let p = player_index(actors).unwrap();
        let chosen = choose|i: int| first_of_kind(actors, ActorKind::Player, i);
        assert(first_of_kind(actors, ActorKind::Player, chosen));
        match destination(actors, map, p, direction.unwrap()) {
            Some(cell) => {
                assert(player_moved(actors, map, direction)[p].position == cell);
                assert(cell != actors[p].position);
            },
            None => {},
        }
    }
}

/// Two runs of actors that agree, one by one, on their ids and on whether
/// they are selected, have the same ids selected.
proof fn lemma_selected_ids_agree(a: Seq<Actor>, b: Seq<Actor>, selected: spec_fn(Actor) -> bool)
    requires
        a.len() == b.len(),
        forall|i: int| 0 <= i < a.len() ==> (#[trigger] a[i]).id == b[i].id && selected(a[i]) == selected(b[i]),
    ensures
        a.filter(selected).map_values(id_of()) == b.filter(selected).map_values(id_of()),
    decreases a.len(),
{
    reveal(Seq::filter);
    if a.len() > 0 {
        assert forall|i: int| 0 <= i < a.drop_last().len() implies (#[trigger] a.drop_last()[i]).id
            == b.drop_last()[i].id && selected(a.drop_last()[i]) == selected(b.drop_last()[i]) by {
            assert(a[i].id == b[i].id);
        }
        lemma_selected_ids_agree(a.drop_last(), b.drop_last(), selected);
        assert(a.last().id == b.last().id && selected(a.last()) == selected(b.last())) by {
            assert(a[a.len() - 1].id == b[a.len() - 1].id);
        }
        let fa = a.drop_last().filter(selected);
        let fb = b.drop_last().filter(selected);
        if selected(a.last()) {
            assert(fa.push(a.last()).map_values(id_of()) =~= fa.map_values(id_of()).push(a.last().id));
            assert(fb.push(b.last()).map_values(id_of()) =~= fb.map_values(id_of()).push(b.last().id));
        }
    } else {
        assert(a.filter(selected) =~= b.filter(selected));
    }
}

/// Actors that join an arena with an empty cache that is due for computing
/// leave the caches reliable.
proof fn lemma_spawn_keeps_caches(before: Seq<Actor>, after: Seq<Actor>, map: &MapBuilder)
    requires
        caches_right(before, map),
        before.len() <= after.len(),
        forall|i: int| 0 <= i < before.len() ==> #[trigger] after[i] == before[i],
        forall|i: int|
            before.len() <= i < after.len() ==> (#[trigger] after[i]).fov.is_dirty
                && after[i].fov.visible_tiles@.len() == 0,
    ensures
        caches_right(after, map),
{
    assert forall|i: int| 0 <= i < after.len() implies cache_right(#[trigger] after[i], map) by {
        if i < before.len() {
            assert(cache_right(before[i], map));
        }
    }
}

/// Noting the moves and resolving the player's move leave the caches
/// reliable.
proof fn lemma_move_keeps_caches(before: Seq<Actor>, map: &MapBuilder, input: Option<Direction>)
    requires
        caches_right(before, map),
    ensures
        caches_right(ready_for_turn(before, map, input), map),
{
    let noted = moves_noted(before);
    assert forall|i: int| 0 <= i < noted.len() implies cache_right(#[trigger] noted[i], map) by {
        assert(cache_right(before[i], map));
    }
    let moved = ready_for_turn(before, map, input);
    assert forall|i: int| 0 <= i < moved.len() implies cache_right(#[trigger] moved[i], map) by {
        assert(cache_right(noted[i], map));
    }
}

/// The monsters' turn leaves the caches reliable.
proof fn lemma_turn_keeps_caches(before: Seq<Actor>, map: &MapBuilder, p: int, after: Seq<Actor>)
    requires
        caches_right(before, map),
        after.len() == before.len(),
        forall|i: int| 0 <= i < before.len() ==> turn_taken(before, map, p, i, #[trigger] after[i]),
    ensures
        caches_right(after, map),
{
    assert forall|i: int| 0 <= i < after.len() implies cache_right(#[trigger] after[i], map) by {
        assert(cache_right(before[i], map));
        assert(turn_taken(before, map, p, i, after[i]));
    }
}

/// The resolution of combat leaves the caches reliable.
proof fn lemma_fight_keeps_caches(before: Seq<Actor>, map: &MapBuilder)
    requires
        caches_right(before, map),
    ensures
        caches_right(all_fought(before).filter(survives()), map),
{
    let fought = all_fought(before);
    let left = fought.filter(survives());
    assert forall|i: int| 0 <= i < left.len() implies cache_right(#[trigger] left[i], map) by {
        assert(left.contains(left[i]));
        fought.lemma_filter_contains_rev(survives(), left[i]);
        let j = choose|j: int| 0 <= j < fought.len() && fought[j] == left[i];
        assert(cache_right(before[j], map));
    }
}

/// Bringing sight up to date makes every cache reliable that is not waiting
/// for a move to be noted.
proof fn lemma_sight_keeps_caches(before: Seq<Actor>, map: &MapBuilder, after: Seq<Actor>)
    requires
        caches_right(before, map),
        after.len() == before.len(),
        forall|i: int| 0 <= i < before.len() ==> #[trigger] sight_settled(before, map, after, i),
    ensures
        caches_right(after, map),
{
    assert forall|i: int| 0 <= i < after.len() implies cache_right(#[trigger] after[i], map) by {
        assert(cache_right(before[i], map));
        assert(sight_settled(before, map, after, i));
    }
}

/// Resolves combat: the intent phase, the application phase and the death
/// sweep, in this order. Every actor loses from its current health, in one
/// subtraction, the sum of what was pending for it and of the damage of
/// every strike aimed at it; then the monsters without health leave.
/// Afterwards nothing of the pass is left on any actor. Returns the strikes
/// that were resolved and what the death sweep found.
pub fn resolve_combat(arena: &mut Arena) -> (report: CombatReport)
    ensures
        final(arena).next_id == old(arena).next_id,
        final(arena).actors@ == all_fought(old(arena).actors@).filter(survives()),
        report.strikes@ == strikes_by(old(arena).actors@, old(arena).actors@.len() as int),
        report.deaths.removed@ == all_fought(old(arena).actors@).filter(perishes()).map_values(
            id_of(),
        ),
        report.deaths.fallen_players@ == all_fought(old(arena).actors@).filter(falls()).map_values(
            id_of(),
        ),
        combat_resolved(final(arena).actors@),
        final(arena).actors@.len() <= old(arena).actors@.len(),
        old(arena).wf() ==> final(arena).wf(),
{
    let strikes = melee_combat(arena);
    let ghost resolved = arena.actors@;
    apply_damage(arena);
    let ghost applied = arena.actors@;
    proof {
        assert forall|i: int| 0 <= i < applied.len() implies #[trigger] applied[i] == fought(
            old(arena).actors@,
            i,
        ) by {
            lemma_fought(old(arena).actors@, i, resolved[i]);
        }
        assert(applied =~= all_fought(old(arena).actors@));
    }
    let deaths = delete_the_dead(arena);
    proof {
        let swept = arena.actors@;
        assert forall|i: int| 0 <= i < swept.len() implies settled(#[trigger] swept[i])
            && !is_dead_monster(swept[i]) by {
            assert(applied.contains(swept[i]));
            let j = choose|j: int| 0 <= j < applied.len() && applied[j] == swept[i];
            assert(settled(applied[j]));
        }
        applied.lemma_filter_len(survives());
    }
    CombatReport { strikes, deaths }
}

/// Brings sight up to date: the refresh of every field of view, the threat
/// decision, and the derivation of what is shown, in this order. Returns the
/// ids of the monsters that have just caught sight of the player, in arena
/// order. Without a player only the fields of view change.
pub fn refresh_sight(arena: &mut Arena, map: &MapBuilder, flags: &mut TileVisibility) -> (spotted: Vec<
    u64,
>)
    requires
        map.sized(),
        old(flags).covers(map),
    ensures
        final(arena).next_id == old(arena).next_id,
        sight_brought(
            old(arena).actors@,
            map,
            old(flags),
            final(arena).actors@,
            final(flags),
            spotted@,
        ),
        player_index(final(arena).actors@) == player_index(old(arena).actors@),
        sight_current(final(arena).actors@),
        monsters_sighted(final(arena).actors@),
        shows_what_player_sees(final(arena).actors@, map, final(flags)),
        keeps_explored(old(flags), final(flags), map),
        combat_resolved(old(arena).actors@) ==> combat_resolved(final(arena).actors@),
        old(arena).wf() ==> final(arena).wf(),
{
    let ghost swept = arena.actors@;
    update_fov(arena, map);
    let ghost sighted = arena.actors@;
    let spotted = monster_ai(arena);
    let ghost decided = arena.actors@;
    update_visibility(arena, map, flags);
    proof {
        let last = arena.actors@;
        assert forall|i: int| 0 <= i < last.len() implies {
            let a = #[trigger] last[i];
            &&& !a.fov.is_dirty
            &&& settled(a) == settled(swept[i])
            &&& is_dead_monster(a) == is_dead_monster(swept[i])
            &&& a.kind == decided[i].kind
            &&& a.position == decided[i].position
            &&& a.fov == decided[i].fov
            &&& a.detected == decided[i].detected
            &&& decided[i].kind == sighted[i].kind
            &&& decided[i].position == sighted[i].position
            &&& decided[i].fov == sighted[i].fov
            &&& sighted[i].kind == swept[i].kind
            &&& sighted[i].position == swept[i].position
        } by {
            assert(sight_refreshed(swept[i], map, sighted[i]));
        }
        lemma_same_kinds_same_player(decided, last);
        lemma_same_kinds_same_player(sighted, decided);
        lemma_same_kinds_same_player(swept, sighted);
        if player_index(last).is_some() {
            let p = player_index(last).unwrap();
            assert(0 <= p < last.len()) by {
                let chosen = choose|i: int| first_of_kind(last, ActorKind::Player, i);
                assert(first_of_kind(last, ActorKind::Player, chosen));
            }
            let player = last[p];
            let seen = decided[p].fov.visible();
            assert(player.fov == decided[p].fov);
            assert(player.position == sighted[p].position);
            assert(player.kind == ActorKind::Player) by {
                let chosen = choose|i: int| first_of_kind(last, ActorKind::Player, i);
                assert(first_of_kind(last, ActorKind::Player, chosen));
            }
            assert forall|i: int|
                0 <= i < last.len() && (#[trigger] last[i]).kind == ActorKind::Monster implies {
                let a = last[i];
                &&& a.detected.is_detected == a.fov.visible().contains(player.position)
                &&& a.visible == player.fov.visible().contains(a.position)
            } by {
                assert(decided[i] == threat_updated(sighted[i], sighted[p].position));
                assert(last[i] == looked_at(decided[i], seen));
            }
            assert forall|i: int| 0 <= i < swept.len() implies #[trigger] sight_settled(
                swept,
                map,
                last,
                i,
            ) by {
                assert(sight_refreshed(swept[i], map, sighted[i]));
                assert(decided[i] == threat_updated(sighted[i], sighted[p].position));
                assert(last[i] == looked_at(decided[i], seen));
            }
            assert forall|x: int, y: int| in_bounds(map.width, map.height, x, y) implies {
                &&& #[trigger] flags.shows(map, x, y) == player.fov.visible().contains(
                    GridPosition { x: x as u32, y: y as u32 },
                )
                &&& flags.shows(map, x, y) ==> flags.knows(map, x, y)
            } by {
                let cell = GridPosition { x: x as u32, y: y as u32 };
                assert(flags.shows(map, x, y) == seen.contains(cell));
                assert(flags.knows(map, x, y) == (old(flags).knows(map, x, y) || seen.contains(cell)));
            }
            assert forall|x: int, y: int|
                in_bounds(map.width, map.height, x, y) && old(flags).knows(
                    map,
                    x,
                    y,
                ) implies #[trigger] flags.knows(map, x, y) by {
                assert(flags.shows(map, x, y) == seen.contains(
                    GridPosition { x: x as u32, y: y as u32 },
                ));
            }
            assert(flags_derived(old(flags), flags, map, last[p].fov.visible()));
            assert forall|i: int| 0 <= i < decided.len() implies (#[trigger] decided[i]).id == last[i].id
                && alerted()(decided[i]) == alerted()(last[i]) by {
                assert(last[i] == looked_at(decided[i], seen));
            }
            lemma_selected_ids_agree(decided, last, alerted());
        } else {
            assert forall|i: int| 0 <= i < swept.len() implies #[trigger] sight_settled(
                swept,
                map,
                last,
                i,
            ) by {
                assert(sight_refreshed(swept[i], map, sighted[i]));
            }
        }
        if combat_resolved(swept) {
            assert forall|i: int| 0 <= i < last.len() implies settled(#[trigger] last[i])
                && !is_dead_monster(last[i]) by {
                assert(settled(swept[i]));
            }
        }
    }
    spotted
}

impl World {
    /// The world's invariant: that of the level and of the arena, flags for
    /// every tile, and caches that can be relied on.
    pub open spec fn wf(&self) -> bool {
        &&& self.map.wf()
        &&& self.arena.wf()
        &&& self.flags.covers(&self.map)
        &&& caches_right(self.arena.actors@, &self.map)
    }

    /// What a frame needs of the world: a usable level, and flags for every
    /// tile.
    pub open spec fn usable(&self) -> bool {
        self.map.usable() && self.flags.covers(&self.map)
    }

    /// Tells whether the world is fit for a frame.
    pub fn is_usable(&self) -> (r: bool)
        ensures
            r == self.usable(),
    {
        self.map.is_usable() && self.flags.visible.len() == self.map.tiles.len()
            && self.flags.explored.len() == self.map.tiles.len()
    }

    /// A world with a freshly generated level of the given size, no actors,
    /// the clock at the start of its first turn and nothing seen yet. The
    /// level is what one generation pass makes of a field of walls.
    pub fn new(width: u32, height: u32) -> (world: Self)
        requires
            width * height <= usize::MAX,
        ensures
            world.wf(),
            exists|blank: MapBuilder| #[trigger]
                is_blank(&blank, width, height) && attempts_made(
                    &blank,
                    MAX_ROOMS as int,
                    &world.map,
                ),
            world.map.width == width,
            world.map.height == height,
            world.map.rooms@.len() <= MAX_ROOMS,
            forall|i: int|
                0 <= i < world.map.rooms@.len() ==> {
                    let room = #[trigger] world.map.rooms@[i];
                    &&& MIN_SIZE <= room.x2 - room.x1 <= MAX_SIZE
                    &&& MIN_SIZE <= room.y2 - room.y1 <= MAX_SIZE
                },
            forall|x: int, y: int| #[trigger]
                world.map.floor(x, y) ==> dug_since(world.map.rooms@, 0, x, y),
            world.arena.actors@.len() == 0,
            world.arena.next_id == 0,
            world.clock == (TickTimer {
                timer: Timer { duration: TURN_INTERVAL, elapsed: 0, times_finished_this_tick: 0 },
                count: 0,
            }),
            forall|i: int| 0 <= i < world.flags.visible@.len() ==> !world.flags.visible@[i],
            forall|i: int| 0 <= i < world.flags.explored@.len() ==> !world.flags.explored@[i],
    {
        let map = generate_map(width, height);
        let flags = TileVisibility::new(&map);
        World { map, arena: Arena::new(), clock: TickTimer::default(), flags }
    }

    /// Advances the world by one frame of `delta` nanoseconds, with the move
    /// that input asks of the player, if any. The stages run in this order:
    /// spawning of a missing player and of missing monsters, the turn clock,
    /// noting of moves, the player's move, the monsters' turn, the intent
    /// phase, the application phase, the death sweep, the refresh of sight,
    /// the threat decision, and the derivation of what is shown.
    ///
    /// Whatever the monsters do, at the end of the frame the clock has
    /// advanced by `delta`, the level is as it was, no intent and no damage
    /// is pending, no dead monster is left, every field of view is up to
    /// date, every monster knows whether it sees the player, and what is
    /// shown is what the player sees.
    pub fn advance_frame(&mut self, delta: u64, input: Option<Direction>) -> (report: FrameReport)
        requires
            old(self).usable(),
        ensures
            frame_advanced(old(self), delta, input, final(self), &report),
            final(self).usable(),
            old(self).wf() ==> final(self).wf(),
            final(self).clock == ticked(old(self).clock, delta),
            final(self).map == old(self).map,
            combat_resolved(final(self).arena.actors@),
            sight_current(final(self).arena.actors@),
            monsters_sighted(final(self).arena.actors@),
            shows_what_player_sees(final(self).arena.actors@, &final(self).map, &final(self).flags),
            keeps_explored(&old(self).flags, &final(self).flags, &final(self).map),
            caches_right(old(self).arena.actors@, &old(self).map) ==> caches_right(
                final(self).arena.actors@,
                &final(self).map,
            ),
    {
        let player_id = spawn_player(&mut self.arena, &self.map);
        let ghost spawned = self.arena;
        let monster_count = spawn_monsters(&mut self.arena, &self.map);
        let ghost crowded = self.arena;
        tick(delta, &mut self.clock);
        mark_fov_dirty(&mut self.arena);
        let ghost noted = self.arena.actors@;
        let player_moved = player_movement(&mut self.arena, &self.map, input);
        let ghost ready = self.arena.actors@;
        monster_turn(&mut self.arena, &self.map, &self.clock);
        let ghost turned = self.arena.actors@;
        let combat = resolve_combat(&mut self.arena);
        let ghost swept = self.arena.actors@;
        let spotted = refresh_sight(&mut self.arena, &self.map, &mut self.flags);
        let report = FrameReport {
            player_spawned: player_id,
            monsters_spawned: monster_count,
            player_moved,
            combat,
            spotted,
        };
        proof {
            lemma_moved_is_elsewhere(noted, &self.map, input);
            assert(monsters_turned(
                ready_for_turn(crowded.actors@, &old(self).map, input),
                &old(self).map,
                self.clock,
                turned,
            ));
            assert(player_spawned(&old(self).arena, &old(self).map, &spawned, report.player_spawned));
            assert(monsters_spawned(&spawned, &old(self).map, &crowded, report.monsters_spawned));
            assert(frame_advanced(old(self), delta, input, self, &report));
            if caches_right(old(self).arena.actors@, &old(self).map) {
                let map = &old(self).map;
                assert forall|i: int|
                    0 <= i < old(self).arena.actors@.len() implies #[trigger] spawned.actors@[i]
                    == old(self).arena.actors@[i] by {
                    if spawned.actors@.len() > old(self).arena.actors@.len() {
                        assert(spawned.actors@.drop_last()[i] == spawned.actors@[i]);
                    }
                }
                lemma_spawn_keeps_caches(old(self).arena.actors@, spawned.actors@, map);
                assert forall|i: int| 0 <= i < spawned.actors@.len() implies #[trigger] crowded.actors@[i]
                    == spawned.actors@[i] by {
                    assert(crowded.actors@.subrange(0, spawned.actors@.len() as int)[i]
                        == crowded.actors@[i]);
                }
                lemma_spawn_keeps_caches(spawned.actors@, crowded.actors@, map);
                lemma_move_keeps_caches(crowded.actors@, map, input);
                assert(ready == ready_for_turn(crowded.actors@, map, input));
                if self.clock.timer.times_finished_this_tick > 0 && player_index(ready).is_some() {
                    lemma_turn_keeps_caches(ready, map, player_index(ready).unwrap(), turned);
                }
                lemma_fight_keeps_caches(turned, map);
                lemma_sight_keeps_caches(swept, map, self.arena.actors@);
            }
        }
        report
    }
}

/// Actors of the same kinds, one by one, have their player at the same
/// index.
pub proof fn lemma_same_kinds_same_player(a: Seq<Actor>, b: Seq<Actor>)
    requires
        a.len() == b.len(),
        forall|i: int| 0 <= i < a.len() ==> (#[trigger] a[i]).kind == b[i].kind,
    ensures
        player_index(a) == player_index(b),
{
    if exists|i: int| first_of_kind(a, ActorKind::Player, i) {
        let i = choose|i: int| first_of_kind(a, ActorKind::Player, i);
        assert(first_of_kind(b, ActorKind::Player, i)) by {
            assert(a[i].kind == b[i].kind);
            assert forall|j: int| 0 <= j < i implies (#[trigger] b[j]).kind != ActorKind::Player by {
                assert(a[j].kind == b[j].kind);
            }
        }
        lemma_index_of_kind(a, ActorKind::Player, i);
        lemma_index_of_kind(b, ActorKind::Player, i);
    } else if exists|i: int| first_of_kind(b, ActorKind::Player, i) {
        let i = choose|i: int| first_of_kind(b, ActorKind::Player, i);
        assert(first_of_kind(a, ActorKind::Player, i)) by {
            assert(a[i].kind == b[i].kind);
            assert forall|j: int| 0 <= j < i implies (#[trigger] a[j]).kind != ActorKind::Player by {
                assert(a[j].kind == b[j].kind);
            }
        }
    }
}

} // verus!
