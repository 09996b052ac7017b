//! Combat resolution in two phases, so that the outcome does not depend on
//! the order in which attackers are looked at, followed by the death sweep.

use crate::arena::{first_with_id, index_of_id, lemma_index_of_id_same_ids, lemma_removal_keeps_wf,
    lemma_same_ids_keep_wf, same_ids, Arena};
use crate::components::{clamp_i32, Actor, ActorKind, Stats, SufferDamage};
use vstd::prelude::*;

verus! {

/// Damage of one strike: attack less defense, never below zero and never
/// above what an `i32` holds.
pub open spec fn strike(attack: i32, defense: i32) -> i32 {
    if attack - defense < 0 {
        0
    } else {
        clamp_i32(attack - defense)
    }
}

/// The amounts that wait to be applied to an actor.
pub open spec fn pending(a: Actor) -> Seq<i32> {
    match a.suffer_damage {
        Some(d) => d.amounts@,
        None => Seq::empty(),
    }
}

/// Whether the actor `attacker` intends to strike the actor `target`: its
/// intent names an id, and `target` is the first actor with that id.
pub open spec fn aims_at(actors: Seq<Actor>, attacker: int, target: int) -> bool {
    match actors[attacker].wants_to_melee {
        Some(intent) => first_with_id(actors, intent.target, target),
        None => false,
    }
}

/// The damage that the first `upto` actors intend to deal to the actor
/// `target`, one amount per attacker, in arena order.
pub open spec fn incoming(actors: Seq<Actor>, target: int, upto: int) -> Seq<i32>
    decreases upto,
{
    if upto <= 0 {
        Seq::empty()
    } else {
        let earlier = incoming(actors, target, upto - 1);
        if aims_at(actors, upto - 1, target) {
            earlier.push(strike(actors[upto - 1].stats.attack, actors[target].stats.defense))
        } else {
            earlier
        }
    }
}

/// Whether `now` is what the actor `target` has become once the intents of
/// the first `upto` actors are resolved: those intents are gone, and the
/// damage of every strike that they aimed at `target` has joined what was
/// pending. An actor that none of them strikes keeps its pending damage as it
/// was.
pub open spec fn resolved_upto(before: Seq<Actor>, upto: int, target: int, now: Actor) -> bool {
    let hits = incoming(before, target, upto);
    &&& now == (Actor {
        wants_to_melee: if target < upto {
            None
        } else {
            before[target].wants_to_melee
        },
        suffer_damage: now.suffer_damage,
        ..before[target]
    })
    &&& if hits.len() == 0 {
        now.suffer_damage == before[target].suffer_damage
    } else {
        now.suffer_damage.is_some() && pending(now) == pending(before[target]) + hits
    }
}

/// Whether `after` is what the intent phase makes of the actor `target`.
pub open spec fn intents_resolved(before: Seq<Actor>, target: int, after: Actor) -> bool {
    resolved_upto(before, before.len() as int, target, after)
}

/// Whether `now` is what resolving the intent of the actor `attacker` makes
/// of the actor `target`.
pub open spec fn intent_resolved(entering: Seq<Actor>, attacker: int, target: int, now: Actor) -> bool {
    &&& now == (Actor {
        wants_to_melee: if target == attacker {
            None
        } else {
            entering[target].wants_to_melee
        },
        suffer_damage: now.suffer_damage,
        ..entering[target]
    })
    &&& if aims_at(entering, attacker, target) {
        now.suffer_damage.is_some() && pending(now) == pending(entering[target]).push(
            strike(entering[attacker].stats.attack, entering[target].stats.defense),
        )
    } else {
        now.suffer_damage == entering[target].suffer_damage
    }
}

/// The actor after the application phase: the pending total has been taken
/// from its current health in one subtraction, and nothing is pending.
pub open spec fn damage_applied(a: Actor) -> Actor {
    match a.suffer_damage {
        Some(d) => Actor {
            stats: Stats {
                current_health: clamp_i32(a.stats.current_health - d.pending_total()),
                ..a.stats
            },
            suffer_damage: None,
            ..a
        },
        None => a,
    }
}

/// One strike as the intent phase has resolved it.
#[derive(Clone, Copy, Debug, PartialEq, Eq, Structural)]
pub struct Strike {
    /// Id of the actor that struck.
    pub attacker: u64,
    /// Id of the actor that was struck.
    pub target: u64,
    /// Attack of the attacker.
    pub attack: i32,
    /// Defense of the target.
    pub defense: i32,
    /// Damage that has joined the pending damage of the target.
    pub damage: i32,
}

/// The strike of the actor `attacker`: it has one if it intends to strike
/// an id that an actor has.
pub open spec fn strike_by(actors: Seq<Actor>, attacker: int) -> Option<Strike> {
    match actors[attacker].wants_to_melee {
        Some(intent) => match index_of_id(actors, intent.target) {
            Some(target) => Some(
                Strike {
                    attacker: actors[attacker].id,
                    target: intent.target,
                    attack: actors[attacker].stats.attack,
                    defense: actors[target].stats.defense,
                    damage: strike(actors[attacker].stats.attack, actors[target].stats.defense),
                },
            ),
            None => None,
        },
        None => None,
    }
}

/// The strikes of the first `upto` actors, in arena order.
pub open spec fn strikes_by(actors: Seq<Actor>, upto: int) -> Seq<Strike>
    decreases upto,
{
    if upto <= 0 {
        Seq::empty()
    } else {
        let earlier = strikes_by(actors, upto - 1);
        match strike_by(actors, upto - 1) {
            Some(s) => earlier.push(s),
            None => earlier,
        }
    }
}

/// Whether the death sweep removes the actor: a monster without health.
pub open spec fn is_dead_monster(a: Actor) -> bool {
    a.kind == ActorKind::Monster && a.stats.current_health <= 0
}

/// Whether the death sweep reports the actor and leaves it in place: a
/// player without health.
pub open spec fn is_dead_player(a: Actor) -> bool {
    a.kind == ActorKind::Player && a.stats.current_health <= 0
}

/// The actors that the death sweep keeps.
pub open spec fn survives() -> spec_fn(Actor) -> bool {
    |a: Actor| !is_dead_monster(a)
}

/// The actors that the death sweep removes.
pub open spec fn perishes() -> spec_fn(Actor) -> bool {
    |a: Actor| is_dead_monster(a)
}

/// The players that the death sweep reports.
pub open spec fn falls() -> spec_fn(Actor) -> bool {
    |a: Actor| is_dead_player(a)
}

/// An actor's id.
pub open spec fn id_of() -> spec_fn(Actor) -> u64 {
    |a: Actor| a.id
}

/// What a death sweep found.
#[derive(Clone, Debug, PartialEq, Eq)]
pub struct DeathReport {
    /// Ids of the monsters that were removed, in arena order.
    pub removed: Vec<u64>,
    /// Ids of the players that have no health left, in arena order. They
    /// stay in the arena.
    pub fallen_players: Vec<u64>,
}

/// Damage of one strike.
pub fn strike_damage(attack: i32, defense: i32) -> (damage: i32)
    ensures
        damage == strike(attack, defense),
{
    let difference: i64 = attack as i64 - defense as i64;
    if difference < 0 {
        0
    } else if difference > i32::MAX as i64 {
        i32::MAX
    } else {
        difference as i32
    }
}

/// Resolving the intent of actor `upto` after those of the actors before it
/// leaves every actor as the intents of the first `upto + 1` actors make it.
proof fn lemma_resolve_next(before: Seq<Actor>, entering: Seq<Actor>, upto: int, target: int, now: Actor)
    requires
        0 <= upto < before.len(),
        0 <= target < before.len(),
        entering.len() == before.len(),
        forall|u: int| 0 <= u < before.len() ==> resolved_upto(before, upto, u, #[trigger] entering[u]),
        intent_resolved(entering, upto, target, now),
    ensures
        resolved_upto(before, upto + 1, target, now),
{
    assert(resolved_upto(before, upto, upto, entering[upto]));
    assert(resolved_upto(before, upto, target, entering[target]));
    assert(aims_at(entering, upto, target) == aims_at(before, upto, target)) by {
        match before[upto].wants_to_melee {
            Some(intent) => {
                assert forall|j: int| 0 <= j < before.len() implies (#[trigger] entering[j]).id
                    == before[j].id by {
                    assert(resolved_upto(before, upto, j, entering[j]));
                }
                if first_with_id(entering, intent.target, target) {
                    assert forall|j: int| 0 <= j < target implies (#[trigger] before[j]).id
                        != intent.target by {
                        assert(entering[j].id == before[j].id);
                    }
                }
                if first_with_id(before, intent.target, target) {
                    assert forall|j: int| 0 <= j < target implies (#[trigger] entering[j]).id
                        != intent.target by {
                        assert(entering[j].id == before[j].id);
                    }
                }
            },
            None => {},
        }
    }
    let earlier = incoming(before, target, upto);
    let damage = strike(before[upto].stats.attack, before[target].stats.defense);
    if aims_at(before, upto, target) {
        assert(incoming(before, target, upto + 1) == earlier.push(damage));
        assert(pending(before[target]) + earlier.push(damage) =~= (pending(before[target])
            + earlier).push(damage));
        if earlier.len() == 0 {
            assert(pending(before[target]) + earlier =~= pending(before[target]));
        }
    } else {
        assert(incoming(before, target, upto + 1) == earlier);
    }
}

/// Once the intents of the actors before it are resolved, an actor strikes
/// as it would have struck at the start of the phase.
proof fn lemma_strike_unchanged(before: Seq<Actor>, entering: Seq<Actor>, upto: int)
    requires
        0 <= upto < before.len(),
        entering.len() == before.len(),
        forall|u: int| 0 <= u < before.len() ==> resolved_upto(before, upto, u, #[trigger] entering[u]),
    ensures
        strike_by(entering, upto) == strike_by(before, upto),
{
    assert(resolved_upto(before, upto, upto, entering[upto]));
    assert(same_ids(before, entering)) by {
        assert forall|j: int| 0 <= j < before.len() implies (#[trigger] entering[j]).id
            == before[j].id by {
            assert(resolved_upto(before, upto, j, entering[j]));
        }
    }
    match before[upto].wants_to_melee {
        Some(intent) => {
            lemma_index_of_id_same_ids(before, entering, intent.target);
            match index_of_id(before, intent.target) {
                Some(target) => {
                    let chosen = choose|i: int| first_with_id(before, intent.target, i);
                    assert(first_with_id(before, intent.target, chosen));
                    assert(resolved_upto(before, upto, target, entering[target]));
                },
                None => {},
            }
        },
        None => {},
    }
}

/// Adds one amount to the pending damage of the actor `target`.
fn queue_damage(arena: &mut Arena, target: usize, damage: i32)
    requires
        target < old(arena).actors@.len(),
    ensures
        final(arena).next_id == old(arena).next_id,
        final(arena).actors@.len() == old(arena).actors@.len(),
        forall|u: int|
            0 <= u < old(arena).actors@.len() && u != target ==> #[trigger] final(arena).actors@[u]
                == old(arena).actors@[u],
        final(arena).actors@[target as int] == (Actor {
            suffer_damage: final(arena).actors@[target as int].suffer_damage,
            ..old(arena).actors@[target as int]
        }),
        final(arena).actors@[target as int].suffer_damage.is_some(),
        pending(final(arena).actors@[target as int]) == pending(old(arena).actors@[target as int]).push(
            damage,
        ),
{
    match &mut arena.actors[target].suffer_damage {
        Some(queue) => {
            queue.add_damage(damage);
        },
        None => {
            arena.actors[target].suffer_damage = Some(SufferDamage::new_damage(damage));
            proof {
                assert(pending(arena.actors@[target as int]) =~= pending(
                    old(arena).actors@[target as int],
                ).push(damage));
            }
        },
    }
}

/// Resolves the intent of the actor `attacker`, if it has one: the damage of
/// its strike joins the pending damage of the target, if there is one, and
/// the intent is removed. Returns the strike, if there was one.
pub fn resolve_intent(arena: &mut Arena, attacker: usize) -> (struck: Option<Strike>)
    requires
        attacker < old(arena).actors@.len(),
    ensures
        struck == strike_by(old(arena).actors@, attacker as int),
        final(arena).next_id == old(arena).next_id,
        final(arena).actors@.len() == old(arena).actors@.len(),
        forall|u: int|
            0 <= u < old(arena).actors@.len() ==> intent_resolved(
                old(arena).actors@,
                attacker as int,
                u,
                #[trigger] final(arena).actors@[u],
            ),
{
    let intent = arena.actors[attacker].wants_to_melee;
    match intent {
        Some(wish) => {
            match arena.find(wish.target) {
                Some(target) => {
                    let attack = arena.actors[attacker].stats.attack;
                    let defense = arena.actors[target].stats.defense;
                    let damage = strike_damage(attack, defense);
                    let struck = Strike {
                        attacker: arena.actors[attacker].id,
                        target: wish.target,
                        attack,
                        defense,
                        damage,
                    };
                    queue_damage(arena, target, damage);
                    arena.actors[attacker].wants_to_melee = None;
                    proof {
                        assert forall|u: int| 0 <= u < old(arena).actors@.len() implies intent_resolved(
                            old(arena).actors@,
                            attacker as int,
                            u,
                            #[trigger] arena.actors@[u],
                        ) by {
                            if u != target {
                                assert(!first_with_id(old(arena).actors@, wish.target, u));
                            }
                        }
                    }
                    Some(struck)
                },
                None => {
                    arena.actors[attacker].wants_to_melee = None;
                    None
                },
            }
        },
        None => None,
    }
}

/// Intent phase. For every actor that wants to strike, the damage of the
/// strike joins the pending damage of its target; the intent is removed
/// whether or not the target was found. Returns the strikes, in arena order
/// of the attackers.
pub fn melee_combat(arena: &mut Arena) -> (strikes: Vec<Strike>)
    ensures
        strikes@ == strikes_by(old(arena).actors@, old(arena).actors@.len() as int),
        final(arena).next_id == old(arena).next_id,
        final(arena).actors@.len() == old(arena).actors@.len(),
        forall|t: int|
            0 <= t < old(arena).actors@.len() ==> intents_resolved(
                old(arena).actors@,
                t,
                #[trigger] final(arena).actors@[t],
            ),
        old(arena).wf() ==> final(arena).wf(),
{
    let ghost before = old(arena).actors@;
    let count = arena.actors.len();
    let mut strikes: Vec<Strike> = Vec::new();
    let mut i: usize = 0;
    while i < count
        invariant
            i <= count,
            count == before.len(),
            arena.next_id == old(arena).next_id,
            arena.actors@.len() == count,
            forall|t: int| 0 <= t < count ==> resolved_upto(before, i as int, t, #[trigger] arena.actors@[t]),
            strikes@ == strikes_by(before, i as int),
        decreases count - i,
    {
        let ghost entering = arena.actors@;
        proof {
            lemma_strike_unchanged(before, entering, i as int);
        }
        match resolve_intent(arena, i) {
            Some(struck) => {
                strikes.push(struck);
            },
            None => {},
        }
        proof {
            assert forall|t: int| 0 <= t < count implies resolved_upto(
                before,
                i as int + 1,
                t,
                #[trigger] arena.actors@[t],
            ) by {
                lemma_resolve_next(before, entering, i as int, t, arena.actors@[t]);
            }
        }
        i = i + 1;
    }
    proof {
        if old(arena).wf() {
            assert forall|a: int| 0 <= a < count implies (#[trigger] arena.actors@[a]).id
                == before[a].id by {
                assert(resolved_upto(before, count as int, a, arena.actors@[a]));
            }
            lemma_same_ids_keep_wf(old(arena), arena);
        }
    }
    strikes
}

/// Application phase. Every actor with pending damage loses the pending
/// total from its current health in one subtraction, cut to what an `i32`
/// holds, and has nothing pending afterwards.
pub fn apply_damage(arena: &mut Arena)
    ensures
        final(arena).next_id == old(arena).next_id,
        final(arena).actors@.len() == old(arena).actors@.len(),
        forall|t: int|
            0 <= t < old(arena).actors@.len() ==> #[trigger] final(arena).actors@[t] == damage_applied(
                old(arena).actors@[t],
            ),
        old(arena).wf() ==> final(arena).wf(),
{
    let count = arena.actors.len();
    let mut i: usize = 0;
    while i < count
        invariant
            i <= count,
            count == old(arena).actors@.len(),
            arena.next_id == old(arena).next_id,
            arena.actors@.len() == count,
            forall|t: int|
                0 <= t < i ==> #[trigger] arena.actors@[t] == damage_applied(old(arena).actors@[t]),
            forall|t: int| i <= t < count ==> #[trigger] arena.actors@[t] == old(arena).actors@[t],
        decreases count - i,
    {
        match arena.actors[i].suffer_damage.take() {
            Some(queue) => {
                let total = queue.total();
                let health: i64 = arena.actors[i].stats.current_health as i64 - total as i64;
                arena.actors[i].stats.current_health = if health < i32::MIN as i64 {
                    i32::MIN
                } else if health > i32::MAX as i64 {
                    i32::MAX
                } else {
                    health as i32
                };
            },
            None => {},
        }
        i = i + 1;
    }
    proof {
        if old(arena).wf() {
            lemma_same_ids_keep_wf(old(arena), arena);
        }
    }
}

/// Death sweep. Every monster without health leaves the arena; a player
/// without health stays and is reported. The actors that stay keep their
/// order.
pub fn delete_the_dead(arena: &mut Arena) -> (report: DeathReport)
    ensures
        final(arena).next_id == old(arena).next_id,
        final(arena).actors@ == old(arena).actors@.filter(survives()),
        report.removed@ == old(arena).actors@.filter(perishes()).map_values(id_of()),
        report.fallen_players@ == old(arena).actors@.filter(falls()).map_values(id_of()),
        forall|i: int|
            0 <= i < final(arena).actors@.len() ==> !is_dead_monster(#[trigger] final(arena).actors@[i]),
        forall|i: int|
            0 <= i < old(arena).actors@.len() && !is_dead_monster(old(arena).actors@[i])
                ==> final(arena).actors@.contains(#[trigger] old(arena).actors@[i]),
        forall|i: int|
            0 <= i < final(arena).actors@.len() ==> old(arena).actors@.contains(
                #[trigger] final(arena).actors@[i],
            ),
        old(arena).wf() ==> final(arena).wf(),
{
    let ghost before = old(arena).actors@;
    let ghost mut done: int = 0;
    let mut removed: Vec<u64> = Vec::new();
    let mut fallen_players: Vec<u64> = Vec::new();
    let mut i: usize = 0;
    proof {
        reveal(Seq::filter);
        assert(before.take(0).filter(survives()) =~= Seq::<Actor>::empty());
        assert(before.take(0).filter(perishes()) =~= Seq::<Actor>::empty());
        assert(before.take(0).filter(falls()) =~= Seq::<Actor>::empty());
        assert(before.skip(0) =~= before);
        assert(arena.actors@ =~= before.take(0).filter(survives()) + before.skip(0));
        assert(removed@ =~= before.take(0).filter(perishes()).map_values(id_of()));
        assert(fallen_players@ =~= before.take(0).filter(falls()).map_values(id_of()));
    }
    while i < arena.actors.len()
        invariant
            before == old(arena).actors@,
            arena.next_id == old(arena).next_id,
            0 <= done <= before.len(),
            i == before.take(done).filter(survives()).len(),
            arena.actors@ == before.take(done).filter(survives()) + before.skip(done),
            removed@ == before.take(done).filter(perishes()).map_values(id_of()),
            fallen_players@ == before.take(done).filter(falls()).map_values(id_of()),
            old(arena).wf() ==> arena.wf(),
            forall|j: int| 0 <= j < arena.actors@.len() ==> before.contains(#[trigger] arena.actors@[j]),
        decreases arena.actors@.len() - i,
    {
        let ghost entering = arena.actors@;
        let ghost wide = *arena;
        proof {
            reveal(Seq::filter);
            assert(before.take(done + 1).drop_last() =~= before.take(done));
            assert(before.take(done + 1).last() == before[done]);
            assert(entering[i as int] == before.skip(done)[0]);
            assert(before.skip(done)[0] == before[done]);
        }
        let health = arena.actors[i].stats.current_health;
        let kind = arena.actors[i].kind;
        if health <= 0 && kind == ActorKind::Monster {
            let dead = arena.actors.remove(i);
            removed.push(dead.id);
            proof {
                assert(arena.actors@ =~= before.take(done + 1).filter(survives()) + before.skip(
                    done + 1,
                ));
                assert(removed@ =~= before.take(done + 1).filter(perishes()).map_values(id_of()));
                assert forall|j: int| 0 <= j < arena.actors@.len() implies before.contains(
                    #[trigger] arena.actors@[j],
                ) by {
                    if j < i {
                        assert(arena.actors@[j] == entering[j]);
                    } else {
                        assert(arena.actors@[j] == entering[j + 1]);
                    }
                }
                if old(arena).wf() {
                    lemma_removal_keeps_wf(&wide, arena, i as int);
                }
            }
        } else {
            if health <= 0 && kind == ActorKind::Player {
                fallen_players.push(arena.actors[i].id);
            }
            proof {
                assert(arena.actors@ =~= before.take(done + 1).filter(survives()) + before.skip(
                    done + 1,
                ));
                assert(fallen_players@ =~= before.take(done + 1).filter(falls()).map_values(id_of()));
            }
            i = i + 1;
        }
        proof {
            done = done + 1;
        }
    }
    proof {
        assert(done == before.len()) by {
            if done < before.len() {
                assert(arena.actors@.len() == i + before.skip(done).len());
            }
        }
        assert(before.take(done) =~= before);
        assert(arena.actors@ =~= before.filter(survives()));
        assert forall|j: int| 0 <= j < arena.actors@.len() implies !is_dead_monster(
            #[trigger] arena.actors@[j],
        ) by {
            before.lemma_filter_pred(survives(), j);
        }
        assert forall|j: int|
            0 <= j < before.len() && !is_dead_monster(before[j]) implies arena.actors@.contains(
            #[trigger] before[j],
        ) by {
            before.lemma_filter_contains(survives(), j);
        }
    }
    DeathReport { removed, fallen_players }
}

} // verus!
