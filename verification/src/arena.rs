//! The arena: every actor of the world in one list, each under an id that is
//! never given out twice, with the queries that the stages share.

use crate::components::{Actor, ActorKind, FieldOfView, PlayerDetected, Stats};
use crate::grid::GridPosition;
use crate::map_builder::MapBuilder;
use vstd::prelude::*;

verus! {

/// The actors of the world in the order in which they were spawned, and the
/// id that the next actor will get.
#[derive(Clone, Debug, PartialEq, Eq)]
pub struct Arena {
    pub actors: Vec<Actor>,
    pub next_id: u64,
}

/// Whether `a` is an actor as it is spawned: in place, unharmed, blocking
/// its cell, with nothing seen yet and nothing pending.
pub open spec fn newly_spawned(a: Actor, id: u64, kind: ActorKind, position: GridPosition, range: u32) -> bool {
    &&& a.id == id
    &&& a.kind == kind
    &&& a.position == position
    &&& !a.moved
    &&& a.blocks_movement
    &&& a.fov.visible_tiles@.len() == 0
    &&& a.fov.range == range
    &&& a.fov.is_dirty
    &&& !a.visible
    &&& a.detected == (PlayerDetected { is_detected: false, was_detected_last_frame: false })
    &&& a.stats == (Stats {
        muscle: 1,
        brains: 1,
        skill: 1,
        cool: 1,
        fitness: 1,
        attack: 2,
        defense: 0,
        health: 10,
        current_health: 10,
        stamina: 10,
        current_stamina: 10,
        load: 10,
        current_load: 10,
    })
    &&& a.wants_to_melee.is_none()
    &&& a.suffer_damage.is_none()
}

/// Whether `i` is the first actor with the given id.
pub open spec fn first_with_id(actors: Seq<Actor>, id: u64, i: int) -> bool {
    &&& 0 <= i < actors.len()
    &&& actors[i].id == id
    &&& forall|j: int| 0 <= j < i ==> (#[trigger] actors[j]).id != id
}

/// Whether no actor has the given id.
pub open spec fn no_actor_with_id(actors: Seq<Actor>, id: u64) -> bool {
    forall|j: int| 0 <= j < actors.len() ==> (#[trigger] actors[j]).id != id
}

/// Index of the first actor with the given id, if there is one.
pub open spec fn index_of_id(actors: Seq<Actor>, id: u64) -> Option<int> {
    if exists|i: int| first_with_id(actors, id, i) {
        Some(choose|i: int| first_with_id(actors, id, i))
    } else {
        None
    }
}

/// The first actor with an id is the one that `index_of_id` names.
pub proof fn lemma_index_of_id(actors: Seq<Actor>, id: u64, i: int)
    requires
        first_with_id(actors, id, i),
    ensures
        index_of_id(actors, id) == Some(i),
{
    let chosen = choose|j: int| first_with_id(actors, id, j);
    if chosen < i {
        assert(actors[chosen].id != id);
    } else if i < chosen {
        assert(actors[i].id != id);
    }
}

/// Where no actor has an id, `index_of_id` names none.
pub proof fn lemma_no_index_of_id(actors: Seq<Actor>, id: u64)
    requires
        no_actor_with_id(actors, id),
    ensures
        index_of_id(actors, id).is_none(),
{
    if exists|i: int| first_with_id(actors, id, i) {
        let i = choose|i: int| first_with_id(actors, id, i);
        assert(actors[i].id != id);
    }
}

/// Actors with the same ids, one by one, have an id at the same index.
pub proof fn lemma_index_of_id_same_ids(before: Seq<Actor>, after: Seq<Actor>, id: u64)
    requires
        same_ids(before, after),
    ensures
        index_of_id(after, id) == index_of_id(before, id),
{
    if exists|i: int| first_with_id(before, id, i) {
        let i = choose|i: int| first_with_id(before, id, i);
        assert(first_with_id(after, id, i)) by {
            assert(after[i].id == before[i].id);
            assert forall|j: int| 0 <= j < i implies (#[trigger] after[j]).id != id by {
                assert(before[j].id != id);
            }
        }
        lemma_index_of_id(before, id, i);
        lemma_index_of_id(after, id, i);
    } else if exists|i: int| first_with_id(after, id, i) {
        let i = choose|i: int| first_with_id(after, id, i);
        assert(first_with_id(before, id, i)) by {
            assert(after[i].id == before[i].id);
            assert forall|j: int| 0 <= j < i implies (#[trigger] before[j]).id != id by {
                assert(after[j].id != id);
            }
        }
    }
}

/// Whether `i` is the first actor of the given kind.
pub open spec fn first_of_kind(actors: Seq<Actor>, kind: ActorKind, i: int) -> bool {
    &&& 0 <= i < actors.len()
    &&& actors[i].kind == kind
    &&& forall|j: int| 0 <= j < i ==> (#[trigger] actors[j]).kind != kind
}

/// Whether no actor is of the given kind.
pub open spec fn none_of_kind(actors: Seq<Actor>, kind: ActorKind) -> bool {
    forall|j: int| 0 <= j < actors.len() ==> (#[trigger] actors[j]).kind != kind
}

/// Index of the first actor of the given kind, if there is one.
pub open spec fn index_of_kind(actors: Seq<Actor>, kind: ActorKind) -> Option<int> {
    if exists|i: int| first_of_kind(actors, kind, i) {
        Some(choose|i: int| first_of_kind(actors, kind, i))
    } else {
        None
    }
}

/// Index of the player: the first actor of that kind, if there is one.
pub open spec fn player_index(actors: Seq<Actor>) -> Option<int> {
    index_of_kind(actors, ActorKind::Player)
}

/// There is one first actor of a kind at most.
pub proof fn lemma_first_of_kind_unique(actors: Seq<Actor>, kind: ActorKind, a: int, b: int)
    requires
        first_of_kind(actors, kind, a),
        first_of_kind(actors, kind, b),
    ensures
        a == b,
{
    if a < b {
        assert(actors[a].kind != kind);
    } else if b < a {
        assert(actors[b].kind != kind);
    }
}

/// The first actor of a kind is the one that `index_of_kind` names.
pub proof fn lemma_index_of_kind(actors: Seq<Actor>, kind: ActorKind, i: int)
    requires
        first_of_kind(actors, kind, i),
    ensures
        index_of_kind(actors, kind) == Some(i),
{
    let chosen = choose|j: int| first_of_kind(actors, kind, j);
    lemma_first_of_kind_unique(actors, kind, i, chosen);
}

/// Where no actor is of a kind, `index_of_kind` names none.
pub proof fn lemma_no_index_of_kind(actors: Seq<Actor>, kind: ActorKind)
    requires
        none_of_kind(actors, kind),
    ensures
        index_of_kind(actors, kind).is_none(),
{
    if exists|i: int| first_of_kind(actors, kind, i) {
        let i = choose|i: int| first_of_kind(actors, kind, i);
        assert(actors[i].kind != kind);
    }
}

/// Whether an actor other than `mover` blocks the cell `pos`.
pub open spec fn blocked_by_other(actors: Seq<Actor>, mover: int, pos: GridPosition) -> bool {
    exists|j: int|
        0 <= j < actors.len() && j != mover && (#[trigger] actors[j]).blocks_movement && actors[j].position
            == pos
}

/// Whether the actor `mover` may enter `pos`: the cell is floor, and no other
/// actor blocks it.
pub open spec fn can_enter(actors: Seq<Actor>, map: &MapBuilder, mover: int, pos: GridPosition) -> bool {
    map.floor(pos.x as int, pos.y as int) && !blocked_by_other(actors, mover, pos)
}

/// Whether no two actors that block movement share a cell.
pub open spec fn blockers_apart(actors: Seq<Actor>) -> bool {
    forall|i: int, j: int|
        0 <= i < actors.len() && 0 <= j < actors.len() && i != j && (#[trigger] actors[i]).blocks_movement
            && (#[trigger] actors[j]).blocks_movement ==> actors[i].position != actors[j].position
}

/// Whether the actors `after` are as many as the actors `before` and have,
/// one by one, the same ids.
pub open spec fn same_ids(before: Seq<Actor>, after: Seq<Actor>) -> bool {
    &&& after.len() == before.len()
    &&& forall|i: int| 0 <= i < before.len() ==> (#[trigger] after[i]).id == before[i].id
}

/// An arena whose actors keep their ids, and which has given out no new id,
/// keeps its invariant.
pub proof fn lemma_same_ids_keep_wf(before: &Arena, after: &Arena)
    requires
        before.wf(),
        after.next_id == before.next_id,
        same_ids(before.actors@, after.actors@),
    ensures
        after.wf(),
{
    assert forall|i: int| 0 <= i < after.actors@.len() implies (#[trigger] after.actors@[i]).id
        < after.next_id by {
        assert(before.actors@[i].id < before.next_id);
    }
    assert forall|i: int, j: int|
        0 <= i < after.actors@.len() && 0 <= j < after.actors@.len() && i != j implies (
    #[trigger] after.actors@[i]).id != (#[trigger] after.actors@[j]).id by {
        assert(before.actors@[i].id != before.actors@[j].id);
    }
}

/// An arena that loses one actor keeps its invariant.
pub proof fn lemma_removal_keeps_wf(before: &Arena, after: &Arena, gone: int)
    requires
        before.wf(),
        after.next_id == before.next_id,
        0 <= gone < before.actors@.len(),
        after.actors@ == before.actors@.remove(gone),
    ensures
        after.wf(),
{
    assert forall|i: int| 0 <= i < after.actors@.len() implies (#[trigger] after.actors@[i]).id
        < after.next_id by {
        let from = if i < gone { i } else { i + 1 };
        assert(after.actors@[i] == before.actors@[from]);
    }
    assert forall|i: int, j: int|
        0 <= i < after.actors@.len() && 0 <= j < after.actors@.len() && i != j implies (
    #[trigger] after.actors@[i]).id != (#[trigger] after.actors@[j]).id by {
        let from_i = if i < gone { i } else { i + 1 };
        let from_j = if j < gone { j } else { j + 1 };
        assert(after.actors@[i] == before.actors@[from_i]);
        assert(after.actors@[j] == before.actors@[from_j]);
        assert(before.actors@[from_i].id != before.actors@[from_j].id);
    }
}

impl Arena {
    /// Every id in use is below the next one to give out, and no two actors
    /// share an id.
    pub open spec fn wf(&self) -> bool {
        &&& forall|i: int| 0 <= i < self.actors@.len() ==> (#[trigger] self.actors@[i]).id < self.next_id
        &&& forall|i: int, j: int|
            0 <= i < self.actors@.len() && 0 <= j < self.actors@.len() && i != j ==> (
            #[trigger] self.actors@[i]).id != (#[trigger] self.actors@[j]).id
    }

    /// An arena without actors.
    pub fn new() -> (arena: Self)
        ensures
            arena.wf(),
            arena.actors@.len() == 0,
            arena.next_id == 0,
    {
        Arena { actors: Vec::new(), next_id: 0 }
    }

    /// Appends a new actor and returns its id. Nothing is spawned, and `None`
    /// returned, once the ids have run out.
    pub fn spawn(&mut self, kind: ActorKind, position: GridPosition, range: u32) -> (id: Option<u64>)
        ensures
            old(self).wf() ==> final(self).wf(),
            old(self).next_id == u64::MAX ==> id.is_none() && final(self).actors@ == old(self).actors@
                && final(self).next_id == old(self).next_id,
            old(self).next_id < u64::MAX ==> {
                &&& id == Some(old(self).next_id)
                &&& final(self).next_id == old(self).next_id + 1
                &&& final(self).actors@.len() == old(self).actors@.len() + 1
                &&& final(self).actors@.drop_last() == old(self).actors@
                &&& newly_spawned(final(self).actors@.last(), old(self).next_id, kind, position, range)
            },
    {
        if self.next_id == u64::MAX {
            return None;
        }
        let id = self.next_id;
        let actor = Actor {
            id,
            kind,
            position,
            moved: false,
            blocks_movement: true,
            fov: FieldOfView::new(range),
            visible: false,
            detected: PlayerDetected::default(),
            stats: Stats::default(),
            wants_to_melee: None,
            suffer_damage: None,
        };
        self.actors.push(actor);
        self.next_id = id + 1;
        proof {
            assert(self.actors@.drop_last() =~= old(self).actors@);
        }
        Some(id)
    }

    /// Finds the first actor with the given id.
    pub fn find(&self, id: u64) -> (r: Option<usize>)
        ensures
            match r {
                Some(i) => first_with_id(self.actors@, id, i as int) && index_of_id(self.actors@, id)
                    == Some(i as int),
                None => no_actor_with_id(self.actors@, id) && index_of_id(self.actors@, id).is_none(),
            },
    {
        let mut i: usize = 0;
        while i < self.actors.len()
            invariant
                i <= self.actors@.len(),
                forall|j: int| 0 <= j < i ==> (#[trigger] self.actors@[j]).id != id,
            decreases self.actors@.len() - i,
        {
            if self.actors[i].id == id {
                proof {
                    lemma_index_of_id(self.actors@, id, i as int);
                }
                return Some(i);
            }
            i = i + 1;
        }
        proof {
            lemma_no_index_of_id(self.actors@, id);
        }
        None
    }

    /// Finds the first actor of the given kind.
    pub fn find_kind(&self, kind: ActorKind) -> (r: Option<usize>)
        ensures
            match r {
                Some(i) => first_of_kind(self.actors@, kind, i as int) && index_of_kind(
                    self.actors@,
                    kind,
                ) == Some(i as int),
                None => none_of_kind(self.actors@, kind) && index_of_kind(self.actors@, kind).is_none(),
            },
    {
        let mut i: usize = 0;
        while i < self.actors.len()
            invariant
                i <= self.actors@.len(),
                forall|j: int| 0 <= j < i ==> (#[trigger] self.actors@[j]).kind != kind,
            decreases self.actors@.len() - i,
        {
            if self.actors[i].kind == kind {
                proof {
                    lemma_index_of_kind(self.actors@, kind, i as int);
                }
                return Some(i);
            }
            i = i + 1;
        }
        proof {
            lemma_no_index_of_kind(self.actors@, kind);
        }
        None
    }

    /// Tells whether an actor other than `mover` blocks the cell `pos`.
    pub fn is_blocked(&self, mover: usize, pos: GridPosition) -> (r: bool)
        ensures
            r == blocked_by_other(self.actors@, mover as int, pos),
    {
        let mut i: usize = 0;
        while i < self.actors.len()
            invariant
                i <= self.actors@.len(),
                forall|j: int|
                    0 <= j < i && j != mover && (#[trigger] self.actors@[j]).blocks_movement
                        ==> self.actors@[j].position != pos,
            decreases self.actors@.len() - i,
        {
            let other = &self.actors[i];
            if i != mover && other.blocks_movement && other.position.x == pos.x && other.position.y
                == pos.y {
                return true;
            }
            i = i + 1;
        }
        false
    }

    /// Tells whether the actor `mover` may enter `pos`.
    pub fn may_enter(&self, map: &MapBuilder, mover: usize, pos: GridPosition) -> (r: bool)
        ensures
            r == can_enter(self.actors@, map, mover as int, pos),
    {
        map.is_floor(pos.x, pos.y) && !self.is_blocked(mover, pos)
    }
}

} // verus!
