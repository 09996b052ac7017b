//! The data attached to actors and to the level: attributes, sight, threat
//! state, pending combat, the turn clock and the message log.

use crate::fov::{compute_fov, sees, visible_set};
use crate::grid::GridPosition;
use vstd::prelude::*;

verus! {

/// What an actor is. The player is steered by input; monsters by the turn
/// logic, and only monsters leave the world when they die.
#[derive(Clone, Copy, Debug, PartialEq, Eq, Structural)]
pub enum ActorKind {
    Player,
    Monster,
}

/// An actor's attributes: five base attributes, the two combat values, and
/// three resources, each with its maximum and its current amount.
#[derive(Clone, Copy, Debug, PartialEq, Eq, Structural)]
pub struct Stats {
    pub muscle: i32,
    pub brains: i32,
    pub skill: i32,
    pub cool: i32,
    pub fitness: i32,
    pub attack: i32,
    pub defense: i32,
    pub health: i32,
    pub current_health: i32,
    pub stamina: i32,
    pub current_stamina: i32,
    pub load: i32,
    pub current_load: i32,
}

impl Default for Stats {
    fn default() -> (s: Self)
        ensures
            s == (Stats {
                muscle: 1,
                brains: 1,
                skill: 1,
                cool: 1,
                fitness: 1,
                attack: 2,
                defense: 0,
                health: 10,
                current_health: 10,
                stamina: 10,
                current_stamina: 10,
                load: 10,
                current_load: 10,
            }),
    {
        Stats {
            muscle: 1,
            brains: 1,
            skill: 1,
            cool: 1,
            fitness: 1,
            attack: 2,
            defense: 0,
            health: 10,
            current_health: 10,
            stamina: 10,
            current_stamina: 10,
            load: 10,
            current_load: 10,
        }
    }
}

/// The nearest value that an `i32` can hold.
pub open spec fn clamp_i32(v: int) -> i32 {
    if v < i32::MIN {
        i32::MIN
    } else if v > i32::MAX {
        i32::MAX
    } else {
        v as i32
    }
}

/// The cells an actor currently sees, its sight range, and whether the cells
/// have to be computed anew because the actor has moved. The cells stand for
/// a set: they are kept in a list in which none occurs twice.
#[derive(Clone, Debug, PartialEq, Eq)]
pub struct FieldOfView {
    pub visible_tiles: Vec<GridPosition>,
    pub range: u32,
    pub is_dirty: bool,
}

impl FieldOfView {
    /// The invariant of the cache: no cell occurs twice.
    pub open spec fn wf(&self) -> bool {
        self.visible_tiles@.no_duplicates()
    }

    /// The cached cells as a set.
    pub open spec fn visible(&self) -> Set<GridPosition> {
        self.visible_tiles@.to_set()
    }

    /// Whether `after` is what a refresh on the given tile field, for an
    /// actor at `origin`, makes of `self`: a clean field of view is kept as
    /// it is, a dirty one holds exactly what the actor sees and is clean.
    pub open spec fn refreshes_to(
        &self,
        after: &FieldOfView,
        tiles: Seq<bool>,
        width: u32,
        height: u32,
        origin: GridPosition,
    ) -> bool {
        if self.is_dirty {
            &&& !after.is_dirty
            &&& after.range == self.range
            &&& after.visible_tiles@.no_duplicates()
            &&& after.visible() == visible_set(tiles, width, height, origin, self.range)
        } else {
            after == self
        }
    }

    /// A field of view that holds no cell yet and is due for computing.
    pub fn new(range: u32) -> (f: Self)
        ensures
            f.wf(),
            f.range == range,
            f.is_dirty,
            f.visible_tiles@.len() == 0,
            f.visible() == Set::<GridPosition>::empty(),
    {
        let f = FieldOfView { visible_tiles: Vec::new(), range, is_dirty: true };
        assert(f.visible() =~= Set::<GridPosition>::empty());
        f
    }

    /// Tells whether the cached cells include `pos`.
    pub fn contains(&self, pos: GridPosition) -> (r: bool)
        ensures
            r == self.visible().contains(pos),
    {
        let mut i: usize = 0;
        while i < self.visible_tiles.len()
            invariant
                i <= self.visible_tiles@.len(),
                forall|j: int| 0 <= j < i ==> self.visible_tiles@[j] != pos,
            decreases self.visible_tiles@.len() - i,
        {
            let cell = self.visible_tiles[i];
            if cell.x == pos.x && cell.y == pos.y {
                assert(self.visible_tiles@[i as int] == pos);
                return true;
            }
            i = i + 1;
        }
        false
    }

    /// Brings the cache up to date for an actor at `origin`: computes the
    /// visible cells if the cache is dirty and leaves it untouched if not.
    pub fn refresh(&mut self, tiles: &[bool], width: u32, height: u32, origin: GridPosition)
        ensures
            old(self).refreshes_to(final(self), tiles@, width, height, origin),
            old(self).wf() ==> final(self).wf(),
            !final(self).is_dirty,
            final(self).range == old(self).range,
    {
        if self.is_dirty {
            self.visible_tiles = compute_fov(tiles, width, height, &origin, self.range);
            self.is_dirty = false;
        }
    }
}

/// Refreshing twice in a row hands back on the second call exactly what the
/// first call left, whatever level and position the second call is given: a
/// cache is computed once and then kept until it is marked dirty. A cache
/// that was clean to begin with is kept by both calls.
pub proof fn lemma_refresh_twice_keeps_cache(
    first: FieldOfView,
    second: FieldOfView,
    third: FieldOfView,
    tiles: Seq<bool>,
    width: u32,
    height: u32,
    origin: GridPosition,
    later_tiles: Seq<bool>,
    later_width: u32,
    later_height: u32,
    later_origin: GridPosition,
)
    requires
        first.refreshes_to(&second, tiles, width, height, origin),
        second.refreshes_to(&third, later_tiles, later_width, later_height, later_origin),
    ensures
        third == second,
        third.visible() == second.visible(),
        !first.is_dirty ==> third == first,
{
}

/// Whether a monster has the player in sight, and whether it had when this
/// was last decided.
#[derive(Clone, Copy, Debug, PartialEq, Eq, Structural)]
pub struct PlayerDetected {
    pub is_detected: bool,
    pub was_detected_last_frame: bool,
}

impl PlayerDetected {
    /// Whether the player came into sight at the last decision.
    pub open spec fn rising(self) -> bool {
        self.is_detected && !self.was_detected_last_frame
    }

    /// Tells whether the player came into sight at the last decision.
    pub fn just_detected(&self) -> (r: bool)
        ensures
            r == self.rising(),
    {
        self.is_detected && !self.was_detected_last_frame
    }
}

impl Default for PlayerDetected {
    fn default() -> (d: Self)
        ensures
            d == (PlayerDetected { is_detected: false, was_detected_last_frame: false }),
    {
        PlayerDetected { is_detected: false, was_detected_last_frame: false }
    }
}

/// The wish to strike the actor with the id `target` in the next resolution
/// pass.
#[derive(Clone, Copy, Debug, PartialEq, Eq, Structural)]
pub struct WantsToMelee {
    pub target: u64,
}

/// Sum of the amounts.
pub open spec fn sum_of(amounts: Seq<i32>) -> int
    decreases amounts.len(),
{
    if amounts.len() == 0 {
        0
    } else {
        sum_of(amounts.drop_last()) + amounts.last()
    }
}

/// Damage that waits to be applied to an actor, one amount per strike.
#[derive(Clone, Debug, PartialEq, Eq)]
pub struct SufferDamage {
    pub amounts: Vec<i32>,
}

impl SufferDamage {
    /// The pending total: the sum of the amounts, cut to what an `i32`
    /// holds.
    pub open spec fn pending_total(&self) -> i32 {
        clamp_i32(sum_of(self.amounts@))
    }

    /// Pending damage of one strike.
    pub fn new_damage(amount: i32) -> (d: Self)
        ensures
            d.amounts@ == seq![amount],
    {
        let mut amounts: Vec<i32> = Vec::new();
        amounts.push(amount);
        SufferDamage { amounts }
    }

    /// Adds the damage of one more strike.
    pub fn add_damage(&mut self, amount: i32)
        ensures
            final(self).amounts@ == old(self).amounts@.push(amount),
    {
        self.amounts.push(amount);
    }

    /// The pending total.
    pub fn total(&self) -> (t: i32)
        ensures
            t == self.pending_total(),
    {
        let mut sum: i128 = 0;
        let mut i: usize = 0;
        while i < self.amounts.len()
            invariant
                i <= self.amounts@.len(),
                sum == sum_of(self.amounts@.take(i as int)),
                -0x8000_0000 * i <= sum <= 0x8000_0000 * i,
            decreases self.amounts@.len() - i,
        {
            proof {
                assert(self.amounts@.take(i as int + 1).drop_last() =~= self.amounts@.take(i as int));
            }
            sum = sum + self.amounts[i] as i128;
            i = i + 1;
        }
        proof {
            assert(self.amounts@.take(i as int) =~= self.amounts@);
        }
        if sum < i32::MIN as i128 {
            i32::MIN
        } else if sum > i32::MAX as i128 {
            i32::MAX
        } else {
            sum as i32
        }
    }
}

impl Default for SufferDamage {
    fn default() -> (d: Self)
        ensures
            d.amounts@.len() == 0,
    {
        SufferDamage { amounts: Vec::new() }
    }
}

/// Largest number of messages the log keeps.
pub const LOG_CAPACITY: usize = 100;

/// The most recent messages of the game, oldest first.
#[derive(Clone, Debug, PartialEq, Eq)]
pub struct GameLog {
    pub messages: Vec<String>,
}

impl GameLog {
    /// Appends a message; when that makes more than `LOG_CAPACITY`, the
    /// oldest message is dropped.
    pub fn add_message(&mut self, message: String)
        ensures
            final(self).messages@ == if old(self).messages@.len() >= LOG_CAPACITY {
                old(self).messages@.push(message).remove(0)
            } else {
                old(self).messages@.push(message)
            },
    {
        self.messages.push(message);
        if self.messages.len() > LOG_CAPACITY {
            self.messages.remove(0);
        }
    }
}

impl Default for GameLog {
    fn default() -> (log: Self)
        ensures
            log.messages@.len() == 0,
    {
        GameLog { messages: Vec::new() }
    }
}

/// A repeating interval timer over whole nanoseconds, written out in full
/// in this library: a tick adds the time that has passed, counts every
/// interval that has ended with it, up to `u32::MAX`, and keeps what is left
/// as the time into the next interval.
#[derive(Clone, Copy, Debug, PartialEq, Eq, Structural)]
pub struct Timer {
    /// Length of one interval.
    pub duration: u64,
    /// Time into the current interval.
    pub elapsed: u64,
    /// How many intervals ended during the last tick.
    pub times_finished_this_tick: u32,
}

impl Timer {
    /// A timer that runs: its interval has a length, and the time into the
    /// current interval is short of it.
    pub open spec fn running(self) -> bool {
        0 <= self.elapsed < self.duration
    }

    /// How many intervals end when `delta` more nanoseconds pass, counted up
    /// to `u32::MAX`. An interval of length zero ends that often in any tick.
    pub open spec fn finishes(self, delta: u64) -> int {
        if self.duration == 0 {
            u32::MAX as int
        } else if (self.elapsed + delta) / (self.duration as int) > u32::MAX {
            u32::MAX as int
        } else {
            (self.elapsed + delta) / (self.duration as int)
        }
    }

    /// Time into the current interval after `delta` more nanoseconds.
    pub open spec fn carried(self, delta: u64) -> int {
        if self.duration == 0 {
            0
        } else {
            (self.elapsed + delta) % (self.duration as int)
        }
    }

    /// The timer after `delta` more nanoseconds.
    pub open spec fn ticked(self, delta: u64) -> Timer {
        Timer {
            duration: self.duration,
            elapsed: self.carried(delta) as u64,
            times_finished_this_tick: self.finishes(delta) as u32,
        }
    }

    /// A timer at the start of its first interval.
    pub fn repeating(duration: u64) -> (t: Timer)
        ensures
            t == (Timer { duration, elapsed: 0, times_finished_this_tick: 0 }),
    {
        Timer { duration, elapsed: 0, times_finished_this_tick: 0 }
    }

    /// Advances the timer by `delta` nanoseconds.
    pub fn tick(&mut self, delta: u64)
        ensures
            *final(self) == old(self).ticked(delta),
            old(self).duration > 0 ==> final(self).running(),
    {
        if self.duration == 0 {
            self.elapsed = 0;
            self.times_finished_this_tick = u32::MAX;
        } else {
            let total: u128 = self.elapsed as u128 + delta as u128;
            let finished: u128 = total / self.duration as u128;
            let rest: u128 = total % self.duration as u128;
            self.elapsed = rest as u64;
            self.times_finished_this_tick = if finished > u32::MAX as u128 {
                u32::MAX
            } else {
                finished as u32
            };
        }
    }

    /// Tells whether an interval ended during the last tick.
    pub fn just_finished(&self) -> (r: bool)
        ensures
            r == (self.times_finished_this_tick > 0),
    {
        self.times_finished_this_tick > 0
    }
}

/// Length of a turn in nanoseconds.
pub const TURN_INTERVAL: u64 = 2_000_000_000;

/// The turn clock: an interval timer and the number of turns it has
/// released.
#[derive(Clone, Copy, Debug, PartialEq, Eq, Structural)]
pub struct TickTimer {
    pub timer: Timer,
    pub count: u32,
}

impl Default for TickTimer {
    fn default() -> (t: Self)
        ensures
            t == (TickTimer {
                timer: Timer { duration: TURN_INTERVAL, elapsed: 0, times_finished_this_tick: 0 },
                count: 0,
            }),
    {
        TickTimer { timer: Timer::repeating(TURN_INTERVAL), count: 0 }
    }
}

/// One participant of the simulation, held in the arena under a stable id.
#[derive(Clone, Debug, PartialEq, Eq)]
pub struct Actor {
    /// Never reused within an arena.
    pub id: u64,
    pub kind: ActorKind,
    pub position: GridPosition,
    /// Set when the position changes, cleared when the field of view has
    /// been marked dirty for it.
    pub moved: bool,
    /// Whether other actors are kept from entering this actor's cell.
    pub blocks_movement: bool,
    pub fov: FieldOfView,
    /// Whether the player currently sees this actor.
    pub visible: bool,
    pub detected: PlayerDetected,
    pub stats: Stats,
    /// Set by the turn logic, consumed by the next intent phase.
    pub wants_to_melee: Option<WantsToMelee>,
    /// Filled by the intent phase, consumed by the next application phase.
    pub suffer_damage: Option<SufferDamage>,
}

} // verus!
