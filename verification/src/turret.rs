//! The scheduled-event entity model: emitters ("turrets") held in a
//! generation-counted arena, and the events ("projectiles") they spawn, each
//! traveling toward a target at a fixed speed and expiring a fixed linger
//! duration after arrival.
//!
//! An event holds only a handle to its emitter, never the emitter itself, so
//! destroying the emitter degrades attribution to an explicit "origin gone"
//! answer instead of a dangling reference.

use vstd::prelude::*;

verus! {

/// A two-dimensional position with exact integer coordinates.
#[derive(Clone, Copy, PartialEq, Eq, Structural, Debug)]
pub struct Vec2 {
    pub x: i64,
    pub y: i64,
}

/// The event template an emitter stamps onto every projectile it spawns.
#[derive(Clone, Copy, PartialEq, Eq, Structural, Debug)]
pub struct TurretProjectileDefinition {
    /// Distance covered per unit of elapsed time, along each axis.
    pub travel_speed: u64,
    /// Radius of the effect applied on arrival.
    pub area_of_effect: u64,
    /// How long an arrived projectile lingers before it expires.
    pub linger: u64,
    /// Magnitude of the effect applied on arrival.
    pub damage: u64,
}

/// An emitter: a position, an effect radius, and the projectile template.
#[derive(Clone, Copy, PartialEq, Eq, Structural, Debug)]
pub struct Turret {
    pub position: Vec2,
    pub range: u64,
    pub projectile: TurretProjectileDefinition,
}

/// A weak handle to an emitter: a stable slot index plus the generation the
/// slot had when the emitter was added. Once the emitter is destroyed the
/// slot's generation moves on and the handle goes stale forever.
#[derive(Clone, Copy, PartialEq, Eq, Structural, Debug)]
pub struct TurretHandle {
    pub index: usize,
    pub generation: u64,
}

/// One arena slot: its current generation and the emitter it holds, if any.
struct TurretSlot {
    generation: u64,
    turret: Option<Turret>,
}

/// The arena that collectively owns all emitters and resolves handles to
/// them, answering "gone" for handles whose emitter was destroyed.
pub struct TurretArena {
    slots: Vec<TurretSlot>,
}

/// The phase an event is in: still traveling toward its target, arrived and
/// applying its effect, or expired once its linger duration has passed.
#[derive(Clone, Copy, PartialEq, Eq, Structural, Debug)]
pub enum EventState {
    Traveling,
    Arrived,
    Expired,
}

impl EventState {
    /// The position of this phase in the one-way `Traveling -> Arrived ->
    /// Expired` order.
    pub open spec fn rank(self) -> int {
        match self {
            EventState::Traveling => 0,
            EventState::Arrived => 1,
            EventState::Expired => 2,
        }
    }
}

impl TurretArena {
    /// A handle is alive when its slot still carries the generation the
    /// handle was minted with and the emitter has not been destroyed.
    pub closed spec fn alive(self, h: TurretHandle) -> bool {
        &&& h.index < self.slots@.len()
        &&& self.slots@[h.index as int].generation == h.generation
        &&& self.slots@[h.index as int].turret is Some
    }

    /// The emitter a live handle designates.
    pub closed spec fn turret_of(self, h: TurretHandle) -> Turret
        recommends
            self.alive(h),
    {
        self.slots@[h.index as int].turret.unwrap()
    }

    /// An empty arena: no handle is alive.
    pub fn new() -> (a: Self)
        ensures
            forall|h: TurretHandle| !a.alive(h),
    {
        TurretArena { slots: Vec::new() }
    }

    /// Adds an emitter and mints a fresh handle for it: the handle was not
    /// alive before, is alive now, and every other handle keeps its
    /// liveness and its emitter.
    pub fn add(&mut self, t: Turret) -> (h: TurretHandle)
        ensures
            !old(self).alive(h),
            final(self).alive(h),
            final(self).turret_of(h) == t,
            forall|h2: TurretHandle| h2 != h ==> final(self).alive(h2) == old(self).alive(h2),
            forall|h2: TurretHandle| h2 != h && old(self).alive(h2) ==> final(self).turret_of(h2)
                == old(self).turret_of(h2),
    {
        let n = self.slots.len();
        let mut i: usize = 0;
        while i < n
            invariant
                self == old(self),
                n == self.slots@.len(),
                0 <= i <= n,
            decreases n - i,
        {
            let vacant = self.slots[i].turret.is_none();
            let reusable = self.slots[i].generation < u64::MAX;
            if vacant && reusable {
                let generation = self.slots[i].generation;
                let slot = &mut self.slots[i];
                slot.turret = Option::Some(t);
                return TurretHandle { index: i, generation };
            }
            i += 1;
        }
        let h = TurretHandle { index: n, generation: 0 };
        self.slots.push(TurretSlot { generation: 0, turret: Option::Some(t) });
        h
    }

    /// Destroys the emitter a handle designates, if it is still alive, and
    /// reports whether it was. The handle is dead afterwards; every other
    /// handle keeps its liveness and its emitter.
    pub fn destroy(&mut self, h: TurretHandle) -> (was_alive: bool)
        ensures
            was_alive == old(self).alive(h),
            !final(self).alive(h),
            forall|h2: TurretHandle| h2 != h ==> final(self).alive(h2) == old(self).alive(h2),
            forall|h2: TurretHandle| h2 != h && old(self).alive(h2) ==> final(self).turret_of(h2)
                == old(self).turret_of(h2),
    {
        if h.index >= self.slots.len() {
            return false;
        }
        if self.slots[h.index].generation != h.generation || self.slots[h.index].turret.is_none() {
            return false;
        }
        let slot = &mut self.slots[h.index];
        slot.turret = Option::None;
        if slot.generation < u64::MAX {
            slot.generation = slot.generation + 1;
        }
        true
    }

    /// Resolves a handle: the emitter if it is still alive, or `None` — the
    /// explicit "gone" answer — once it has been destroyed.
    pub fn lookup(&self, h: TurretHandle) -> (t: Option<&Turret>)
        ensures
            match t {
                Option::Some(tr) => self.alive(h) && *tr == self.turret_of(h),
                Option::None => !self.alive(h),
            },
    {
        if h.index >= self.slots.len() {
            return Option::None;
        }
        if self.slots[h.index].generation != h.generation {
            return Option::None;
        }
        self.slots[h.index].turret.as_ref()
    }

    /// Spawns an event from the emitter a handle designates: the event
    /// copies the emitter's template and position, aims at the target, and
    /// is not yet scheduled to arrive. A destroyed emitter degrades to
    /// `None`, never to a fault.
    pub fn spawn(&self, h: TurretHandle, target_position: Vec2) -> (p: Option<TurretProjectile>)
        ensures
            p is Some <==> self.alive(h),
            p matches Option::Some(pr) ==> {
                &&& pr.shooter == h
                &&& pr.definition == self.turret_of(h).projectile
                &&& pr.position == self.turret_of(h).position
                &&& pr.target_position == target_position
                &&& pr.arrival_time is None
                &&& pr.clock == 0
                &&& pr.wf()
                &&& pr.state() == EventState::Traveling
            },
    {
        match self.lookup(h) {
            Option::Some(turret) => Option::Some(
                TurretProjectile {
                    shooter: h,
                    definition: turret.projectile,
                    position: turret.position,
                    target_position,
                    arrival_time: Option::None,
                    clock: 0,
                },
            ),
            Option::None => Option::None,
        }
    }
}

/// A scheduled event: the template copied at spawn time, its current and
/// target positions, the instant it arrived (or "not yet scheduled"), the
/// handle of the emitter it came from, and the simulation instant it has
/// been advanced to.
#[derive(Clone, Copy, PartialEq, Eq, Structural, Debug)]
pub struct TurretProjectile {
    pub shooter: TurretHandle,
    pub definition: TurretProjectileDefinition,
    pub position: Vec2,
    pub target_position: Vec2,
    pub arrival_time: Option<u64>,
    /// The event's own simulation clock: the sum of all elapsed time it has
    /// been advanced by since it was spawned.
    pub clock: u64,
}

/// Moving one coordinate from `x` toward `target` by at most `step`:
/// constant-speed linear travel, clamped at the target.
pub open spec fn step_toward(x: int, target: int, step: int) -> int {
    if target >= x {
        if target - x <= step {
            target
        } else {
            x + step
        }
    } else {
        if x - target <= step {
            target
        } else {
            x - step
        }
    }
}

/// The distance an event covers in `elapsed` time at `speed`, saturated at
/// the largest representable distance (which already exceeds any possible
/// remaining distance).
pub open spec fn travel_distance(speed: u64, elapsed: u64) -> u64 {
    if speed * elapsed > u64::MAX {
        u64::MAX
    } else {
        (speed * elapsed) as u64
    }
}

impl TurretProjectile {
    /// Well-formedness: once the arrival time is set it lies in the past of
    /// the event's clock, and the event stands at its target.
    pub open spec fn wf(self) -> bool {
        self.arrival_time matches Option::Some(a) ==> a <= self.clock && self.position
            == self.target_position
    }

    /// The phase the event is in. An event expires once its linger duration
    /// has elapsed past arrival — and never on the instant of arrival
    /// itself, so a zero linger still passes through `Arrived`.
    pub open spec fn state(self) -> EventState {
        match self.arrival_time {
            Option::None => EventState::Traveling,
            Option::Some(a) => {
                if self.clock >= a + self.definition.linger && self.clock > a {
                    EventState::Expired
                } else {
                    EventState::Arrived
                }
            },
        }
    }

    /// What `advance` does to an event: the clock moves by `elapsed`; while
    /// traveling, the position moves toward the target at the template's
    /// travel speed along each axis, and reaching the target sets the
    /// arrival time to the instant the step ends; after arrival nothing but
    /// the clock changes.
    pub open spec fn advanced(self, elapsed: u64) -> TurretProjectile
        recommends
            self.wf(),
            self.clock + elapsed <= u64::MAX,
    {
        let t = (self.clock + elapsed) as u64;
        match self.arrival_time {
            Option::Some(_) => TurretProjectile {
                shooter: self.shooter,
                definition: self.definition,
                position: self.position,
                target_position: self.target_position,
                arrival_time: self.arrival_time,
                clock: t,
            },
            Option::None => {
                let step = travel_distance(self.definition.travel_speed, elapsed);
                let np = Vec2 {
                    x: step_toward(self.position.x as int, self.target_position.x as int, step as int) as i64,
                    y: step_toward(self.position.y as int, self.target_position.y as int, step as int) as i64,
                };
                TurretProjectile {
                    shooter: self.shooter,
                    definition: self.definition,
                    position: np,
                    target_position: self.target_position,
                    arrival_time: if np == self.target_position {
                        Option::Some(t)
                    } else {
                        Option::None
                    },
                    clock: t,
                }
            },
        }
    }

    /// The phase the event is in, computed.
    pub fn current_state(&self) -> (s: EventState)
        requires
            self.wf(),
        ensures
            s == self.state(),
    {
        match self.arrival_time {
            Option::None => EventState::Traveling,
            Option::Some(a) => {
                if self.clock > a && self.clock - a >= self.definition.linger {
                    EventState::Expired
                } else {
                    EventState::Arrived
                }
            },
        }
    }

    /// Advances the event by `elapsed` time and reports the phase it ends
    /// in. The phase only ever moves forward along `Traveling -> Arrived ->
    /// Expired`, one step at a time, and the template, the target and the
    /// emitter handle never change.
    pub fn advance(&mut self, elapsed: u64) -> (s: EventState)
        requires
            old(self).wf(),
            old(self).clock + elapsed <= u64::MAX,
        ensures
            final(self).wf(),
            *final(self) == old(self).advanced(elapsed),
            s == final(self).state(),
            final(self).state().rank() >= old(self).state().rank(),
            final(self).state().rank() <= old(self).state().rank() + 1,
            final(self).shooter == old(self).shooter,
            final(self).definition == old(self).definition,
            final(self).target_position == old(self).target_position,
            old(self).arrival_time is Some ==> final(self).arrival_time == old(self).arrival_time
                && final(self).position == old(self).position,
    {
        let new_clock = self.clock + elapsed;
        self.clock = new_clock;
        match self.arrival_time {
            Option::Some(_) => {},
            Option::None => {
                let step = match self.definition.travel_speed.checked_mul(elapsed) {
                    Option::Some(d) => d,
                    Option::None => u64::MAX,
                };
                let nx = step_axis(self.position.x, self.target_position.x, step);
                let ny = step_axis(self.position.y, self.target_position.y, step);
                self.position = Vec2 { x: nx, y: ny };
                if nx == self.target_position.x && ny == self.target_position.y {
                    self.arrival_time = Option::Some(new_clock);
                }
            },
        }
        self.current_state()
    }

    /// Attribution lookup: the emitter this event came from, if it is still
    /// alive, or `None` — the explicit "origin gone" answer — once it has
    /// been destroyed. Never a dangling access.
    pub fn origin<'a>(&self, arena: &'a TurretArena) -> (t: Option<&'a Turret>)
        ensures
            match t {
                Option::Some(tr) => arena.alive(self.shooter) && *tr == arena.turret_of(
                    self.shooter,
                ),
                Option::None => !arena.alive(self.shooter),
            },
    {
        arena.lookup(self.shooter)
    }
}

/// Emitter destruction: destroying one emitter — whose outcome is exactly
/// what `destroy` ensures — leaves the destroyed handle dead, so `origin`
/// on every event it previously spawned is owed the "gone" answer, while
/// every other emitter keeps its liveness and its value. The event itself
/// is a plain value the arena never touches, so its template and positions
/// are unchanged by construction.
pub proof fn lemma_emitter_destruction(
    pre: TurretArena,
    post: TurretArena,
    h: TurretHandle,
    p: TurretProjectile,
)
    requires
        !post.alive(h),
        forall|h2: TurretHandle| h2 != h ==> post.alive(h2) == pre.alive(h2),
        forall|h2: TurretHandle| h2 != h && pre.alive(h2) ==> post.turret_of(h2) == pre.turret_of(
            h2,
        ),
        p.shooter == h,
    ensures
        !post.alive(p.shooter),
        forall|h2: TurretHandle| h2 != h && pre.alive(h2) ==> post.alive(h2) && post.turret_of(h2)
            == pre.turret_of(h2),
{
}

/// One `advance` step never moves an event's phase backward, and never
/// skips a phase: the rank along `Traveling -> Arrived -> Expired` grows by
/// at most one.
pub proof fn lemma_advance_step(p: TurretProjectile, elapsed: u64)
    requires
        p.wf(),
        p.clock + elapsed <= u64::MAX,
    ensures
        p.advanced(elapsed).wf(),
        p.advanced(elapsed).clock == p.clock + elapsed,
        p.advanced(elapsed).state().rank() >= p.state().rank(),
        p.advanced(elapsed).state().rank() <= p.state().rank() + 1,
{
}

/// An event's phase after any sequence of `advance` steps.
pub open spec fn advanced_seq(p: TurretProjectile, elapsed_times: Seq<u64>) -> TurretProjectile
    decreases elapsed_times.len(),
{
    if elapsed_times.len() == 0 {
        p
    } else {
        advanced_seq(p.advanced(elapsed_times[0]), elapsed_times.skip(1))
    }
}

/// The total time a sequence of `advance` steps covers.
pub open spec fn total_elapsed(elapsed_times: Seq<u64>) -> int
    decreases elapsed_times.len(),
{
    if elapsed_times.len() == 0 {
        0
    } else {
        elapsed_times[0] + total_elapsed(elapsed_times.skip(1))
    }
}

/// Event state monotonicity: under every sequence of elapsed times, an
/// event's phase only ever moves forward along `Traveling -> Arrived ->
/// Expired` — it never revisits `Traveling` after `Arrived` — and each
/// single step advances the phase by at most one, so no phase is skipped.
pub proof fn lemma_event_state_monotonic(p: TurretProjectile, elapsed_times: Seq<u64>)
    requires
        p.wf(),
        p.clock + total_elapsed(elapsed_times) <= u64::MAX,
    ensures
        advanced_seq(p, elapsed_times).wf(),
        advanced_seq(p, elapsed_times).clock == p.clock + total_elapsed(elapsed_times),
        advanced_seq(p, elapsed_times).state().rank() >= p.state().rank(),
    decreases elapsed_times.len(),
{
    if elapsed_times.len() > 0 {
        assert(total_elapsed(elapsed_times.skip(1)) >= 0) by {
            lemma_total_elapsed_nonneg(elapsed_times.skip(1));
        }
        lemma_advance_step(p, elapsed_times[0]);
        lemma_event_state_monotonic(p.advanced(elapsed_times[0]), elapsed_times.skip(1));
    }
}

/// A total of elapsed times is never negative.
proof fn lemma_total_elapsed_nonneg(elapsed_times: Seq<u64>)
    ensures
        total_elapsed(elapsed_times) >= 0,
    decreases elapsed_times.len(),
{
    if elapsed_times.len() > 0 {
        lemma_total_elapsed_nonneg(elapsed_times.skip(1));
    }
}

/// Moves one coordinate toward the target by at most `step`.
fn step_axis(x: i64, target: i64, step: u64) -> (r: i64)
    ensures
        r == step_toward(x as int, target as int, step as int),
{
    if target >= x {
        let d: u64 = ((target as i128) - (x as i128)) as u64;
        if d <= step {
            target
        } else {
            ((x as i128) + (step as i128)) as i64
        }
    } else {
        let d: u64 = ((x as i128) - (target as i128)) as u64;
        if d <= step {
            target
        } else {
            ((x as i128) - (step as i128)) as i64
        }
    }
}

} // verus!
