//! Fixed-timestep scheduler: turns variable frame deltas into a whole number
//! of fixed simulation steps, carrying the remainder over to the next frame.
//!
//! Time is counted in nanoseconds.
use vstd::prelude::*;

verus! {

/// The phases of one pass of the physics pipeline, in the order in which
/// they run.
#[derive(Clone, Copy, Debug, PartialEq, Eq, Structural)]
pub enum PhysicsUpdateStep {
    ClearEvents,
    UserCode,
    SyncToPhysicsWorld,
    ApplyForces,
    Step,
    SyncFromPhysicsWorld,
}

/// Position of a phase within one pass.
pub open spec fn phase_rank(p: PhysicsUpdateStep) -> nat {
    match p {
        PhysicsUpdateStep::ClearEvents => 0,
        PhysicsUpdateStep::UserCode => 1,
        PhysicsUpdateStep::SyncToPhysicsWorld => 2,
        PhysicsUpdateStep::ApplyForces => 3,
        PhysicsUpdateStep::Step => 4,
        PhysicsUpdateStep::SyncFromPhysicsWorld => 5,
    }
}

impl PhysicsUpdateStep {
    /// The phase that runs after this one within a pass, or `None` after
    /// the last phase.
    pub fn next(self) -> (r: Option<PhysicsUpdateStep>)
        ensures
            self == PhysicsUpdateStep::SyncFromPhysicsWorld <==> r is None,
            r matches Some(n) ==> phase_rank(n) == phase_rank(self) + 1,
    {
        match self {
            PhysicsUpdateStep::ClearEvents => Some(PhysicsUpdateStep::UserCode),
            PhysicsUpdateStep::UserCode => Some(PhysicsUpdateStep::SyncToPhysicsWorld),
            PhysicsUpdateStep::SyncToPhysicsWorld => Some(PhysicsUpdateStep::ApplyForces),
            PhysicsUpdateStep::ApplyForces => Some(PhysicsUpdateStep::Step),
            PhysicsUpdateStep::Step => Some(PhysicsUpdateStep::SyncFromPhysicsWorld),
            PhysicsUpdateStep::SyncFromPhysicsWorld => None,
        }
    }
}

/// Nanoseconds in a second.
pub const NANOS_PER_SECOND: u64 = 1_000_000_000;

/// Accumulates elapsed frame time and hands out fixed steps.
///
/// The step is given as a rate, in steps per second, so that steps such as
/// 1/60 s are exact. Time is accumulated in step-nanoseconds (nanoseconds
/// times the rate): one step is `NANOS_PER_SECOND` of them.
pub struct PhysicsClock {
    steps_per_second: u64,
    max_frame_delta: u64,
    accumulator: u128,
}

impl PhysicsClock {
    pub closed spec fn spec_steps_per_second(&self) -> nat {
        self.steps_per_second as nat
    }

    pub closed spec fn spec_max_frame_delta(&self) -> nat {
        self.max_frame_delta as nat
    }

    /// The time carried over, in step-nanoseconds.
    pub closed spec fn spec_accumulator(&self) -> nat {
        self.accumulator as nat
    }

    /// A positive rate of at most one step per nanosecond, and a leftover
    /// of less than one step.
    pub open spec fn wf(&self) -> bool {
        &&& 0 < self.spec_steps_per_second() <= NANOS_PER_SECOND
        &&& self.spec_accumulator() < NANOS_PER_SECOND
    }

    /// A clock with an empty accumulator, running `steps_per_second` steps
    /// per second of elapsed time, and taking at most `max_frame_delta`
    /// nanoseconds of any one frame into account.
    pub fn new(steps_per_second: u64, max_frame_delta: u64) -> (r: PhysicsClock)
        requires
            0 < steps_per_second <= NANOS_PER_SECOND,
        ensures
            r.wf(),
            r.spec_steps_per_second() == steps_per_second,
            r.spec_max_frame_delta() == max_frame_delta,
            r.spec_accumulator() == 0,
    {
        PhysicsClock { steps_per_second, max_frame_delta, accumulator: 0 }
    }

    pub fn steps_per_second(&self) -> (r: u64)
        ensures
            r == self.spec_steps_per_second(),
    {
        self.steps_per_second
    }

    pub fn max_frame_delta(&self) -> (r: u64)
        ensures
            r == self.spec_max_frame_delta(),
    {
        self.max_frame_delta
    }

    /// Time carried over after the last whole step, in step-nanoseconds;
    /// divided by `NANOS_PER_SECOND` it is the fraction of a step that has
    /// elapsed, for interpolating between the last two snapshots.
    pub fn accumulator(&self) -> (r: u128)
        ensures
            r == self.spec_accumulator(),
    {
        self.accumulator
    }

    /// Time carried over after the last whole step, in whole nanoseconds.
    pub fn leftover_nanos(&self) -> (r: u64)
        requires
            self.wf(),
        ensures
            r == self.spec_accumulator() / self.spec_steps_per_second(),
    {
        let q: u128 = self.accumulator / (self.steps_per_second as u128);
        proof {
            let a = self.accumulator as int;
            let s = self.steps_per_second as int;
            assert(a / s <= a) by (nonlinear_arith)
                requires s >= 1, a >= 0;
        }
        q as u64
    }

    /// Adds one frame's elapsed time (in nanoseconds), clamped to the
    /// maximum frame delta, and returns how many fixed steps are now due;
    /// the remainder stays in the accumulator.
    pub fn advance(&mut self, frame_delta: u64) -> (passes: u64)
        requires
            old(self).wf(),
        ensures
            final(self).wf(),
            final(self).spec_steps_per_second() == old(self).spec_steps_per_second(),
            final(self).spec_max_frame_delta() == old(self).spec_max_frame_delta(),
            passes == (old(self).spec_accumulator() + clamp_delta(
                frame_delta as nat,
                old(self).spec_max_frame_delta(),
            ) * old(self).spec_steps_per_second()) / (NANOS_PER_SECOND as nat),
            final(self).spec_accumulator() == (old(self).spec_accumulator() + clamp_delta(
                frame_delta as nat,
                old(self).spec_max_frame_delta(),
            ) * old(self).spec_steps_per_second()) % (NANOS_PER_SECOND as nat),
    {
        let delta: u64 = if frame_delta < self.max_frame_delta {
            frame_delta
        } else {
            self.max_frame_delta
        };
        let rate: u128 = self.steps_per_second as u128;
        proof {
            let d = delta as int;
            let r = rate as int;
            assert(d * r <= (u64::MAX as int) * 1_000_000_000) by (nonlinear_arith)
                requires 0 <= d <= u64::MAX as int, 0 <= r <= 1_000_000_000;
        }
        let scaled: u128 = delta as u128 * rate;
        let total: u128 = self.accumulator + scaled;
        let second: u128 = NANOS_PER_SECOND as u128;
        let q: u128 = total / second;
        let rem: u128 = total % second;
        proof {
            let t = total as int;
            let d = delta as int;
            let r = rate as int;
            let a = self.accumulator as int;
            assert(t < 1_000_000_000 * (d + 1)) by (nonlinear_arith)
                requires t == a + d * r, 0 <= a < 1_000_000_000, 0 <= r <= 1_000_000_000, d >= 0;
            assert(t / 1_000_000_000 <= d) by (nonlinear_arith)
                requires t < 1_000_000_000 * (d + 1), t >= 0, d >= 0;
        }
        self.accumulator = rem;
        q as u64
    }
}

/// A clock that is well formed carries over less than one step of time.
pub proof fn lemma_leftover_below_one_step(c: PhysicsClock)
    requires
        c.wf(),
    ensures
        c.spec_accumulator() < NANOS_PER_SECOND,
        c.spec_accumulator() / c.spec_steps_per_second() * c.spec_steps_per_second()
            < NANOS_PER_SECOND,
{
    let a = c.spec_accumulator() as int;
    let s = c.spec_steps_per_second() as int;
    assert(a / s * s <= a) by (nonlinear_arith)
        requires s >= 1, a >= 0;
}

/// From an empty accumulator, a frame (within the clamp) that lasts exactly
/// `k` steps runs `k` passes and leaves nothing over; with 60 steps per
/// second, a 50 ms frame is exactly 3 steps.
pub proof fn lemma_whole_steps_leave_nothing(c: PhysicsClock, frame_delta: nat, k: nat)
    requires
        c.wf(),
        c.spec_accumulator() == 0,
        frame_delta <= c.spec_max_frame_delta(),
        frame_delta * c.spec_steps_per_second() == k * NANOS_PER_SECOND,
    ensures
        (c.spec_accumulator() + clamp_delta(frame_delta, c.spec_max_frame_delta())
            * c.spec_steps_per_second()) / (NANOS_PER_SECOND as nat) == k,
        (c.spec_accumulator() + clamp_delta(frame_delta, c.spec_max_frame_delta())
            * c.spec_steps_per_second()) % (NANOS_PER_SECOND as nat) == 0,
{
    assert(clamp_delta(frame_delta, c.spec_max_frame_delta()) == frame_delta);
    let t = (k * NANOS_PER_SECOND) as int;
    assert(t / 1_000_000_000 == k) by (nonlinear_arith)
        requires t == k * 1_000_000_000;
    assert(t % 1_000_000_000 == 0) by (nonlinear_arith)
        requires t == k * 1_000_000_000;
}

/// A frame delta limited by the catch-up clamp.
pub open spec fn clamp_delta(delta: nat, max: nat) -> nat {
    if delta < max {
        delta
    } else {
        max
    }
}

} // verus!
