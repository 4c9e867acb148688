//! When a running simulation records a frame, and how many frames a run
//! of the simulation records.

use vstd::prelude::*;

verus! {

/// The number of snapshots a run of `total_iterations` steps is expected
/// to record with one frame every `frame_interval` steps: the quotient
/// rounded up, the capacity that the collector of a run reserves.
pub open spec fn expected_snapshots_spec(total_iterations: usize, frame_interval: usize) -> int {
    (total_iterations + frame_interval - 1) / frame_interval as int
}

/// The expected number of snapshots is the least number of frames, one
/// every `frame_interval` steps, that covers all the steps.
pub proof fn lemma_expected_snapshots_cover(total_iterations: usize, frame_interval: usize)
    requires
        frame_interval > 0,
    ensures
        expected_snapshots_spec(total_iterations, frame_interval) * frame_interval >= total_iterations,
        (expected_snapshots_spec(total_iterations, frame_interval) - 1) * frame_interval < total_iterations
            || total_iterations == 0 && expected_snapshots_spec(total_iterations, frame_interval) == 0,
{
    let t = total_iterations as int;
    let f = frame_interval as int;
    let e = expected_snapshots_spec(total_iterations, frame_interval);
    assert(e * f >= t && ((e - 1) * f < t || t == 0 && e == 0)) by (nonlinear_arith)
        requires
            e == (t + f - 1) / f,
            f > 0,
            t >= 0,
    ;
}

/// The number of snapshots that a run is expected to record.
pub fn expected_snapshot_count(total_iterations: usize, frame_interval: usize) -> (n: usize)
    requires
        frame_interval > 0,
        total_iterations + frame_interval <= usize::MAX,
    ensures
        n == expected_snapshots_spec(total_iterations, frame_interval),
{
    (total_iterations + frame_interval - 1) / frame_interval
}

/// The number of the steps `1..=steps` after which a frame is recorded,
/// that is, of the multiples of `frame_interval` among them.
pub open spec fn frames_after(steps: nat, frame_interval: nat) -> nat
    decreases steps,
{
    if steps == 0 {
        0
    } else {
        frames_after((steps - 1) as nat, frame_interval) + if steps % frame_interval == 0 {
            1nat
        } else {
            0nat
        }
    }
}

/// A run of `steps` steps records `steps / frame_interval` frames, never
/// more than the snapshots its collector reserves room for.
pub proof fn lemma_frames_of_run(steps: nat, frame_interval: nat)
    requires
        frame_interval > 0,
    ensures
        frames_after(steps, frame_interval) == steps / frame_interval,
        frames_after(steps, frame_interval) <= (steps + frame_interval - 1) / (
        frame_interval as int),
    decreases steps,
{
    if steps > 0 {
        lemma_frames_of_run((steps - 1) as nat, frame_interval);
        let s = steps as int;
        let f = frame_interval as int;
        assert(s / f == (s - 1) / f + (if s % f == 0 {
            1int
        } else {
            0int
        })) by (nonlinear_arith)
            requires
                f > 0,
                s > 0,
        ;
    }
    let s = steps as int;
    let f = frame_interval as int;
    assert(s / f <= (s + f - 1) / f) by (nonlinear_arith)
        requires
            f > 0,
            s >= 0,
    ;
}

/// The step counter of a simulation run: how many of its steps are done,
/// and whether the step just done is one after which a frame is recorded.
pub struct RunClock {
    step_count: usize,
    total_iterations: usize,
    frame_interval: usize,
}

impl RunClock {
    #[verifier::type_invariant]
    spec fn well_formed(self) -> bool {
        &&& self.step_count <= self.total_iterations
    }

    /// The steps done so far.
    pub closed spec fn steps_done(self) -> nat {
        self.step_count as nat
    }

    /// The steps of the whole run.
    pub closed spec fn total_steps(self) -> nat {
        self.total_iterations as nat
    }

    /// A frame is recorded after every step whose number is a multiple of this.
    pub closed spec fn interval(self) -> nat {
        self.frame_interval as nat
    }

    /// A clock for a run of `total_iterations` steps that records a frame
    /// every `frame_interval` steps, before its first step.
    pub fn new(total_iterations: usize, frame_interval: usize) -> (c: Self)
        ensures
            c.steps_done() == 0,
            c.total_steps() == total_iterations,
            c.interval() == frame_interval,
    {
        RunClock { step_count: 0, total_iterations, frame_interval }
    }

    /// The steps done so far.
    pub fn step_count(&self) -> (n: usize)
        ensures
            n == self.steps_done(),
    {
        self.step_count
    }

    /// Whether every step of the run is done.
    pub fn is_finished(&self) -> (done: bool)
        ensures
            done == (self.steps_done() == self.total_steps()),
    {
        self.step_count == self.total_iterations
    }

    /// Counts one more step done, and tells whether a frame is recorded
    /// after it: when the count of steps done is a multiple of the interval
    /// (which must not be zero).
    pub fn advance(&mut self) -> (record_frame: bool)
        requires
            old(self).steps_done() < old(self).total_steps(),
            old(self).interval() > 0,
        ensures
            final(self).steps_done() == old(self).steps_done() + 1,
            final(self).total_steps() == old(self).total_steps(),
            final(self).interval() == old(self).interval(),
            record_frame == (final(self).steps_done() % final(self).interval() == 0),
    {
        proof {
            use_type_invariant(&*self);
        }
        self.step_count = self.step_count + 1;
        self.step_count % self.frame_interval == 0
    }
}

} // verus!
