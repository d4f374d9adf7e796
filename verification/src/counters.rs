//! Counters of what a step did and how long it took.
//!
//! The counters are reset when a step starts, fed while it runs, and marked
//! as completed when it ends. Nothing else writes to them.

use crate::pipeline::substep::total;
use vstd::prelude::*;

verus! {

/// A point in time, as the clock of the machine gives it.
#[verifier::external_type_specification]
#[verifier::external_body]
pub struct ExInstant(std::time::Instant);

/// Reads the clock: `instant::Instant::now`. Nothing is claimed of the
/// result, which differs from call to call.
#[verifier::external_body]
fn clock_now() -> (now: std::time::Instant) {
    instant::Instant::now()
}

/// Time that has passed since `start`: `Instant::elapsed`. Nothing is
/// claimed of the result, which depends on the clock.
#[verifier::external_body]
fn elapsed_since(start: &std::time::Instant) -> (elapsed: std::time::Duration) {
    start.elapsed()
}

/// Whole microseconds in `duration`: `Duration::as_micros`. Nothing is
/// claimed of the result.
#[verifier::external_body]
fn whole_micros(duration: &std::time::Duration) -> (micros: u128) {
    duration.as_micros()
}

/// A stopwatch that adds up the time between its resumptions and its pauses.
pub struct Timer {
    /// Microseconds measured so far; it stops counting at the largest value.
    pub time: u64,
    /// When the stopwatch was last resumed, while it runs.
    pub start: Option<std::time::Instant>,
}

impl Timer {
    /// Whether the stopwatch runs.
    pub open spec fn running(self) -> bool {
        self.start is Some
    }

    /// A stopwatch at zero that does not run.
    pub fn new() -> (timer: Timer)
        ensures
            timer.time == 0,
            !timer.running(),
    {
        Timer { time: 0, start: None }
    }

    /// Brings the stopwatch back to zero and stops it.
    pub fn reset(&mut self)
        ensures
            final(self).time == 0,
            !final(self).running(),
    {
        self.time = 0;
        self.start = None;
    }

    /// Starts measuring from zero.
    pub fn start(&mut self)
        ensures
            final(self).time == 0,
            final(self).running(),
    {
        self.time = 0;
        self.start = Some(clock_now());
    }

    /// Goes on measuring, from now.
    pub fn resume(&mut self)
        ensures
            final(self).time == old(self).time,
            final(self).running(),
    {
        self.start = Some(clock_now());
    }

    /// Stops measuring and adds what was measured since the stopwatch was
    /// last resumed. A stopwatch that does not run is left as it is.
    pub fn pause(&mut self)
        ensures
            final(self).time >= old(self).time,
            !old(self).running() ==> final(self).time == old(self).time,
            !final(self).running(),
    {
        match &self.start {
            Some(start) => {
                let elapsed = elapsed_since(start);
                let micros: u128 = whole_micros(&elapsed);
                let room: u64 = u64::MAX - self.time;
                if micros < room as u128 {
                    self.time = self.time + micros as u64;
                } else {
                    self.time = u64::MAX;
                }
            },
            None => {},
        }
        self.start = None;
    }

    /// Microseconds measured so far.
    pub fn time(&self) -> (micros: u64)
        ensures
            micros == self.time,
    {
        self.time
    }
}

/// How long the stages of a step took.
pub struct StagesCounters {
    /// Applying gravity and refreshing mass properties.
    pub update_time: Timer,
    pub collision_detection_time: Timer,
    pub island_construction_time: Timer,
    pub solver_time: Timer,
    pub ccd_time: Timer,
}

/// How long the two phases of collision detection took.
pub struct CollisionDetectionCounters {
    pub broad_phase_time: Timer,
    pub narrow_phase_time: Timer,
}

/// What continuous collision detection made of a step.
pub struct CCDCounters {
    /// The lengths, in ticks, of the substeps that the step was cut into.
    pub substep_lengths: Vec<u64>,
}

/// The counters of a pipeline.
pub struct Counters {
    /// Whether the whole step is timed.
    pub enabled: bool,
    /// Whether the last step ran to its end.
    pub completed: bool,
    pub step_time: Timer,
    pub stages: StagesCounters,
    pub cd: CollisionDetectionCounters,
    pub ccd: CCDCounters,
}

impl Counters {
    /// Whether none of the stopwatches of the stages runs.
    pub open spec fn stages_at_rest(self) -> bool {
        &&& !self.stages.update_time.running()
        &&& !self.stages.collision_detection_time.running()
        &&& !self.stages.island_construction_time.running()
        &&& !self.stages.solver_time.running()
        &&& !self.stages.ccd_time.running()
        &&& !self.cd.broad_phase_time.running()
        &&& !self.cd.narrow_phase_time.running()
    }

    /// Whether every stopwatch stands at zero.
    pub open spec fn zeroed(self) -> bool {
        &&& self.step_time.time == 0
        &&& self.stages.update_time.time == 0
        &&& self.stages.collision_detection_time.time == 0
        &&& self.stages.island_construction_time.time == 0
        &&& self.stages.solver_time.time == 0
        &&& self.stages.ccd_time.time == 0
        &&& self.cd.broad_phase_time.time == 0
        &&& self.cd.narrow_phase_time.time == 0
    }

    /// Whether no stopwatch runs.
    pub open spec fn at_rest(self) -> bool {
        !self.step_time.running() && self.stages_at_rest()
    }

    /// The lengths, in ticks, of the substeps that the last step was cut into.
    pub open spec fn substeps(self) -> Seq<u64> {
        self.ccd.substep_lengths@
    }

    /// What the counters tell of the step besides durations: whether they
    /// time it, whether it is under way, whether it ran to its end, and the
    /// substeps that it has taken.
    pub open spec fn progress(self) -> (bool, bool, bool, Seq<u64>) {
        (self.enabled, self.step_time.running(), self.completed, self.substeps())
    }

    /// Counters that have counted nothing.
    pub fn new(enabled: bool) -> (counters: Counters)
        ensures
            counters.enabled == enabled,
            !counters.completed,
            counters.at_rest(),
            counters.zeroed(),
            counters.substeps().len() == 0,
    {
        Counters {
            enabled,
            completed: false,
            step_time: Timer::new(),
            stages: StagesCounters {
                update_time: Timer::new(),
                collision_detection_time: Timer::new(),
                island_construction_time: Timer::new(),
                solver_time: Timer::new(),
                ccd_time: Timer::new(),
            },
            cd: CollisionDetectionCounters {
                broad_phase_time: Timer::new(),
                narrow_phase_time: Timer::new(),
            },
            ccd: CCDCounters { substep_lengths: Vec::new() },
        }
    }

    /// Forgets what was counted.
    pub fn reset(&mut self)
        ensures
            final(self).enabled == old(self).enabled,
            !final(self).completed,
            final(self).at_rest(),
            final(self).zeroed(),
            final(self).substeps().len() == 0,
    {
        self.completed = false;
        self.step_time.reset();
        self.stages.update_time.reset();
        self.stages.collision_detection_time.reset();
        self.stages.island_construction_time.reset();
        self.stages.solver_time.reset();
        self.stages.ccd_time.reset();
        self.cd.broad_phase_time.reset();
        self.cd.narrow_phase_time.reset();
        self.ccd.substep_lengths.clear();
    }

    /// Notes that a step starts; the step is timed if the counters are enabled.
    pub fn step_started(&mut self)
        ensures
            final(self).progress() == (
                old(self).enabled,
                old(self).enabled || old(self).step_time.running(),
                old(self).completed,
                old(self).substeps(),
            ),
            final(self).stages_at_rest() == old(self).stages_at_rest(),
    {
        if self.enabled {
            self.step_time.start();
        }
    }

    /// Notes that a step has run to its end.
    pub fn step_completed(&mut self)
        ensures
            final(self).progress() == (old(self).enabled, false, true, old(self).substeps()),
            final(self).stages_at_rest() == old(self).stages_at_rest(),
    {
        self.step_time.pause();
        self.completed = true;
    }

    /// Notes a substep of `dt` ticks.
    pub fn substep_taken(&mut self, dt: u64)
        ensures
            final(self).progress() == (
                old(self).enabled,
                old(self).step_time.running(),
                old(self).completed,
                old(self).substeps().push(dt),
            ),
            total(final(self).substeps()) == total(old(self).substeps()) + dt,
            final(self).stages_at_rest() == old(self).stages_at_rest(),
    {
        self.ccd.substep_lengths.push(dt);
        proof {
            assert(self.substeps().drop_last() =~= old(self).substeps());
        }
    }

    /// Number of substeps that the last step was cut into.
    pub fn num_substeps(&self) -> (n: usize)
        ensures
            n == self.substeps().len(),
    {
        self.ccd.substep_lengths.len()
    }

    /// Ticks that the substeps of the last step cover together; the largest
    /// value that fits if they cover more.
    pub fn simulated_time(&self) -> (ticks: u64)
        ensures
            ticks == if total(self.substeps()) <= u64::MAX {
                total(self.substeps())
            } else {
                u64::MAX as int
            },
    {
        let n: usize = self.ccd.substep_lengths.len();
        let mut sum: u128 = 0;
        let mut i: usize = 0;
        assert(self.substeps().take(0) =~= Seq::<u64>::empty());
        while i < n
            invariant
                i <= n,
                n == self.substeps().len(),
                sum == total(self.substeps().take(i as int)),
                sum <= i * u64::MAX,
            decreases n - i,
        {
            proof {
                crate::sequences::lemma_take_step(self.substeps(), i as int);
                assert(i * u64::MAX + u64::MAX == (i + 1) * u64::MAX) by (nonlinear_arith);
                assert((i + 1) * u64::MAX <= usize::MAX * u64::MAX) by (nonlinear_arith)
                    requires
                        i + 1 <= usize::MAX,
                ;
            }
            sum = sum + self.ccd.substep_lengths[i] as u128;
            i = i + 1;
        }
        proof {
            crate::sequences::lemma_take_all(self.substeps());
        }
        if sum <= u64::MAX as u128 {
            sum as u64
        } else {
            u64::MAX
        }
    }
}

} // verus!
