//! The simulation driver: the time loop and its diagnostics.
//!
//! A run starts at time zero. Each pass of the loop takes one integrator
//! step, adds the time step to the clock and counts the step; every tenth
//! step the energy is measured and a diagnostic record is produced, with
//! the drift relative to the energy of the initial state. The loop ends
//! when the clock is no longer below the end time.
use vstd::prelude::*;
use crate::body::same_population;
use crate::body::Body;
use crate::energy::energies;
use crate::energy::energy_report;
use crate::energy::EnergyReport;
use crate::force::accelerated;
use crate::force::acceleration;
use crate::force::contributions;
use crate::force::gathered;
use crate::force::reduced;
use crate::force::reduction_fault;
use crate::force::Gather;
use crate::force::GatherError;
use crate::integrator::all_kicked;
use crate::integrator::all_moved;
use crate::integrator::lemma_step_keeps_the_bodies;
use crate::integrator::stepped;
use crate::integrator::update_positions;
use crate::integrator::update_velocities;
use crate::scalar::Scalar;
use crate::vector::Vec3;

verus! {

/// A diagnostic record is produced whenever the step count is a multiple
/// of this.
pub const REPORT_EVERY: u64 = 10;

/// The parameters of a run. They are fixed when the simulation is made.
pub struct Config<S: Scalar> {
    /// The time step.
    pub dt: S,
    /// The run ends once the clock is no longer below this.
    pub t_end: S,
    /// The number of workers of the force engine.
    pub workers: usize,
}

impl<S: Scalar> Clone for Config<S> {
    fn clone(&self) -> (r: Self)
        ensures
            r == *self,
    {
        *self
    }
}

impl<S: Scalar> Copy for Config<S> {

}

/// Why a run could not be set up.
#[derive(Clone, Copy, Debug, PartialEq, Eq, Structural)]
pub enum SetupError {
    /// The force engine needs at least one worker.
    NoWorkers,
    /// The buffers supplied for the first force evaluation cannot be
    /// reduced.
    Forces(GatherError),
}

/// One diagnostic record.
#[derive(Debug)]
pub struct Diagnostic<S: Scalar> {
    /// The clock after the step that produced the record.
    pub t: S,
    pub total: S,
    pub kinetic: S,
    pub potential: S,
    /// `(total - total_0) / total_0`, with `total_0` the total energy of
    /// the initial state; zero for an empty store.
    pub drift: S,
}

impl<S: Scalar> Clone for Diagnostic<S> {
    fn clone(&self) -> (r: Self)
        ensures
            r == *self,
    {
        *self
    }
}

impl<S: Scalar> Copy for Diagnostic<S> {

}

/// What one pass of the loop did.
pub enum Progress<S: Scalar> {
    /// The end time had been reached: nothing was done.
    Finished,
    /// A step was taken.
    Advanced,
    /// A step was taken and a record was due.
    Reported(Diagnostic<S>),
}

/// The part of a simulation that changes: store, clock and step count.
pub ghost struct State<S: Scalar> {
    pub bodies: Seq<Body<S>>,
    pub t: S,
    pub step: nat,
}

/// The drift of `total` relative to `total_0` for a store of `count`
/// bodies: `(total - total_0) / total_0`. An empty store has no energy to
/// drift; its drift is zero, and nothing is divided.
pub open spec fn relative_drift<S: Scalar>(total: S, total_0: S, count: nat) -> S {
    if count == 0 {
        S::zero_value()
    } else {
        total.difference(total_0).quotient(total_0)
    }
}

/// The record on a store at time `t`, relative to the initial report.
pub open spec fn diagnostic<S: Scalar>(
    t: S,
    bodies: Seq<Body<S>>,
    initial: EnergyReport<S>,
) -> Diagnostic<S> {
    let report = energy_report(bodies);
    Diagnostic {
        t,
        total: report.total,
        kinetic: report.kinetic,
        potential: report.potential,
        drift: relative_drift(report.total, initial.total, bodies.len()),
    }
}

/// The clock has reached the end time.
pub open spec fn done<S: Scalar>(state: State<S>, config: Config<S>) -> bool {
    !state.t.below(config.t_end)
}

/// The state after the first half of a pass: every body moved.
pub open spec fn opened<S: Scalar>(state: State<S>, config: Config<S>) -> State<S> {
    State { bodies: all_moved(state.bodies, config.dt), ..state }
}

/// The state after the second half of a pass, given the buffers of the
/// force evaluation: the buffers are reduced into the accelerations, the
/// velocities are advanced, the clock moves on and the step is counted.
pub open spec fn closed<S: Scalar>(
    state: State<S>,
    config: Config<S>,
    buffers: Seq<Seq<Vec3<S>>>,
) -> State<S> {
    State {
        bodies: all_kicked(reduced(state.bodies, buffers), config.dt),
        t: state.t.sum(config.dt),
        step: state.step + 1,
    }
}

/// The state after one pass of the loop from a state that is not done.
pub open spec fn next<S: Scalar>(state: State<S>, config: Config<S>) -> State<S> {
    closed(
        opened(state, config),
        config,
        contributions(all_moved(state.bodies, config.dt), config.workers as int),
    )
}

/// A record is due after the step that brought the count to `step`.
pub open spec fn report_due(step: nat) -> bool {
    step % (REPORT_EVERY as nat) == 0
}

/// What a pass that ended in `state` has to show for itself.
pub open spec fn outcome<S: Scalar>(state: State<S>, initial: EnergyReport<S>) -> Progress<S> {
    if report_due(state.step) {
        Progress::Reported(diagnostic(state.t, state.bodies, initial))
    } else {
        Progress::Advanced
    }
}

/// The state after at most `passes` passes of the loop.
pub open spec fn after<S: Scalar>(state: State<S>, config: Config<S>, passes: nat) -> State<S>
    decreases passes,
{
    if passes == 0 {
        state
    } else {
        let before = after(state, config, (passes - 1) as nat);
        if done(before, config) {
            before
        } else {
            next(before, config)
        }
    }
}

/// The records produced by at most `passes` passes of the loop, in order.
pub open spec fn records<S: Scalar>(
    state: State<S>,
    config: Config<S>,
    initial: EnergyReport<S>,
    passes: nat,
) -> Seq<Diagnostic<S>>
    decreases passes,
{
    if passes == 0 {
        Seq::empty()
    } else {
        let before = after(state, config, (passes - 1) as nat);
        let so_far = records(state, config, initial, (passes - 1) as nat);
        if !done(before, config) && report_due(next(before, config).step) {
            so_far.push(
                diagnostic(next(before, config).t, next(before, config).bodies, initial),
            )
        } else {
            so_far
        }
    }
}

/// Why `start` turns a run down, if it does: no workers, or buffers that
/// cannot be reduced into a store of `length` bodies.
pub open spec fn setup_fault<S: Scalar>(
    workers: usize,
    forces: Seq<Option<Seq<Vec3<S>>>>,
    bodies: nat,
    length: usize,
) -> Option<SetupError> {
    if workers == 0 {
        Some(SetupError::NoWorkers)
    } else {
        match reduction_fault(forces, bodies, length) {
            Some(e) => Some(SetupError::Forces(e)),
            None => None,
        }
    }
}

/// A simulation in progress. It owns the store.
///
/// `advance` and `run` evaluate the forces themselves, one worker after
/// the other. A caller that computes the workers' buffers on threads of
/// its own takes a pass in two halves instead: `drift`, then the force
/// evaluation on `bodies`, then `kick` with the buffers gathered. The
/// bodies move in `drift`, so the buffers must be computed between the
/// two.
pub struct Simulation<S: Scalar> {
    pub config: Config<S>,
    pub bodies: Vec<Body<S>>,
    /// The clock.
    pub t: S,
    /// The number of steps taken.
    pub step: u64,
    /// The energy of the initial state, measured before the first force
    /// evaluation.
    pub initial: EnergyReport<S>,
}

impl<S: Scalar> Simulation<S> {
    /// Store, clock and step count.
    pub open spec fn state(&self) -> State<S> {
        State { bodies: self.bodies@, t: self.t, step: self.step as nat }
    }

    /// There is at least one worker.
    pub open spec fn well_formed(&self) -> bool {
        self.config.workers > 0
    }

    /// Sets a run up: measures the energy of the initial state, then
    /// evaluates the forces, so that the accelerations go with the initial
    /// positions.
    pub fn new(config: Config<S>, bodies: Vec<Body<S>>) -> (r: Result<Self, SetupError>)
        ensures
            match r {
                Ok(sim) => {
                    &&& config.workers > 0
                    &&& sim.well_formed()
                    &&& sim.config == config
                    &&& sim.initial == energy_report(bodies@)
                    &&& sim.state() == (State {
                        bodies: accelerated(bodies@, config.workers as int),
                        t: S::zero_value(),
                        step: 0,
                    })
                },
                Err(e) => config.workers == 0 && e == SetupError::NoWorkers,
            },
    {
        if config.workers == 0 {
            return Err(SetupError::NoWorkers);
        }
        let mut bodies = bodies;
        let initial = energies(&bodies);
        acceleration(&mut bodies, config.workers);
        Ok(Simulation { config, bodies, t: S::zero(), step: 0, initial })
    }

    /// Sets a run up like `new`, with the buffers of the first force
    /// evaluation supplied by the caller.
    pub fn start(config: Config<S>, bodies: Vec<Body<S>>, forces: &Gather<S>) -> (r: Result<
        Self,
        SetupError,
    >)
        requires
            forces.well_formed(),
        ensures
            match r {
                Ok(sim) => {
                    &&& setup_fault(config.workers, forces@, forces.body_count(), bodies.len())
                        is None
                    &&& sim.well_formed()
                    &&& sim.config == config
                    &&& sim.initial == energy_report(bodies@)
                    &&& sim.state() == (State {
                        bodies: reduced(bodies@, gathered(forces@)),
                        t: S::zero_value(),
                        step: 0,
                    })
                },
                Err(e) => setup_fault(config.workers, forces@, forces.body_count(), bodies.len())
                    == Some(e),
            },
    {
        if config.workers == 0 {
            return Err(SetupError::NoWorkers);
        }
        let mut bodies = bodies;
        let initial = energies(&bodies);
        match forces.finish(&mut bodies) {
            Ok(_) => Ok(Simulation { config, bodies, t: S::zero(), step: 0, initial }),
            Err(e) => Err(SetupError::Forces(e)),
        }
    }

    /// Tells whether the clock has reached the end time.
    pub fn finished(&self) -> (r: bool)
        ensures
            r == done(self.state(), self.config),
    {
        !self.t.lt(self.config.t_end)
    }

    /// The first half of a pass: moves every body, unless the end time has
    /// been reached. Tells whether it did.
    pub fn drift(&mut self) -> (moved: bool)
        ensures
            moved == !done(old(self).state(), old(self).config),
            final(self).config == old(self).config,
            final(self).initial == old(self).initial,
            final(self).state() == (if moved {
                opened(old(self).state(), old(self).config)
            } else {
                old(self).state()
            }),
    {
        if self.finished() {
            return false;
        }
        update_positions(&mut self.bodies, self.config.dt);
        true
    }

    /// Ends a pass once the accelerations are in place: advances the
    /// velocities, moves the clock on, counts the step and measures the
    /// energy if a record is due.
    fn close(&mut self) -> (r: Progress<S>)
        requires
            old(self).step < u64::MAX,
        ensures
            final(self).config == old(self).config,
            final(self).initial == old(self).initial,
            final(self).state() == (State {
                bodies: all_kicked(old(self).bodies@, old(self).config.dt),
                t: old(self).t.sum(old(self).config.dt),
                step: (old(self).step + 1) as nat,
            }),
            r == outcome(final(self).state(), old(self).initial),
    {
        update_velocities(&mut self.bodies, self.config.dt);
        self.t = self.t.plus(self.config.dt);
        self.step = self.step + 1;
        if self.step % REPORT_EVERY == 0 {
            let report = energies(&self.bodies);
            let drift = if self.bodies.len() == 0 {
                S::zero()
            } else {
                report.total.minus(self.initial.total).over(self.initial.total)
            };
            Progress::Reported(
                Diagnostic {
                    t: self.t,
                    total: report.total,
                    kinetic: report.kinetic,
                    potential: report.potential,
                    drift,
                },
            )
        } else {
            Progress::Advanced
        }
    }

    /// The second half of a pass, with the buffers of the force evaluation
    /// supplied by the caller. If they cannot be reduced, nothing changes.
    pub fn kick(&mut self, forces: &Gather<S>) -> (r: Result<Progress<S>, GatherError>)
        requires
            forces.well_formed(),
            old(self).step < u64::MAX,
        ensures
            final(self).config == old(self).config,
            final(self).initial == old(self).initial,
            match reduction_fault(forces@, forces.body_count(), old(self).bodies.len()) {
                Some(e) => r == Err::<Progress<S>, GatherError>(e) && final(self).state() == old(
                    self,
                ).state(),
                None => {
                    &&& final(self).state() == closed(
                        old(self).state(),
                        old(self).config,
                        gathered(forces@),
                    )
                    &&& r == Ok::<Progress<S>, GatherError>(
                        outcome(final(self).state(), old(self).initial),
                    )
                },
            },
    {
        match forces.finish(&mut self.bodies) {
            Ok(_) => Ok(self.close()),
            Err(e) => Err(e),
        }
    }

    /// Makes one pass of the loop.
    pub fn advance(&mut self) -> (r: Progress<S>)
        requires
            old(self).well_formed(),
            old(self).step < u64::MAX,
        ensures
            final(self).config == old(self).config,
            final(self).initial == old(self).initial,
            final(self).state() == after(old(self).state(), old(self).config, 1),
            final(self).step == old(self).step + (if done(old(self).state(), old(self).config) {
                0int
            } else {
                1int
            }),
            r == (if done(old(self).state(), old(self).config) {
                Progress::Finished
            } else {
                outcome(final(self).state(), old(self).initial)
            }),
    {
        proof {
            reveal_with_fuel(after, 2);
        }
        if !self.drift() {
            return Progress::Finished;
        }
        acceleration(&mut self.bodies, self.config.workers);
        self.close()
    }

    /// Runs the loop until the end time is reached, or for `limit` passes
    /// if that comes first, and returns the records produced on the way.
    pub fn run(&mut self, limit: u64) -> (out: Vec<Diagnostic<S>>)
        requires
            old(self).well_formed(),
            old(self).step + limit <= u64::MAX,
        ensures
            final(self).config == old(self).config,
            final(self).initial == old(self).initial,
            final(self).state() == after(old(self).state(), old(self).config, limit as nat),
            final(self).step <= old(self).step + limit,
            out@ == records(
                old(self).state(),
                old(self).config,
                old(self).initial,
                limit as nat,
            ),
    {
        let mut out: Vec<Diagnostic<S>> = Vec::new();
        let mut passes: u64 = 0;
        while passes < limit && !self.finished()
            invariant
                passes <= limit,
                self.well_formed(),
                self.config == old(self).config,
                self.initial == old(self).initial,
                self.step <= old(self).step + passes,
                old(self).step + limit <= u64::MAX,
                self.state() == after(old(self).state(), old(self).config, passes as nat),
                out@ == records(
                    old(self).state(),
                    old(self).config,
                    old(self).initial,
                    passes as nat,
                ),
            decreases limit - passes,
        {
            let ghost before = self.state();
            let progress = self.advance();
            proof {
                reveal_with_fuel(after, 2);
                assert(self.state() == next(before, self.config));
            }
            match progress {
                Progress::Reported(record) => {
                    out.push(record);
                },
                _ => {},
            }
            passes = passes + 1;
        }
        proof {
            lemma_done_is_final(
                old(self).state(),
                old(self).config,
                old(self).initial,
                passes as nat,
                limit as nat,
            );
        }
        out
    }
}

/// Once the end time is reached, further passes change nothing and
/// produce no record.
pub proof fn lemma_done_is_final<S: Scalar>(
    state: State<S>,
    config: Config<S>,
    initial: EnergyReport<S>,
    passes: nat,
    limit: nat,
)
    requires
        passes <= limit,
        passes == limit || done(after(state, config, passes), config),
    ensures
        after(state, config, limit) == after(state, config, passes),
        records(state, config, initial, limit) == records(state, config, initial, passes),
    decreases limit - passes,
{
    if passes < limit {
        lemma_done_is_final(state, config, initial, passes, (limit - 1) as nat);
    }
}

/// A pass of the loop that is not done takes exactly one integrator step.
pub proof fn lemma_pass_is_a_step<S: Scalar>(state: State<S>, config: Config<S>)
    ensures
        next(state, config) == (State {
            bodies: stepped(state.bodies, config.dt, config.workers as int),
            t: state.t.sum(config.dt),
            step: state.step + 1,
        }),
{
}

/// Throughout a run the store holds the same bodies: none is added, none
/// is removed, no mass changes, and index `i` names the same body.
pub proof fn lemma_run_keeps_the_bodies<S: Scalar>(state: State<S>, config: Config<S>, passes: nat)
    ensures
        same_population(state.bodies, after(state, config, passes).bodies),
    decreases passes,
{
    if passes > 0 {
        let before = after(state, config, (passes - 1) as nat);
        lemma_run_keeps_the_bodies(state, config, (passes - 1) as nat);
        lemma_step_keeps_the_bodies(before.bodies, config.dt, config.workers as int);
    }
}

} // verus!
