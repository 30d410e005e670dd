use vstd::prelude::*;

verus! {

/// Where a relaxation stands.
#[derive(Clone, Copy, Debug, PartialEq, Eq, Structural)]
pub enum Phase {
    /// Another iteration is due.
    Running,
    /// The last iteration gained less than the caller's threshold.
    Converged,
    /// As many iterations have run as were allowed, and the last of them
    /// did not converge.
    Exhausted,
}

/// The phase after an iteration: `settled` says whether the iteration
/// gained less than the threshold, `iterations` counts it in, and no more
/// than `max_iterations` may run.
pub open spec fn phase_after(settled: bool, iterations: nat, max_iterations: nat) -> Phase {
    if settled {
        Phase::Converged
    } else if iterations >= max_iterations {
        Phase::Exhausted
    } else {
        Phase::Running
    }
}

/// The book-keeping of a relaxation: how many iterations have run, the
/// energy after the last of them, and whether another one is due.
///
/// The driver does not iterate by itself. As long as it is running, its
/// owner performs an iteration, measures the energy and hands it to
/// [`Driver::record`]. `Converged` and `Exhausted` are final: nothing can be
/// recorded after them.
#[derive(Debug)]
pub struct Driver<E> {
    phase: Phase,
    iterations: usize,
    max_iterations: usize,
    energy: E,
}

impl<E> Driver<E> {
    /// Where the relaxation stands.
    pub closed spec fn phase(&self) -> Phase {
        self.phase
    }

    /// The number of iterations recorded so far.
    pub closed spec fn iterations(&self) -> nat {
        self.iterations as nat
    }

    /// The most iterations that may be recorded.
    pub closed spec fn max_iterations(&self) -> nat {
        self.max_iterations as nat
    }

    /// The energy that was recorded last; before the first iteration, the
    /// energy of the initial state.
    pub closed spec fn energy(&self) -> E {
        self.energy
    }

    /// A running driver has iterations left, an exhausted one has none, and
    /// a converged one has recorded at least one. This holds of every driver.
    pub open spec fn wf(&self) -> bool {
        &&& self.iterations() <= self.max_iterations()
        &&& self.phase() is Running ==> self.iterations() < self.max_iterations()
        &&& self.phase() is Exhausted ==> self.iterations() == self.max_iterations()
        &&& self.phase() is Converged ==> self.iterations() >= 1
    }

    #[verifier::type_invariant]
    spec fn consistent(&self) -> bool {
        self.wf()
    }
}

impl<E: Copy> Driver<E> {
    /// A driver before the first iteration, with the energy of the initial
    /// state. It is running unless `max_iterations` is zero.
    pub fn new(initial_energy: E, max_iterations: usize) -> (driver: Self)
        ensures
            driver.wf(),
            driver.iterations() == 0,
            driver.max_iterations() == max_iterations,
            driver.energy() == initial_energy,
            driver.phase() == phase_after(false, 0, max_iterations as nat),
    {
        let phase = if max_iterations == 0 {
            Phase::Exhausted
        } else {
            Phase::Running
        };
        Driver { phase, iterations: 0, max_iterations, energy: initial_energy }
    }

    /// Records the energy after one more iteration.
    ///
    /// `settled(previous, energy)` decides whether the step from the energy
    /// recorded before to this one ends the relaxation. The driver hands it
    /// both energies, the earlier one first, and makes no comparison of its
    /// own: a rise in energy ends the relaxation if `settled` says so.
    pub fn record<C: Fn(E, E) -> bool>(&mut self, energy: E, settled: &C)
        requires
            old(self).phase() is Running,
            settled.requires((old(self).energy(), energy)),
        ensures
            final(self).wf(),
            final(self).max_iterations() == old(self).max_iterations(),
            final(self).iterations() == old(self).iterations() + 1,
            final(self).energy() == energy,
            settled.ensures((old(self).energy(), energy), final(self).phase() is Converged),
            final(self).phase() == phase_after(
                final(self).phase() is Converged,
                final(self).iterations(),
                final(self).max_iterations(),
            ),
    {
        proof {
            use_type_invariant(&*self);
        }
        let done = settled(self.energy, energy);
        let iterations = self.iterations + 1;
        let phase = if done {
            Phase::Converged
        } else if iterations >= self.max_iterations {
            Phase::Exhausted
        } else {
            Phase::Running
        };
        *self = Driver { phase, iterations, max_iterations: self.max_iterations, energy };
    }

    /// Whether another iteration is due.
    pub fn is_running(&self) -> (running: bool)
        ensures
            running == (self.phase() is Running),
            self.wf(),
    {
        proof {
            use_type_invariant(self);
        }
        match self.phase {
            Phase::Running => true,
            _ => false,
        }
    }

    /// Whether the relaxation has converged.
    pub fn has_converged(&self) -> (converged: bool)
        ensures
            converged == (self.phase() is Converged),
    {
        match self.phase {
            Phase::Converged => true,
            _ => false,
        }
    }

    /// Where the relaxation stands.
    pub fn current_phase(&self) -> (phase: Phase)
        ensures
            phase == self.phase(),
    {
        self.phase
    }

    /// The number of iterations recorded so far.
    pub fn iteration_count(&self) -> (count: usize)
        ensures
            count == self.iterations(),
    {
        self.iterations
    }

    /// The energy that was recorded last.
    pub fn last_energy(&self) -> (energy: E)
        ensures
            energy == self.energy(),
    {
        self.energy
    }
}

} // verus!
