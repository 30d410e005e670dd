use crate::driver::Driver;
use vstd::prelude::*;

verus! {

/// Where a descent ended.
#[derive(Clone, Copy, Debug)]
pub struct Relaxed<P> {
    /// The last position reached.
    pub position: P,
    /// The number of steps taken.
    pub steps: usize,
    /// Whether the last step gained less than the threshold. If not, the
    /// descent was cut off after the allowed number of steps.
    pub converged: bool,
}

/// Whether `positions` is a descent from its first entry, with the energy of
/// each position in `energies`: every position is one step on from the one
/// before, and no step but the last may have settled.
pub open spec fn is_descent<P, E, S: Fn(P) -> P, M: Fn(P) -> E, C: Fn(E, E) -> bool>(
    step: S,
    measure: M,
    settled: C,
    positions: Seq<P>,
    energies: Seq<E>,
) -> bool {
    &&& positions.len() >= 1
    &&& energies.len() == positions.len()
    &&& forall|i: int|
        0 <= i < positions.len() ==> measure.ensures((positions[i],), #[trigger] energies[i])
    &&& forall|i: int|
        0 < i < positions.len() ==> step.ensures((positions[i - 1],), #[trigger] positions[i])
    &&& forall|i: int|
        0 < i < positions.len() - 1 ==> settled.ensures(
            (energies[i - 1], #[trigger] energies[i]),
            false,
        )
}

/// Whether a descent with these `energies` stops where it stands, and how.
/// It has taken `max_steps` steps at most. It stops as converged if its
/// last step settled; it stops as cut off if that step did not settle, or
/// there was none, and `max_steps` steps are taken.
pub open spec fn stops_as<E, C: Fn(E, E) -> bool>(
    settled: C,
    energies: Seq<E>,
    max_steps: nat,
    converged: bool,
) -> bool {
    let steps = energies.len() - 1;
    &&& steps <= max_steps
    &&& steps >= 1 ==> settled.ensures((energies[steps - 1], energies[steps]), converged)
    &&& converged ==> steps >= 1
    &&& !converged ==> steps == max_steps
}

/// Whether `end` is where a descent from `start` may stop.
pub open spec fn descends_to<P, E, S: Fn(P) -> P, M: Fn(P) -> E, C: Fn(E, E) -> bool>(
    start: P,
    step: S,
    measure: M,
    settled: C,
    max_steps: nat,
    end: Relaxed<P>,
) -> bool {
    exists|positions: Seq<P>, energies: Seq<E>|
        {
            &&& #[trigger] is_descent(step, measure, settled, positions, energies)
            &&& positions[0] == start
            &&& positions.len() == end.steps + 1
            &&& positions[end.steps as int] == end.position
            &&& stops_as(settled, energies, max_steps, end.converged)
        }
}

/// Walks from `start` towards a minimum.
///
/// `step` moves the position on and `measure` gives the energy where it
/// stands. The walk stops after the first step for which
/// `settled(energy before, energy after)` holds, and after `max_steps` steps
/// at the latest. It takes a first step whatever the energies are, unless
/// `max_steps` is zero.
pub fn move_to_minimum<P: Copy, E: Copy, S: Fn(P) -> P, M: Fn(P) -> E, C: Fn(E, E) -> bool>(
    start: P,
    step: &S,
    measure: &M,
    settled: &C,
    max_steps: usize,
) -> (end: Relaxed<P>)
    requires
        forall|p: P| step.requires((p,)),
        forall|p: P| measure.requires((p,)),
        forall|a: E, b: E| settled.requires((a, b)),
    ensures
        descends_to(start, *step, *measure, *settled, max_steps as nat, end),
{
    let mut position = start;
    let mut driver = Driver::new(measure(position), max_steps);
    let ghost mut positions: Seq<P> = seq![start];
    let ghost mut energies: Seq<E> = seq![driver.energy()];
    while driver.is_running()
        invariant
            forall|p: P| step.requires((p,)),
            forall|p: P| measure.requires((p,)),
            forall|a: E, b: E| settled.requires((a, b)),
            driver.wf(),
            driver.max_iterations() == max_steps,
            is_descent(*step, *measure, *settled, positions, energies),
            positions[0] == start,
            positions.len() == driver.iterations() + 1,
            positions[driver.iterations() as int] == position,
            energies[driver.iterations() as int] == driver.energy(),
            driver.iterations() >= 1 ==> settled.ensures(
                (energies[driver.iterations() - 1], energies[driver.iterations() as int]),
                driver.phase() is Converged,
            ),
        decreases driver.max_iterations() - driver.iterations(),
    {
        let ghost positions_before = positions;
        let ghost energies_before = energies;
        position = step(position);
        let energy = measure(position);
        driver.record(energy, settled);
        proof {
            positions = positions_before.push(position);
            energies = energies_before.push(energy);
            assert forall|i: int| 0 <= i < positions.len() implies measure.ensures(
                (positions[i],),
                #[trigger] energies[i],
            ) by {
                if i < positions_before.len() {
                    assert(energies[i] == energies_before[i]);
                }
            }
            assert forall|i: int| 0 < i < positions.len() implies step.ensures(
                (positions[i - 1],),
                #[trigger] positions[i],
            ) by {
                if i < positions_before.len() {
                    assert(positions[i] == positions_before[i]);
                }
            }
            assert forall|i: int| 0 < i < positions.len() - 1 implies settled.ensures(
                (energies[i - 1], #[trigger] energies[i]),
                false,
            ) by {
                assert(energies[i] == energies_before[i]);
            }
        }
    }
    Relaxed { position, steps: driver.iteration_count(), converged: driver.has_converged() }
}

} // verus!
