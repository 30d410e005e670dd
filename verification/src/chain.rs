use crate::relax::{descends_to, move_to_minimum, Relaxed};
use vstd::prelude::*;

verus! {

/// What the update of one site of a chain reads: the site itself, its two
/// neighbours along the chain, and the stiffness of the springs that tie it
/// to them.
#[derive(Clone, Copy, Debug)]
pub struct Stencil<P, K> {
    /// The neighbour towards the start of the chain.
    pub prev: P,
    /// The site that is being moved.
    pub this: P,
    /// The neighbour towards the end of the chain.
    pub next: P,
    /// The spring stiffness, or `None` where the site feels no spring.
    pub spring: Option<K>,
}

/// The parameters of a chain. They stay as they are through a relaxation.
#[derive(Clone, Copy, Debug)]
pub struct ChainConfig<P, K> {
    /// Stiffness of the springs between neighbouring sites.
    pub spring_constant: K,
    /// Whether the two anchors stay where they are during a sweep.
    pub pin_ends: bool,
    /// Whether the anchors are moved to a nearby minimum before the chain
    /// is laid out.
    pub relax_ends: bool,
    /// The first anchor.
    pub start: P,
    /// The last anchor.
    pub end: P,
    /// The number of segments; the chain has one point more.
    pub elements: usize,
}

impl<P, K> ChainConfig<P, K> {
    /// A chain needs at least two segments, and its points must be countable.
    pub open spec fn valid(&self) -> bool {
        2 <= self.elements < usize::MAX
    }
}

impl<P: Copy, K: Copy> ChainConfig<P, K> {
    /// Whether a chain can be built with these parameters.
    pub fn is_valid(&self) -> (ok: bool)
        ensures
            ok == self.valid(),
    {
        2 <= self.elements && self.elements < usize::MAX
    }

    /// Moves both anchors to a nearby minimum, where the parameters ask for
    /// it: each by a descent of its own, with the same `step`, `measure`
    /// and `settled`, and of `max_steps` steps at most.
    ///
    /// Returns how the two descents ended, that of the start first, or
    /// `None` where the anchors were left alone.
    pub fn relax_ends<E: Copy, S: Fn(P) -> P, M: Fn(P) -> E, C: Fn(E, E) -> bool>(
        &mut self,
        step: &S,
        measure: &M,
        settled: &C,
        max_steps: usize,
    ) -> (moved: Option<(Relaxed<P>, Relaxed<P>)>)
        requires
            forall|p: P| step.requires((p,)),
            forall|p: P| measure.requires((p,)),
            forall|a: E, b: E| settled.requires((a, b)),
        ensures
            moved is Some <==> old(self).relax_ends,
            moved is None ==> *final(self) == *old(self),
            moved matches Some((first, last)) ==> descends_to(
                old(self).start,
                *step,
                *measure,
                *settled,
                max_steps as nat,
                first,
            ) && descends_to(old(self).end, *step, *measure, *settled, max_steps as nat, last),
            moved matches Some((first, last)) ==> *final(self) == (ChainConfig {
                start: first.position,
                end: last.position,
                ..*old(self)
            }),
    {
        if self.relax_ends {
            let first = move_to_minimum(self.start, step, measure, settled, max_steps);
            let last = move_to_minimum(self.end, step, measure, settled, max_steps);
            self.start = first.position;
            self.end = last.position;
            Some((first, last))
        } else {
            None
        }
    }
}

/// Whether site `i` of a chain of `len` points is one of its two anchors.
pub open spec fn is_anchor(len: nat, i: int) -> bool {
    i == 0 || i == len - 1
}

/// Whether a sweep moves site `i` of a chain of `len` points: it moves
/// every site but a pinned anchor.
pub open spec fn is_free<P, K>(config: ChainConfig<P, K>, len: nat, i: int) -> bool {
    !(config.pin_ends && is_anchor(len, i))
}

/// What the update of site `i` reads when the chain stands at `points`.
///
/// A site inside the chain sees both neighbours and feels the springs. An
/// anchor has one neighbour only: it stands in for the missing one itself,
/// and no spring pulls on it.
pub open spec fn stencil_at<P, K>(points: Seq<P>, spring: K, i: int) -> Stencil<P, K> {
    if i == 0 {
        Stencil { prev: points[0], this: points[0], next: points[1], spring: None }
    } else if i == points.len() - 1 {
        Stencil { prev: points[i - 1], this: points[i], next: points[i], spring: None }
    } else {
        Stencil { prev: points[i - 1], this: points[i], next: points[i + 1], spring: Some(spring) }
    }
}

/// Whether `after` may stand at site `i` once a sweep with `step` has gone
/// over the chain that stood at `before`.
pub open spec fn is_moved<P, K, F: Fn(Stencil<P, K>) -> P>(
    before: Seq<P>,
    config: ChainConfig<P, K>,
    step: F,
    i: int,
    after: P,
) -> bool {
    if is_free(config, before.len(), i) {
        step.ensures((stencil_at(before, config.spring_constant, i),), after)
    } else {
        after == before[i]
    }
}

/// Whether `after` is what one sweep with `step` may leave of the chain that
/// stood at `before`: every site is placed from the positions before the
/// sweep, none from a position that the sweep itself has written.
pub open spec fn is_sweep<P, K, F: Fn(Stencil<P, K>) -> P>(
    before: Seq<P>,
    config: ChainConfig<P, K>,
    step: F,
    after: Seq<P>,
) -> bool {
    &&& after.len() == before.len()
    &&& forall|i: int|
        0 <= i < before.len() ==> is_moved(before, config, step, i, #[trigger] after[i])
}

/// Whether `after` has as many points as `before` and the same two anchors.
pub open spec fn anchors_kept<P>(before: Seq<P>, after: Seq<P>) -> bool {
    &&& after.len() == before.len()
    &&& before.len() > 0 ==> {
        &&& after[0] == before[0]
        &&& after[after.len() - 1] == before[before.len() - 1]
    }
}

/// Whether `sums` are the running totals of gathering `points` in order,
/// from `zero` on: `sums[i]` is what the first `i` points come to.
pub open spec fn is_running_total<P, E, A: Fn(E, P) -> E>(
    points: Seq<P>,
    zero: E,
    gather: A,
    sums: Seq<E>,
) -> bool {
    &&& sums.len() == points.len() + 1
    &&& sums[0] == zero
    &&& forall|i: int|
        0 <= i < points.len() ==> gather.ensures((sums[i], #[trigger] points[i]), sums[i + 1])
}

/// Whether `energy` may be the energy per segment of a chain of `segments`
/// segments that stands at `points`: the total of gathering the points in
/// order, averaged over the segments.
pub open spec fn is_average<P, E, A: Fn(E, P) -> E, D: Fn(E, usize) -> E>(
    points: Seq<P>,
    segments: usize,
    zero: E,
    gather: A,
    average: D,
    energy: E,
) -> bool {
    exists|sums: Seq<E>|
        {
            &&& #[trigger] is_running_total(points, zero, gather, sums)
            &&& average.ensures((sums[points.len() as int], segments), energy)
        }
}

/// A chain of points between two anchors. Its first and last point are the
/// anchors; the points between them are free to move in every sweep.
#[derive(Debug)]
pub struct Chain<P, K> {
    config: ChainConfig<P, K>,
    points: Vec<P>,
}

impl<P, K> View for Chain<P, K> {
    type V = Seq<P>;

    /// The points of the chain, from the first anchor to the last.
    closed spec fn view(&self) -> Seq<P> {
        self.points@
    }
}

impl<P, K> Chain<P, K> {
    /// The parameters that the chain was built with.
    pub closed spec fn parameters(&self) -> ChainConfig<P, K> {
        self.config
    }

    /// The chain has one point more than it has segments. This holds of
    /// every chain.
    pub open spec fn wf(&self) -> bool {
        &&& self.parameters().valid()
        &&& self@.len() == self.parameters().elements + 1
    }

    #[verifier::type_invariant]
    spec fn consistent(&self) -> bool {
        self.wf()
    }
}

impl<P: Copy, K: Copy> Chain<P, K> {
    /// Lays the chain out between the two anchors of `config`.
    ///
    /// The anchors themselves are its first and last point.
    /// `place(start, end, i, n)` gives the point that stands `i` segments
    /// out of `n` from `start` towards `end`, for each `i` between them.
    pub fn new<L: Fn(P, P, usize, usize) -> P>(config: ChainConfig<P, K>, place: &L) -> (chain:
        Self)
        requires
            config.valid(),
            forall|i: usize|
                0 < i < config.elements ==> place.requires(
                    (config.start, config.end, i, config.elements),
                ),
        ensures
            chain.wf(),
            chain.parameters() == config,
            chain@[0] == config.start,
            chain@[config.elements as int] == config.end,
            forall|i: int|
                0 < i < config.elements ==> place.ensures(
                    (config.start, config.end, i as usize, config.elements),
                    #[trigger] chain@[i],
                ),
    {
        let n: usize = config.elements;
        let mut points: Vec<P> = Vec::with_capacity(n + 1);
        points.push(config.start);
        let mut i: usize = 1;
        while i < n
            invariant
                1 <= i <= n,
                n == config.elements,
                points@.len() == i,
                points@[0] == config.start,
                forall|j: usize| 0 < j < n ==> place.requires((config.start, config.end, j, n)),
                forall|j: int|
                    0 < j < i ==> place.ensures(
                        (config.start, config.end, j as usize, n),
                        #[trigger] points@[j],
                    ),
            decreases n - i,
        {
            points.push(place(config.start, config.end, i, n));
            i += 1;
        }
        points.push(config.end);
        Chain { config, points }
    }

    /// One sweep over the chain.
    ///
    /// Every free site is replaced by what `step` makes of its stencil. All
    /// stencils are taken from the chain as it stands before the sweep: no
    /// site is placed from a position that this sweep has written. Pinned
    /// anchors stay where they are.
    pub fn iterate<F: Fn(Stencil<P, K>) -> P>(&mut self, step: &F)
        requires
            forall|i: int|
                0 <= i < old(self)@.len() && is_free(old(self).parameters(), old(self)@.len(), i)
                    ==> step.requires(
                    (#[trigger] stencil_at(old(self)@, old(self).parameters().spring_constant, i),),
                ),
        ensures
            final(self).wf(),
            final(self).parameters() == old(self).parameters(),
            is_sweep(old(self)@, old(self).parameters(), *step, final(self)@),
            old(self).parameters().pin_ends ==> anchors_kept(old(self)@, final(self)@),
    {
        proof {
            use_type_invariant(&*self);
        }
        let size: usize = self.points.len();
        let last: usize = size - 1;
        let spring: K = self.config.spring_constant;
        let mut next_instance: Vec<P> = Vec::with_capacity(size);

        let first = self.points[0];
        if self.config.pin_ends {
            next_instance.push(first);
        } else {
            let stencil = Stencil { prev: first, this: first, next: self.points[1], spring: None };
            assert(stencil == stencil_at(self.points@, spring, 0));
            next_instance.push(step(stencil));
        }

        let mut i: usize = 1;
        while i < last
            invariant
                1 <= i <= last,
                last + 1 == size,
                size == self.points@.len(),
                size >= 3,
                spring == self.config.spring_constant,
                next_instance@.len() == i,
                forall|j: int|
                    0 <= j < size && is_free(self.config, size as nat, j) ==> step.requires(
                        (#[trigger] stencil_at(self.points@, spring, j),),
                    ),
                forall|j: int|
                    0 <= j < i ==> is_moved(
                        self.points@,
                        self.config,
                        *step,
                        j,
                        #[trigger] next_instance@[j],
                    ),
            decreases last - i,
        {
            let stencil = Stencil {
                prev: self.points[i - 1],
                this: self.points[i],
                next: self.points[i + 1],
                spring: Some(spring),
            };
            assert(stencil == stencil_at(self.points@, spring, i as int));
            next_instance.push(step(stencil));
            i += 1;
        }

        let end = self.points[last];
        if self.config.pin_ends {
            next_instance.push(end);
        } else {
            let stencil = Stencil { prev: self.points[last - 1], this: end, next: end, spring: None };
            assert(stencil == stencil_at(self.points@, spring, last as int));
            next_instance.push(step(stencil));
        }

        self.points = next_instance;
    }

    /// The energy of the chain per segment.
    ///
    /// The points are gathered in order, each by
    /// `gather(total so far, point)` and the first of them onto `zero`.
    /// `average(total, segments)` then shares the total among the segments
    /// of the chain, which are one fewer than its points.
    pub fn energy<E, A: Fn(E, P) -> E, D: Fn(E, usize) -> E>(
        &self,
        zero: E,
        gather: &A,
        average: &D,
    ) -> (energy: E)
        requires
            forall|e: E, p: P| gather.requires((e, p)),
            forall|e: E| average.requires((e, self.parameters().elements)),
        ensures
            is_average(self@, self.parameters().elements, zero, *gather, *average, energy),
    {
        let mut total = zero;
        let ghost mut sums: Seq<E> = seq![zero];
        let mut i: usize = 0;
        while i < self.points.len()
            invariant
                0 <= i <= self.points@.len(),
                forall|e: E, p: P| gather.requires((e, p)),
                sums.len() == i + 1,
                sums[0] == zero,
                sums[i as int] == total,
                forall|j: int|
                    0 <= j < i ==> gather.ensures(
                        (sums[j], #[trigger] self.points@[j]),
                        sums[j + 1],
                    ),
            decreases self.points@.len() - i,
        {
            total = gather(total, self.points[i]);
            proof {
                sums = sums.push(total);
            }
            i += 1;
        }
        assert(self.parameters().elements == self.config.elements);
        let energy = average(total, self.config.elements);
        assert(is_running_total(self@, zero, *gather, sums));
        energy
    }

    /// The points of the chain, from the first anchor to the last.
    pub fn points(&self) -> (points: &Vec<P>)
        ensures
            points@ == self@,
            self.wf(),
    {
        proof {
            use_type_invariant(self);
        }
        &self.points
    }

    /// The parameters that the chain was built with.
    pub fn config(&self) -> (config: &ChainConfig<P, K>)
        ensures
            *config == self.parameters(),
    {
        &self.config
    }
}

/// The update of a site reads that site and its two neighbours, and nothing
/// else of the chain: two chains of one length that agree at these three
/// sites allow the same new positions there. So the sites of one sweep can
/// be updated in any order, or side by side.
pub proof fn lemma_update_reads_three_sites<P, K, F: Fn(Stencil<P, K>) -> P>(
    a: Seq<P>,
    b: Seq<P>,
    config: ChainConfig<P, K>,
    step: F,
    i: int,
    after: P,
)
    requires
        2 <= a.len() == b.len(),
        0 <= i < a.len(),
        a[i] == b[i],
        i > 0 ==> a[i - 1] == b[i - 1],
        i < a.len() - 1 ==> a[i + 1] == b[i + 1],
    ensures
        stencil_at(a, config.spring_constant, i) == stencil_at(b, config.spring_constant, i),
        is_moved(a, config, step, i, after) == is_moved(b, config, step, i, after),
{
}

/// A sweep over a chain with pinned ends keeps both anchors.
pub proof fn lemma_pinned_sweep_keeps_anchors<P, K, F: Fn(Stencil<P, K>) -> P>(
    before: Seq<P>,
    config: ChainConfig<P, K>,
    step: F,
    after: Seq<P>,
)
    requires
        config.pin_ends,
        is_sweep(before, config, step, after),
    ensures
        anchors_kept(before, after),
{
    if before.len() > 0 {
        let last = before.len() - 1;
        assert(is_moved(before, config, step, 0, after[0]));
        assert(is_moved(before, config, step, last, after[last]));
    }
}

/// With pinned ends the anchors stay where they are through any number of
/// sweeps: where each entry of `states` is a sweep on from the one before,
/// every entry has the anchors of the first.
pub proof fn lemma_pinned_anchors_stay<P, K, F: Fn(Stencil<P, K>) -> P>(
    states: Seq<Seq<P>>,
    config: ChainConfig<P, K>,
    step: F,
    k: int,
)
    requires
        config.pin_ends,
        0 <= k < states.len(),
        forall|j: int|
            0 <= j < states.len() - 1 ==> is_sweep(
                #[trigger] states[j],
                config,
                step,
                states[j + 1],
            ),
    ensures
        anchors_kept(states[0], states[k]),
    decreases k,
{
    if k > 0 {
        lemma_pinned_anchors_stay(states, config, step, k - 1);
        lemma_pinned_sweep_keeps_anchors(states[k - 1], config, step, states[k]);
    }
}

/// A sweep changes nothing where the update moves none of the free sites:
/// if `step` can only give back the site that it was asked to move, at
/// every free site of `before`, then the chain after the sweep is `before`.
pub proof fn lemma_sweep_of_fixed_points<P, K, F: Fn(Stencil<P, K>) -> P>(
    before: Seq<P>,
    config: ChainConfig<P, K>,
    step: F,
    after: Seq<P>,
)
    requires
        is_sweep(before, config, step, after),
        forall|i: int, moved: P|
            0 <= i < before.len() && is_free(config, before.len(), i) && #[trigger] step.ensures(
                (stencil_at(before, config.spring_constant, i),),
                moved,
            ) ==> moved == before[i],
    ensures
        after == before,
{
    assert forall|i: int| 0 <= i < before.len() implies after[i] == before[i] by {
        assert(is_moved(before, config, step, i, after[i]));
    }
    assert(after =~= before);
}

} // verus!
