//! The force engine: net gravitational acceleration on every body.
//!
//! Each pair `(i, j)`, `i < j`, is evaluated once and its term is applied
//! to both bodies with opposite sign. A worker evaluates the pairs of its
//! own schedule into a private buffer, one entry per body; the buffers are
//! then added, in worker order, into the bodies' accelerations. Because the
//! order of every sum is fixed, the result does not depend on which worker
//! finishes first.
//!
//! Two bodies at the same position are not treated specially: the quotient
//! by their cubed distance is whatever the number type makes of it.
use vstd::prelude::*;
use crate::body::Body;
use crate::partition::lemma_pair_has_one_owner;
use crate::partition::lemma_range_bounds;
use crate::partition::lemma_schedule_members;
use crate::partition::owner;
use crate::partition::range_end;
use crate::partition::range_start;
use crate::partition::row;
use crate::partition::schedule;
use crate::partition::worker_range;
use crate::partition::worker_schedule;
use crate::scalar::products_are_exact;
use crate::scalar::zero_is_neutral;
use crate::scalar::Scalar;
use crate::vector::Vec3;

verus! {

/// One over the cube of the length of `d`.
pub open spec fn inverse_cube<S: Scalar>(d: Vec3<S>) -> S {
    let r = d.length();
    S::one_value().quotient(r.product(r).product(r))
}

/// The buffer after the pair `(i, j)` has been evaluated into it. With
/// `d = r_i - r_j` and `s` the inverse cube of its length, entry `i` loses
/// `(m_j * s) * d` and entry `j` gains `(m_i * s) * d`.
pub open spec fn apply_pair<S: Scalar>(
    buffer: Seq<Vec3<S>>,
    bodies: Seq<Body<S>>,
    i: int,
    j: int,
) -> Seq<Vec3<S>> {
    let d = bodies[i].position.difference(bodies[j].position);
    let s = inverse_cube(d);
    buffer.update(i, buffer[i].difference(d.scaled(bodies[j].mass.product(s)))).update(
        j,
        buffer[j].sum(d.scaled(bodies[i].mass.product(s))),
    )
}

/// The buffer after the given pairs have been evaluated into it, first to
/// last.
pub open spec fn accumulate<S: Scalar>(
    buffer: Seq<Vec3<S>>,
    bodies: Seq<Body<S>>,
    pairs: Seq<(int, int)>,
) -> Seq<Vec3<S>>
    decreases pairs.len(),
{
    if pairs.len() == 0 {
        buffer
    } else {
        apply_pair(
            accumulate(buffer, bodies, pairs.drop_last()),
            bodies,
            pairs.last().0,
            pairs.last().1,
        )
    }
}

/// A buffer of `n` zero vectors.
pub open spec fn zeros<S: Scalar>(n: nat) -> Seq<Vec3<S>> {
    Seq::new(n, |i: int| Vec3::zero_value())
}

/// What worker `w` of `workers` hands in: its schedule evaluated into a
/// buffer of zeros.
pub open spec fn worker_contribution<S: Scalar>(
    bodies: Seq<Body<S>>,
    workers: int,
    w: int,
) -> Seq<Vec3<S>> {
    accumulate(zeros(bodies.len()), bodies, worker_schedule(bodies.len() as int, workers, w))
}

/// The contributions of all workers, by worker.
pub open spec fn contributions<S: Scalar>(bodies: Seq<Body<S>>, workers: int) -> Seq<
    Seq<Vec3<S>>,
> {
    Seq::new(workers as nat, |w: int| worker_contribution(bodies, workers, w))
}

/// Entry `i` of the buffers added up, starting from zero, first buffer
/// first.
pub open spec fn combined<S: Scalar>(buffers: Seq<Seq<Vec3<S>>>, i: int) -> Vec3<S>
    decreases buffers.len(),
{
    if buffers.len() == 0 {
        Vec3::zero_value()
    } else {
        combined(buffers.drop_last(), i).sum(buffers.last()[i])
    }
}

/// The bodies with each acceleration replaced by the sum of the buffers'
/// entries for that body. Nothing else changes.
pub open spec fn reduced<S: Scalar>(bodies: Seq<Body<S>>, buffers: Seq<Seq<Vec3<S>>>) -> Seq<
    Body<S>,
> {
    Seq::new(
        bodies.len(),
        |i: int| (Body { acceleration: combined(buffers, i), ..bodies[i] }),
    )
}

/// The bodies after a force evaluation with `workers` workers.
pub open spec fn accelerated<S: Scalar>(bodies: Seq<Body<S>>, workers: int) -> Seq<Body<S>> {
    reduced(bodies, contributions(bodies, workers))
}

/// Makes a buffer of `n` zero vectors.
pub fn zero_buffer<S: Scalar>(n: usize) -> (buffer: Vec<Vec3<S>>)
    ensures
        buffer@ == zeros::<S>(n as nat),
{
    let mut buffer: Vec<Vec3<S>> = Vec::new();
    let mut i: usize = 0;
    while i < n
        invariant
            i <= n,
            buffer@ == zeros::<S>(i as nat),
        decreases n - i,
    {
        buffer.push(Vec3::zero());
        i = i + 1;
    }
    buffer
}

/// Evaluates the pair `(i, j)` into `buffer`.
pub fn pair_interaction<S: Scalar>(
    buffer: &mut Vec<Vec3<S>>,
    bodies: &Vec<Body<S>>,
    i: usize,
    j: usize,
)
    requires
        i < j < bodies.len(),
        old(buffer).len() == bodies.len(),
    ensures
        final(buffer)@ == apply_pair(old(buffer)@, bodies@, i as int, j as int),
{
    let d = bodies[i].position.minus(bodies[j].position);
    let r = d.norm();
    let s = S::one().over(r.times(r).times(r));
    let at_i = buffer[i].minus(d.scale(bodies[j].mass.times(s)));
    let at_j = buffer[j].plus(d.scale(bodies[i].mass.times(s)));
    buffer.set(i, at_i);
    buffer.set(j, at_j);
}

/// Computes the buffer that `worker` of `workers` hands in. It reads the
/// bodies and writes nothing but its own result, so the workers can run at
/// the same time on one snapshot of the store.
pub fn worker_delta<S: Scalar>(bodies: &Vec<Body<S>>, workers: usize, worker: usize) -> (delta:
    Vec<Vec3<S>>)
    requires
        0 < workers,
        worker < workers,
    ensures
        delta@ == worker_contribution(bodies@, workers as int, worker as int),
        delta.len() == bodies.len(),
{
    let n: usize = bodies.len();
    let (start, end) = worker_range(n, workers, worker);
    let mut delta: Vec<Vec3<S>> = zero_buffer(n);
    let mut i: usize = start;
    while i < end
        invariant
            start <= i <= end <= n,
            n == bodies.len(),
            delta.len() == n,
            delta@ == accumulate(zeros(n as nat), bodies@, schedule(start as int, i as int, n as int)),
        decreases end - i,
    {
        let ghost done = schedule(start as int, i as int, n as int);
        let mut j: usize = i + 1;
        proof {
            assert(done + row(i as int, j as int) =~= done);
        }
        while j < n
            invariant
                i < j <= n,
                n == bodies.len(),
                delta.len() == n,
                delta@ == accumulate(zeros(n as nat), bodies@, done + row(i as int, j as int)),
            decreases n - j,
        {
            pair_interaction(&mut delta, bodies, i, j);
            proof {
                let before = done + row(i as int, j as int);
                let after = done + row(i as int, j + 1);
                assert(after.drop_last() =~= before);
                assert(after.last() == (i as int, j as int));
            }
            j = j + 1;
        }
        i = i + 1;
    }
    delta
}

/// Why a buffer was turned away, or why the reduction could not be made.
#[derive(Clone, Copy, Debug, PartialEq, Eq, Structural)]
pub enum GatherError {
    /// The buffer names a worker that does not exist.
    UnknownWorker { worker: usize },
    /// The buffer does not have one entry per body.
    WrongLength { worker: usize, length: usize },
    /// This worker has handed in a buffer already.
    Duplicate { worker: usize },
    /// `worker` is the first worker that has not handed in its buffer.
    Missing { worker: usize },
    /// The store does not hold the number of bodies the buffers were made for.
    StoreResized { length: usize },
}

/// The buffers handed in so far, by worker.
///
/// Workers may finish in any order. Each buffer is filed under its worker's
/// number, and the reduction adds them in that order, so the sums do not
/// depend on the order of arrival. The reduction is refused while any
/// buffer is missing.
pub struct Gather<S: Scalar> {
    slots: Vec<Option<Vec<Vec3<S>>>>,
    bodies: usize,
}

/// What `accept` answers to a buffer of `length` entries from `worker`:
/// `None` if it files the buffer, else the reason why not.
pub open spec fn refusal<S: Scalar>(
    slots: Seq<Option<Seq<Vec3<S>>>>,
    bodies: nat,
    worker: usize,
    length: usize,
) -> Option<GatherError> {
    if worker >= slots.len() {
        Some(GatherError::UnknownWorker { worker })
    } else if length != bodies {
        Some(GatherError::WrongLength { worker, length })
    } else if slots[worker as int] is Some {
        Some(GatherError::Duplicate { worker })
    } else {
        None
    }
}

/// The slots after `buffer` has been offered for `worker`: filed under the
/// worker's number if it is accepted, unchanged if it is refused.
pub open spec fn filed<S: Scalar>(
    slots: Seq<Option<Seq<Vec3<S>>>>,
    bodies: nat,
    worker: int,
    buffer: Seq<Vec3<S>>,
) -> Seq<Option<Seq<Vec3<S>>>> {
    if 0 <= worker < slots.len() && buffer.len() == bodies && slots[worker] is None {
        slots.update(worker, Some(buffer))
    } else {
        slots
    }
}

/// The slots after the given buffers have been offered, first to last.
pub open spec fn delivered<S: Scalar>(
    slots: Seq<Option<Seq<Vec3<S>>>>,
    bodies: nat,
    arrivals: Seq<(int, Seq<Vec3<S>>)>,
) -> Seq<Option<Seq<Vec3<S>>>>
    decreases arrivals.len(),
{
    if arrivals.len() == 0 {
        slots
    } else {
        filed(
            delivered(slots, bodies, arrivals.drop_last()),
            bodies,
            arrivals.last().0,
            arrivals.last().1,
        )
    }
}

/// Some arrival carries a buffer for worker `w`.
pub open spec fn heard_from<S: Scalar>(arrivals: Seq<(int, Seq<Vec3<S>>)>, w: int) -> bool {
    exists|k: int| 0 <= k < arrivals.len() && (#[trigger] arrivals[k]).0 == w
}

/// No worker has handed in anything yet.
pub open spec fn nothing_filed<S: Scalar>(workers: nat) -> Seq<Option<Seq<Vec3<S>>>> {
    Seq::new(workers, |w: int| None)
}

/// Every worker has handed in its buffer.
pub open spec fn complete<S: Scalar>(slots: Seq<Option<Seq<Vec3<S>>>>) -> bool {
    forall|w: int| 0 <= w < slots.len() ==> (#[trigger] slots[w]) is Some
}

/// The buffers of a complete gathering, by worker.
pub open spec fn gathered<S: Scalar>(slots: Seq<Option<Seq<Vec3<S>>>>) -> Seq<Seq<Vec3<S>>> {
    Seq::new(slots.len(), |w: int| slots[w].unwrap())
}

/// Worker `w` is the first that has not handed in its buffer.
pub open spec fn is_first_missing<S: Scalar>(slots: Seq<Option<Seq<Vec3<S>>>>, w: int) -> bool {
    &&& 0 <= w < slots.len()
    &&& slots[w] is None
    &&& forall|k: int| 0 <= k < w ==> (#[trigger] slots[k]) is Some
}

/// The first worker that has not handed in its buffer, where there is one.
pub open spec fn first_missing<S: Scalar>(slots: Seq<Option<Seq<Vec3<S>>>>) -> int {
    choose|w: int| is_first_missing(slots, w)
}

/// Why the buffers on file cannot be reduced into a store of `length`
/// bodies, if they cannot.
pub open spec fn reduction_fault<S: Scalar>(
    slots: Seq<Option<Seq<Vec3<S>>>>,
    bodies: nat,
    length: usize,
) -> Option<GatherError> {
    if length != bodies {
        Some(GatherError::StoreResized { length })
    } else if !complete(slots) {
        Some(GatherError::Missing { worker: first_missing(slots) as usize })
    } else {
        None
    }
}

/// There is at most one first missing worker.
pub proof fn lemma_first_missing_is_unique<S: Scalar>(slots: Seq<Option<Seq<Vec3<S>>>>, w: int)
    requires
        is_first_missing(slots, w),
    ensures
        first_missing(slots) == w,
        !complete(slots),
{
    let c = first_missing(slots);
    assert(is_first_missing(slots, c));
    if c < w {
        assert(slots[c] is Some);
    }
    if w < c {
        assert(slots[w] is Some);
    }
}

impl<S: Scalar> View for Gather<S> {
    type V = Seq<Option<Seq<Vec3<S>>>>;

    closed spec fn view(&self) -> Seq<Option<Seq<Vec3<S>>>> {
        Seq::new(
            self.slots@.len(),
            |w: int|
                match self.slots@[w] {
                    Some(buffer) => Some(buffer@),
                    None => None,
                },
        )
    }
}

impl<S: Scalar> Gather<S> {
    /// Every buffer on file has one entry per body. `new` establishes
    /// this and `accept` keeps it.
    pub closed spec fn well_formed(&self) -> bool {
        forall|w: int|
            0 <= w < self.slots@.len() ==> match #[trigger] self.slots@[w] {
                Some(buffer) => buffer@.len() == self.bodies,
                None => true,
            }
    }

    /// The number of entries that every buffer must have.
    pub closed spec fn body_count(&self) -> nat {
        self.bodies as nat
    }

    /// An empty gathering for `workers` workers and `bodies` bodies.
    pub fn new(workers: usize, bodies: usize) -> (gather: Self)
        ensures
            gather.well_formed(),
            gather@ == nothing_filed::<S>(workers as nat),
            gather.body_count() == bodies,
    {
        let mut slots: Vec<Option<Vec<Vec3<S>>>> = Vec::new();
        let mut w: usize = 0;
        while w < workers
            invariant
                w <= workers,
                slots@.len() == w,
                forall|k: int| 0 <= k < w ==> (#[trigger] slots@[k]) is None,
            decreases workers - w,
        {
            slots.push(None);
            w = w + 1;
        }
        let gather = Gather { slots, bodies };
        proof {
            assert(gather@ =~= nothing_filed::<S>(workers as nat));
        }
        gather
    }

    /// Files the buffer of `worker`, or says why it cannot.
    pub fn accept(&mut self, worker: usize, buffer: Vec<Vec3<S>>) -> (r: Result<(), GatherError>)
        requires
            old(self).well_formed(),
        ensures
            final(self).well_formed(),
            final(self).body_count() == old(self).body_count(),
            final(self)@ == filed(old(self)@, old(self).body_count(), worker as int, buffer@),
            r == (match refusal(old(self)@, old(self).body_count(), worker, buffer.len()) {
                Some(e) => Err::<(), GatherError>(e),
                None => Ok::<(), GatherError>(()),
            }),
    {
        if worker >= self.slots.len() {
            return Err(GatherError::UnknownWorker { worker });
        }
        if buffer.len() != self.bodies {
            return Err(GatherError::WrongLength { worker, length: buffer.len() });
        }
        if self.slots[worker].is_some() {
            return Err(GatherError::Duplicate { worker });
        }
        let ghost before = self@;
        self.slots.set(worker, Some(buffer));
        proof {
            assert(self@ =~= before.update(worker as int, Some(buffer@)));
        }
        Ok(())
    }

    /// The first worker that has not handed in its buffer, if there is one.
    pub fn missing(&self) -> (r: Option<usize>)
        ensures
            match r {
                Some(w) => is_first_missing(self@, w as int),
                None => complete(self@),
            },
    {
        let mut w: usize = 0;
        while w < self.slots.len()
            invariant
                w <= self.slots.len(),
                forall|k: int| 0 <= k < w ==> (#[trigger] self@[k]) is Some,
            decreases self.slots.len() - w,
        {
            if self.slots[w].is_none() {
                return Some(w);
            }
            w = w + 1;
        }
        None
    }

    /// Adds the buffers, in worker order, into the bodies' accelerations,
    /// each of which starts again from zero. Nothing is written unless
    /// every worker has handed in its buffer.
    pub fn finish(&self, bodies: &mut Vec<Body<S>>) -> (r: Result<(), GatherError>)
        requires
            self.well_formed(),
        ensures
            match reduction_fault(self@, self.body_count(), old(bodies).len()) {
                Some(e) => r == Err::<(), GatherError>(e) && final(bodies)@ == old(bodies)@,
                None => r == Ok::<(), GatherError>(()) && final(bodies)@ == reduced(
                    old(bodies)@,
                    gathered(self@),
                ),
            },
    {
        let n: usize = bodies.len();
        if n != self.bodies {
            return Err(GatherError::StoreResized { length: n });
        }
        match self.missing() {
            Some(worker) => {
                proof {
                    lemma_first_missing_is_unique(self@, worker as int);
                }
                return Err(GatherError::Missing { worker });
            },
            None => {},
        }
        let ghost buffers = gathered(self@);
        let mut i: usize = 0;
        while i < n
            invariant
                i <= n,
                n == bodies.len(),
                n == old(bodies).len(),
                n == self.bodies,
                self.well_formed(),
                complete(self@),
                buffers == gathered(self@),
                forall|k: int| 0 <= k < i ==> bodies[k] == reduced(old(bodies)@, buffers)[k],
                forall|k: int| i <= k < n ==> bodies[k] == old(bodies)[k],
            decreases n - i,
        {
            let mut total: Vec3<S> = Vec3::zero();
            let mut w: usize = 0;
            while w < self.slots.len()
                invariant
                    w <= self.slots.len(),
                    i < n,
                    n == self.bodies,
                    self.well_formed(),
                    complete(self@),
                    buffers == gathered(self@),
                    total == combined(buffers.take(w as int), i as int),
                decreases self.slots.len() - w,
            {
                proof {
                    assert(buffers.take(w + 1).drop_last() =~= buffers.take(w as int));
                    assert(self@[w as int] is Some);
                }
                match &self.slots[w] {
                    Some(buffer) => {
                        total = total.plus(buffer[i]);
                    },
                    None => {},
                }
                w = w + 1;
            }
            proof {
                assert(buffers.take(self.slots.len() as int) =~= buffers);
            }
            let mut body = bodies[i];
            body.acceleration = total;
            bodies.set(i, body);
            i = i + 1;
        }
        proof {
            assert(bodies@ =~= reduced(old(bodies)@, buffers));
        }
        Ok(())
    }
}

/// Recomputes every body's acceleration from the current positions and
/// masses, with the pair evaluations dealt out to `workers` workers.
///
/// The workers' buffers are computed one after the other here. A caller
/// with threads to spare can run `worker_delta` for each worker at the same
/// time and hand the buffers to a `Gather` as they arrive: the outcome is
/// the same.
pub fn acceleration<S: Scalar>(bodies: &mut Vec<Body<S>>, workers: usize)
    requires
        0 < workers,
    ensures
        final(bodies)@ == accelerated(old(bodies)@, workers as int),
{
    let mut gather: Gather<S> = Gather::new(workers, bodies.len());
    let mut w: usize = 0;
    while w < workers
        invariant
            w <= workers,
            bodies@ == old(bodies)@,
            gather.well_formed(),
            gather.body_count() == bodies.len(),
            gather@.len() == workers,
            forall|k: int|
                0 <= k < w ==> (#[trigger] gather@[k]) == Some(
                    worker_contribution(bodies@, workers as int, k),
                ),
            forall|k: int| w <= k < workers ==> (#[trigger] gather@[k]) is None,
        decreases workers - w,
    {
        let delta = worker_delta(bodies, workers, w);
        let filed = gather.accept(w, delta);
        assert(filed is Ok);
        w = w + 1;
    }
    proof {
        assert(gathered(gather@) =~= contributions(bodies@, workers as int));
    }
    let reduced = gather.finish(bodies);
    assert(reduced is Ok);
}

/// A store with fewer than two bodies gives no worker anything to do.
pub proof fn lemma_lone_body_contributes_nothing<S: Scalar>(
    bodies: Seq<Body<S>>,
    workers: int,
    w: int,
)
    requires
        bodies.len() <= 1,
        0 < workers,
        0 <= w < workers,
    ensures
        worker_schedule(bodies.len() as int, workers, w).len() == 0,
        worker_contribution(bodies, workers, w) == zeros::<S>(bodies.len()),
{
    let n = bodies.len() as int;
    let pairs = worker_schedule(n, workers, w);
    lemma_range_bounds(n, workers, w);
    lemma_schedule_members(range_start(n, workers, w), range_end(n, workers, w), n);
    if pairs.len() > 0 {
        assert(pairs[0] == (pairs[0].0, pairs[0].1));
        assert(pairs.contains((pairs[0].0, pairs[0].1)));
    }
}

/// Adding up buffers whose entries for body `i` are all zero gives zero.
pub proof fn lemma_combined_zeros<S: Scalar>(buffers: Seq<Seq<Vec3<S>>>, i: int)
    requires
        zero_is_neutral::<S>(),
        forall|w: int| 0 <= w < buffers.len() ==> (#[trigger] buffers[w])[i] == Vec3::<S>::zero_value(),
    ensures
        combined(buffers, i) == Vec3::<S>::zero_value(),
    decreases buffers.len(),
{
    if buffers.len() > 0 {
        lemma_combined_zeros(buffers.drop_last(), i);
    }
}

/// Adding up buffers whose entries for body `i` are zero in all buffers
/// but the one of worker `o` gives that buffer's entry.
pub proof fn lemma_combined_single<S: Scalar>(buffers: Seq<Seq<Vec3<S>>>, i: int, o: int)
    requires
        zero_is_neutral::<S>(),
        0 <= o < buffers.len(),
        forall|w: int|
            0 <= w < buffers.len() && w != o ==> (#[trigger] buffers[w])[i]
                == Vec3::<S>::zero_value(),
    ensures
        combined(buffers, i) == buffers[o][i],
    decreases buffers.len(),
{
    let rest = buffers.drop_last();
    if o == buffers.len() - 1 {
        lemma_combined_zeros(rest, i);
    } else {
        lemma_combined_single(rest, i, o);
    }
}

/// A single body is never accelerated: with no pair to evaluate, a force
/// evaluation leaves its acceleration at exactly zero and the rest of it
/// untouched.
pub proof fn lemma_lone_body_is_not_accelerated<S: Scalar>(bodies: Seq<Body<S>>, workers: int)
    requires
        zero_is_neutral::<S>(),
        bodies.len() == 1,
        0 < workers,
    ensures
        accelerated(bodies, workers) == seq![
            (Body { acceleration: Vec3::zero_value(), ..bodies[0] }),
        ],
{
    let buffers = contributions(bodies, workers);
    assert forall|w: int| 0 <= w < buffers.len() implies (#[trigger] buffers[w])[0]
        == Vec3::<S>::zero_value() by {
        lemma_lone_body_contributes_nothing(bodies, workers, w);
    }
    lemma_combined_zeros(buffers, 0);
    assert(accelerated(bodies, workers) =~= seq![
        (Body { acceleration: Vec3::zero_value(), ..bodies[0] }),
    ]);
}

/// The term that the pair of a two-body store applies to body 0, with the
/// opposite sign: `(m_1 * s) * d`, where `d = r_0 - r_1` and `s` is the
/// inverse cube of its length.
pub open spec fn pull_on_first<S: Scalar>(bodies: Seq<Body<S>>) -> Vec3<S> {
    let d = bodies[0].position.difference(bodies[1].position);
    d.scaled(bodies[1].mass.product(inverse_cube(d)))
}

/// The term that the pair of a two-body store applies to body 1:
/// `(m_0 * s) * d`, with the same `d` and `s`.
pub open spec fn pull_on_second<S: Scalar>(bodies: Seq<Body<S>>) -> Vec3<S> {
    let d = bodies[0].position.difference(bodies[1].position);
    d.scaled(bodies[0].mass.product(inverse_cube(d)))
}

/// Action and reaction in the buffers. In a two-body store the one pair
/// belongs to one worker. That worker's buffer holds zero less the first
/// body's term and zero plus the second body's term; the two terms are the
/// same separation scaled by the same inverse cube and by the other body's
/// mass. Every other worker hands in zeros.
pub proof fn lemma_two_body_contributions<S: Scalar>(bodies: Seq<Body<S>>, workers: int, w: int)
    requires
        bodies.len() == 2,
        0 < workers,
        0 <= w < workers,
    ensures
        0 <= owner(2, workers, 0) < workers,
        w == owner(2, workers, 0) ==> worker_contribution(bodies, workers, w) == seq![
            Vec3::zero_value().difference(pull_on_first(bodies)),
            Vec3::zero_value().sum(pull_on_second(bodies)),
        ],
        w != owner(2, workers, 0) ==> worker_contribution(bodies, workers, w) == zeros::<S>(2),
{
    let pairs = worker_schedule(2, workers, w);
    lemma_range_bounds(2, workers, w);
    lemma_schedule_members(range_start(2, workers, w), range_end(2, workers, w), 2);
    lemma_pair_has_one_owner(2, workers, 0, 1);
    assert forall|k: int| 0 <= k < pairs.len() implies pairs[k] == (0int, 1int) by {
        assert(pairs[k] == (pairs[k].0, pairs[k].1));
        assert(pairs.contains((pairs[k].0, pairs[k].1)));
    }
    if pairs.len() > 1 {
        assert(pairs[0] == pairs[1]);
    }
    if w == owner(2, workers, 0) {
        assert(worker_schedule(2, workers, w).contains((0int, 1int)));
        assert(pairs.len() == 1) by {
            if pairs.len() == 0 {
                let k = choose|k: int| 0 <= k < pairs.len() && pairs[k] == (0int, 1int);
            }
        }
        assert(pairs =~= seq![(0int, 1int)]);
        assert(pairs.drop_last() =~= Seq::<(int, int)>::empty());
        assert(accumulate(zeros::<S>(2), bodies, pairs.drop_last()) == zeros::<S>(2));
        assert(worker_contribution(bodies, workers, w) =~= seq![
            Vec3::zero_value().difference(pull_on_first(bodies)),
            Vec3::zero_value().sum(pull_on_second(bodies)),
        ]);
    } else {
        if pairs.len() > 0 {
            assert(pairs[0] == (0int, 1int));
            assert(worker_schedule(2, workers, w).contains((0int, 1int)));
        }
        assert(pairs =~= Seq::<(int, int)>::empty());
    }
}

/// Action and reaction. After a force evaluation on a two-body store,
/// whatever the number of workers, body 0 has the acceleration
/// `0 - (m_1 * s) * d` and body 1 has `(m_0 * s) * d`: opposite in sign,
/// along the same separation, each scaled by the other body's mass. With
/// equal masses the first is zero less the second.
pub proof fn lemma_two_body_accelerations<S: Scalar>(bodies: Seq<Body<S>>, workers: int)
    requires
        zero_is_neutral::<S>(),
        bodies.len() == 2,
        0 < workers,
    ensures
        accelerated(bodies, workers)[0].acceleration == Vec3::zero_value().difference(
            pull_on_first(bodies),
        ),
        accelerated(bodies, workers)[1].acceleration == pull_on_second(bodies),
        bodies[0].mass == bodies[1].mass ==> accelerated(bodies, workers)[0].acceleration
            == Vec3::zero_value().difference(accelerated(bodies, workers)[1].acceleration),
{
    let buffers = contributions(bodies, workers);
    let o = owner(2, workers, 0);
    lemma_two_body_contributions(bodies, workers, 0);
    assert forall|w: int| 0 <= w < buffers.len() && w != o implies (#[trigger] buffers[w])[0]
        == Vec3::<S>::zero_value() && buffers[w][1] == Vec3::<S>::zero_value() by {
        lemma_two_body_contributions(bodies, workers, w);
    }
    lemma_two_body_contributions(bodies, workers, o);
    lemma_combined_single(buffers, 0, o);
    lemma_combined_single(buffers, 1, o);
}

/// With exact products, `m_0 * ((m_1 * s) * x)` and `m_1 * ((m_0 * s) * x)`
/// are the same number.
pub proof fn lemma_masses_trade_places<S: Scalar>(m0: S, m1: S, s: S, x: S)
    requires
        products_are_exact::<S>(),
    ensures
        m0.product(m1.product(s).product(x)) == m1.product(m0.product(s).product(x)),
{
    assert(m0.product(m1.product(s)).product(x) == m0.product(m1.product(s).product(x)));
    assert(m0.product(m1).product(s) == m0.product(m1.product(s)));
    assert(m0.product(m1) == m1.product(m0));
    assert(m1.product(m0).product(s) == m1.product(m0.product(s)));
    assert(m1.product(m0.product(s)).product(x) == m1.product(m0.product(s).product(x)));
}

/// Action and reaction in algebraic form. Where zero is neutral and
/// products are exact, the accelerations of a two-body store balance:
/// `m_0 * a_0` is zero less `m_1 * a_1`, component by component. So each
/// acceleration is the negation of the other scaled by the ratio of the
/// masses.
pub proof fn lemma_momentum_is_balanced<S: Scalar>(bodies: Seq<Body<S>>, workers: int)
    requires
        zero_is_neutral::<S>(),
        products_are_exact::<S>(),
        bodies.len() == 2,
        0 < workers,
    ensures
        accelerated(bodies, workers)[0].acceleration.scaled(bodies[0].mass)
            == Vec3::zero_value().difference(
            accelerated(bodies, workers)[1].acceleration.scaled(bodies[1].mass),
        ),
{
    lemma_two_body_accelerations(bodies, workers);
    let m0 = bodies[0].mass;
    let m1 = bodies[1].mass;
    let d = bodies[0].position.difference(bodies[1].position);
    let s = inverse_cube(d);
    let a0 = accelerated(bodies, workers)[0].acceleration;
    let a1 = accelerated(bodies, workers)[1].acceleration;
    let zero = S::zero_value();
    assert(a0 == Vec3::zero_value().difference(d.scaled(m1.product(s))));
    assert(a1 == d.scaled(m0.product(s)));
    lemma_masses_trade_places(m0, m1, s, d.x);
    lemma_masses_trade_places(m0, m1, s, d.y);
    lemma_masses_trade_places(m0, m1, s, d.z);
    assert(m0.product(zero.difference(m1.product(s).product(d.x))) == zero.difference(
        m0.product(m1.product(s).product(d.x)),
    ));
    assert(m0.product(zero.difference(m1.product(s).product(d.y))) == zero.difference(
        m0.product(m1.product(s).product(d.y)),
    ));
    assert(m0.product(zero.difference(m1.product(s).product(d.z))) == zero.difference(
        m0.product(m1.product(s).product(d.z)),
    ));
}

/// What the slots hold after any sequence of arrivals in which every
/// buffer offered is the one that `table` lists for its worker: the
/// table's buffer for each worker heard from, and nothing for the others.
pub proof fn lemma_delivered<S: Scalar>(
    table: Seq<Seq<Vec3<S>>>,
    bodies: nat,
    arrivals: Seq<(int, Seq<Vec3<S>>)>,
)
    requires
        forall|w: int| 0 <= w < table.len() ==> (#[trigger] table[w]).len() == bodies,
        forall|k: int|
            0 <= k < arrivals.len() ==> 0 <= (#[trigger] arrivals[k]).0 < table.len()
                && arrivals[k].1 == table[arrivals[k].0],
    ensures
        delivered(nothing_filed::<S>(table.len()), bodies, arrivals).len() == table.len(),
        forall|w: int|
            0 <= w < table.len() ==> #[trigger] delivered(
                nothing_filed::<S>(table.len()),
                bodies,
                arrivals,
            )[w] == (if heard_from(arrivals, w) {
                Some(table[w])
            } else {
                None
            }),
    decreases arrivals.len(),
{
    let start = nothing_filed::<S>(table.len());
    if arrivals.len() > 0 {
        let head = arrivals.drop_last();
        let last = arrivals.last();
        lemma_delivered(table, bodies, head);
        let now = delivered(start, bodies, arrivals);
        assert forall|w: int| 0 <= w < table.len() implies #[trigger] now[w] == (if heard_from(
            arrivals,
            w,
        ) {
            Some(table[w])
        } else {
            None
        }) by {
            let heard_before = heard_from(head, w);
            let heard_now = heard_from(arrivals, w);
            if heard_before {
                let k = choose|k: int| 0 <= k < head.len() && (#[trigger] head[k]).0 == w;
                assert(arrivals[k].0 == w);
            }
            if last.0 == w {
                assert(arrivals[arrivals.len() - 1].0 == w);
            }
            if heard_now && !heard_before {
                let k = choose|k: int| 0 <= k < arrivals.len() && (#[trigger] arrivals[k]).0 == w;
                if k < head.len() {
                    assert(head[k].0 == w);
                }
            }
        }
    }
}

/// Determinism. Let the workers' buffers arrive in any order, each worker
/// heard from at least once: the reduction then yields the accelerations
/// that `acceleration` computes on the same store, so a force evaluation is
/// a function of the store and the worker count alone.
pub proof fn lemma_arrival_order_is_irrelevant<S: Scalar>(
    bodies: Seq<Body<S>>,
    workers: int,
    arrivals: Seq<(int, Seq<Vec3<S>>)>,
)
    requires
        0 < workers,
        forall|k: int|
            0 <= k < arrivals.len() ==> 0 <= (#[trigger] arrivals[k]).0 < workers && arrivals[k].1
                == worker_contribution(bodies, workers, arrivals[k].0),
        forall|w: int| 0 <= w < workers ==> heard_from(arrivals, w),
    ensures
        complete(delivered(nothing_filed::<S>(workers as nat), bodies.len(), arrivals)),
        reduced(
            bodies,
            gathered(delivered(nothing_filed::<S>(workers as nat), bodies.len(), arrivals)),
        ) == accelerated(bodies, workers),
{
    let table = contributions(bodies, workers);
    assert forall|w: int| 0 <= w < table.len() implies (#[trigger] table[w]).len()
        == bodies.len() by {
        lemma_contribution_len(bodies, workers, w);
    }
    lemma_delivered(table, bodies.len(), arrivals);
    let slots = delivered(nothing_filed::<S>(workers as nat), bodies.len(), arrivals);
    assert(gathered(slots) =~= table);
}

/// Evaluating pairs of indices within a buffer never changes its length.
pub proof fn lemma_accumulate_len<S: Scalar>(
    buffer: Seq<Vec3<S>>,
    bodies: Seq<Body<S>>,
    pairs: Seq<(int, int)>,
)
    requires
        forall|k: int|
            0 <= k < pairs.len() ==> 0 <= (#[trigger] pairs[k]).0 < buffer.len() && 0
                <= pairs[k].1 < buffer.len(),
    ensures
        accumulate(buffer, bodies, pairs).len() == buffer.len(),
    decreases pairs.len(),
{
    if pairs.len() > 0 {
        lemma_accumulate_len(buffer, bodies, pairs.drop_last());
    }
}

/// A worker's contribution has one entry per body.
pub proof fn lemma_contribution_len<S: Scalar>(bodies: Seq<Body<S>>, workers: int, w: int)
    requires
        0 < workers,
        0 <= w < workers,
    ensures
        worker_contribution(bodies, workers, w).len() == bodies.len(),
{
    let n = bodies.len() as int;
    let pairs = worker_schedule(n, workers, w);
    lemma_range_bounds(n, workers, w);
    lemma_schedule_members(range_start(n, workers, w), range_end(n, workers, w), n);
    assert forall|k: int| 0 <= k < pairs.len() implies 0 <= (#[trigger] pairs[k]).0 < n && 0
        <= pairs[k].1 < n by {
        assert(pairs[k] == (pairs[k].0, pairs[k].1));
        assert(pairs.contains((pairs[k].0, pairs[k].1)));
    }
    lemma_accumulate_len(zeros::<S>(bodies.len()), bodies, pairs);
}

} // verus!
