//! The energy monitor.
//!
//! It reads the store and never writes to it, so two reports on an
//! unchanged store are equal.
use vstd::prelude::*;
use crate::body::same_motion;
use crate::body::Body;
use crate::partition::lemma_schedule_members;
use crate::partition::row;
use crate::partition::schedule;
use crate::scalar::Scalar;

verus! {

/// Kinetic, potential and total energy of a store at one moment.
#[derive(Debug)]
pub struct EnergyReport<S: Scalar> {
    /// `kinetic + potential`.
    pub total: S,
    pub kinetic: S,
    pub potential: S,
}

impl<S: Scalar> Clone for EnergyReport<S> {
    fn clone(&self) -> (r: Self)
        ensures
            r == *self,
    {
        *self
    }
}

impl<S: Scalar> Copy for EnergyReport<S> {

}

/// The kinetic term of one body: `(1/2 * m) * |v|`.
///
/// The term is linear in the speed. It is half the momentum's magnitude,
/// not the textbook `1/2 * m * v^2`, and every drift figure this monitor
/// has produced is relative to it.
pub open spec fn kinetic_term<S: Scalar>(body: Body<S>) -> S {
    S::half_value().product(body.mass).product(body.velocity.length())
}

/// The kinetic terms of the bodies added up from zero, first body first.
pub open spec fn kinetic_energy<S: Scalar>(bodies: Seq<Body<S>>) -> S
    decreases bodies.len(),
{
    if bodies.len() == 0 {
        S::zero_value()
    } else {
        kinetic_energy(bodies.drop_last()).sum(kinetic_term(bodies.last()))
    }
}

/// What a pair takes from the potential energy: `(m_a * m_b) / |r_a - r_b|`.
pub open spec fn pair_potential<S: Scalar>(a: Body<S>, b: Body<S>) -> S {
    a.mass.product(b.mass).quotient(a.position.difference(b.position).length())
}

/// Zero less the potential terms of the given pairs, first pair first.
pub open spec fn potential_over<S: Scalar>(bodies: Seq<Body<S>>, pairs: Seq<(int, int)>) -> S
    decreases pairs.len(),
{
    if pairs.len() == 0 {
        S::zero_value()
    } else {
        potential_over(bodies, pairs.drop_last()).difference(
            pair_potential(bodies[pairs.last().0], bodies[pairs.last().1]),
        )
    }
}

/// The potential energy: every pair `(i, j)`, `i < j`, counted once.
pub open spec fn potential_energy<S: Scalar>(bodies: Seq<Body<S>>) -> S {
    potential_over(bodies, schedule(0, bodies.len() as int, bodies.len() as int))
}

/// The report on a store.
pub open spec fn energy_report<S: Scalar>(bodies: Seq<Body<S>>) -> EnergyReport<S> {
    EnergyReport {
        total: kinetic_energy(bodies).sum(potential_energy(bodies)),
        kinetic: kinetic_energy(bodies),
        potential: potential_energy(bodies),
    }
}

/// Computes the kinetic energy of the store.
pub fn kinetic<S: Scalar>(bodies: &Vec<Body<S>>) -> (e: S)
    ensures
        e == kinetic_energy(bodies@),
{
    let mut e: S = S::zero();
    let mut i: usize = 0;
    while i < bodies.len()
        invariant
            i <= bodies.len(),
            e == kinetic_energy(bodies@.take(i as int)),
        decreases bodies.len() - i,
    {
        proof {
            assert(bodies@.take(i + 1).drop_last() =~= bodies@.take(i as int));
        }
        let speed = bodies[i].velocity.norm();
        e = e.plus(S::half().times(bodies[i].mass).times(speed));
        i = i + 1;
    }
    proof {
        assert(bodies@.take(bodies.len() as int) =~= bodies@);
    }
    e
}

/// Computes the potential energy of the store.
pub fn potential<S: Scalar>(bodies: &Vec<Body<S>>) -> (e: S)
    ensures
        e == potential_energy(bodies@),
{
    let n: usize = bodies.len();
    let mut e: S = S::zero();
    let mut i: usize = 0;
    while i < n
        invariant
            i <= n,
            n == bodies.len(),
            e == potential_over(bodies@, schedule(0, i as int, n as int)),
        decreases n - i,
    {
        let ghost done = schedule(0, i as int, n as int);
        let mut j: usize = i + 1;
        proof {
            assert(done + row(i as int, j as int) =~= done);
        }
        while j < n
            invariant
                i < j <= n,
                n == bodies.len(),
                e == potential_over(bodies@, done + row(i as int, j as int)),
            decreases n - j,
        {
            proof {
                let before = done + row(i as int, j as int);
                let after = done + row(i as int, j + 1);
                assert(after.drop_last() =~= before);
                assert(after.last() == (i as int, j as int));
            }
            let distance = bodies[i].position.minus(bodies[j].position).norm();
            e = e.minus(bodies[i].mass.times(bodies[j].mass).over(distance));
            j = j + 1;
        }
        i = i + 1;
    }
    e
}

/// Reports the energy of the store.
pub fn energies<S: Scalar>(bodies: &Vec<Body<S>>) -> (report: EnergyReport<S>)
    ensures
        report == energy_report(bodies@),
{
    let kinetic = kinetic(bodies);
    let potential = potential(bodies);
    EnergyReport { total: kinetic.plus(potential), kinetic, potential }
}

/// The kinetic energy depends on masses and velocities alone.
pub proof fn lemma_kinetic_ignores_accelerations<S: Scalar>(a: Seq<Body<S>>, b: Seq<Body<S>>)
    requires
        same_motion(a, b),
    ensures
        kinetic_energy(a) == kinetic_energy(b),
    decreases a.len(),
{
    if a.len() > 0 {
        assert(a.last().mass == b.last().mass && a.last().velocity == b.last().velocity) by {
            assert(a[a.len() - 1].mass == b[a.len() - 1].mass);
        }
        lemma_kinetic_ignores_accelerations(a.drop_last(), b.drop_last());
    }
}

/// The potential terms of pairs of bodies in the store depend on masses
/// and positions alone.
pub proof fn lemma_potential_ignores_accelerations<S: Scalar>(
    a: Seq<Body<S>>,
    b: Seq<Body<S>>,
    pairs: Seq<(int, int)>,
)
    requires
        same_motion(a, b),
        forall|k: int|
            0 <= k < pairs.len() ==> 0 <= (#[trigger] pairs[k]).0 < a.len() && 0 <= pairs[k].1
                < a.len(),
    ensures
        potential_over(a, pairs) == potential_over(b, pairs),
    decreases pairs.len(),
{
    if pairs.len() > 0 {
        let (i, j) = pairs.last();
        assert(pairs[pairs.len() - 1] == (i, j));
        assert(a[i].mass == b[i].mass && a[i].position == b[i].position);
        assert(a[j].mass == b[j].mass && a[j].position == b[j].position);
        lemma_potential_ignores_accelerations(a, b, pairs.drop_last());
    }
}

/// Repeatable diagnostics. The report is a function of the masses,
/// positions and velocities in the store: two stores that agree on those
/// get the same report, whatever their accelerations. In particular a
/// second report on a store that has not changed equals the first, and so
/// does a report taken after a force evaluation.
pub proof fn lemma_report_is_repeatable<S: Scalar>(a: Seq<Body<S>>, b: Seq<Body<S>>)
    requires
        same_motion(a, b),
    ensures
        energy_report(a) == energy_report(b),
{
    let n = a.len() as int;
    let pairs = schedule(0, n, n);
    lemma_schedule_members(0, n, n);
    assert forall|k: int| 0 <= k < pairs.len() implies 0 <= (#[trigger] pairs[k]).0 < n && 0
        <= pairs[k].1 < n by {
        assert(pairs[k] == (pairs[k].0, pairs[k].1));
        assert(pairs.contains((pairs[k].0, pairs[k].1)));
    }
    lemma_kinetic_ignores_accelerations(a, b);
    lemma_potential_ignores_accelerations(a, b, pairs);
}

/// With fewer than two bodies there is no pair, and the potential energy
/// is exactly zero.
pub proof fn lemma_lone_body_has_no_potential<S: Scalar>(bodies: Seq<Body<S>>)
    requires
        bodies.len() <= 1,
    ensures
        potential_energy(bodies) == S::zero_value(),
{
    let n = bodies.len() as int;
    let pairs = schedule(0, n, n);
    lemma_schedule_members(0, n, n);
    if pairs.len() > 0 {
        assert(pairs[0] == (pairs[0].0, pairs[0].1));
        assert(pairs.contains((pairs[0].0, pairs[0].1)));
    }
}

} // verus!
