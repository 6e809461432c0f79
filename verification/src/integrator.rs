//! The leapfrog integrator.
//!
//! One step moves every body with its current velocity and acceleration,
//! has the force engine recompute the accelerations at the new positions,
//! and then advances every velocity by the mean of the old and the new
//! acceleration. The three axes are treated alike.
use vstd::prelude::*;
use crate::body::same_population;
use crate::body::Body;
use crate::force::accelerated;
use crate::force::acceleration;
use crate::force::lemma_lone_body_is_not_accelerated;
use crate::scalar::zero_is_neutral;
use crate::scalar::Scalar;
use crate::vector::Vec3;

verus! {

/// A body after the position update: the acceleration is remembered and
/// the position becomes `r + (dt * v + ((1/2 * dt) * dt) * a)`.
pub open spec fn moved<S: Scalar>(body: Body<S>, dt: S) -> Body<S> {
    Body {
        position: body.position.sum(
            body.velocity.scaled(dt).sum(
                body.acceleration.scaled(S::half_value().product(dt).product(dt)),
            ),
        ),
        previous_acceleration: body.acceleration,
        ..body
    }
}

/// A body after the velocity update: the velocity becomes
/// `v + (1/2 * dt) * (a_previous + a)`, and the acceleration is remembered.
pub open spec fn kicked<S: Scalar>(body: Body<S>, dt: S) -> Body<S> {
    Body {
        velocity: body.velocity.sum(
            body.previous_acceleration.sum(body.acceleration).scaled(S::half_value().product(dt)),
        ),
        previous_acceleration: body.acceleration,
        ..body
    }
}

/// Every body moved.
pub open spec fn all_moved<S: Scalar>(bodies: Seq<Body<S>>, dt: S) -> Seq<Body<S>> {
    Seq::new(bodies.len(), |i: int| moved(bodies[i], dt))
}

/// Every body kicked.
pub open spec fn all_kicked<S: Scalar>(bodies: Seq<Body<S>>, dt: S) -> Seq<Body<S>> {
    Seq::new(bodies.len(), |i: int| kicked(bodies[i], dt))
}

/// The store after one full step.
pub open spec fn stepped<S: Scalar>(bodies: Seq<Body<S>>, dt: S, workers: int) -> Seq<Body<S>> {
    all_kicked(accelerated(all_moved(bodies, dt), workers), dt)
}

/// Moves every body by one time step.
pub fn update_positions<S: Scalar>(bodies: &mut Vec<Body<S>>, dt: S)
    ensures
        final(bodies)@ == all_moved(old(bodies)@, dt),
{
    let n: usize = bodies.len();
    let step = S::half().times(dt).times(dt);
    let mut i: usize = 0;
    while i < n
        invariant
            i <= n,
            n == bodies.len(),
            n == old(bodies).len(),
            step == S::half_value().product(dt).product(dt),
            forall|k: int| 0 <= k < i ==> bodies[k] == moved(old(bodies)[k], dt),
            forall|k: int| i <= k < n ==> bodies[k] == old(bodies)[k],
        decreases n - i,
    {
        let mut body = bodies[i];
        body.previous_acceleration = body.acceleration;
        body.position = body.position.plus(
            body.velocity.scale(dt).plus(body.previous_acceleration.scale(step)),
        );
        bodies.set(i, body);
        i = i + 1;
    }
    proof {
        assert(bodies@ =~= all_moved(old(bodies)@, dt));
    }
}

/// Advances every velocity by one time step.
pub fn update_velocities<S: Scalar>(bodies: &mut Vec<Body<S>>, dt: S)
    ensures
        final(bodies)@ == all_kicked(old(bodies)@, dt),
{
    let n: usize = bodies.len();
    let half_step = S::half().times(dt);
    let mut i: usize = 0;
    while i < n
        invariant
            i <= n,
            n == bodies.len(),
            n == old(bodies).len(),
            half_step == S::half_value().product(dt),
            forall|k: int| 0 <= k < i ==> bodies[k] == kicked(old(bodies)[k], dt),
            forall|k: int| i <= k < n ==> bodies[k] == old(bodies)[k],
        decreases n - i,
    {
        let mut body = bodies[i];
        body.velocity = body.velocity.plus(
            body.previous_acceleration.plus(body.acceleration).scale(half_step),
        );
        body.previous_acceleration = body.acceleration;
        bodies.set(i, body);
        i = i + 1;
    }
    proof {
        assert(bodies@ =~= all_kicked(old(bodies)@, dt));
    }
}

/// Advances the store by one time step.
pub fn step<S: Scalar>(bodies: &mut Vec<Body<S>>, dt: S, workers: usize)
    requires
        0 < workers,
    ensures
        final(bodies)@ == stepped(old(bodies)@, dt, workers as int),
{
    update_positions(bodies, dt);
    acceleration(bodies, workers);
    update_velocities(bodies, dt);
}

/// A step neither adds nor removes a body, and changes no mass.
pub proof fn lemma_step_keeps_the_bodies<S: Scalar>(bodies: Seq<Body<S>>, dt: S, workers: int)
    ensures
        same_population(bodies, stepped(bodies, dt, workers)),
{
}

/// A single body is not accelerated by any step: its acceleration is
/// exactly zero after each.
pub proof fn lemma_lone_body_stays_unaccelerated<S: Scalar>(
    bodies: Seq<Body<S>>,
    dt: S,
    workers: int,
)
    requires
        zero_is_neutral::<S>(),
        bodies.len() == 1,
        0 < workers,
    ensures
        stepped(bodies, dt, workers).len() == 1,
        stepped(bodies, dt, workers)[0].acceleration == Vec3::<S>::zero_value(),
{
    lemma_lone_body_is_not_accelerated(all_moved(bodies, dt), workers);
}

} // verus!
