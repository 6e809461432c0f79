use nbody::body::Body;
use nbody::driver::{Config, Progress, Simulation};
use nbody::energy::energies;
use nbody::fixed::{Fixed, HALF_SCALE, SCALE};
use nbody::force::{acceleration, worker_delta};
use nbody::integrator::step;
use nbody::scalar::Scalar;
use nbody::vector::Vec3;

fn whole(n: i32) -> Fixed {
    Fixed::from_integer(n)
}

fn vec3(x: i32, y: i32, z: i32) -> Vec3<Fixed> {
    Vec3::new(whole(x), whole(y), whole(z))
}

fn raw(v: Vec3<Fixed>) -> (i64, i64, i64) {
    (v.x.raw, v.y.raw, v.z.raw)
}

#[test]
fn constants() {
    assert_eq!(SCALE, 4294967296);
    assert_eq!(HALF_SCALE, 2147483648);
    assert_eq!(Fixed::zero(), Fixed::from_raw(0));
    assert_eq!(Fixed::one(), whole(1));
    assert_eq!(Fixed::half().plus(Fixed::half()), Fixed::one());
    assert_eq!(whole(-3).raw, -3 * 4294967296);
}

#[test]
fn sums_and_differences() {
    assert_eq!(whole(2).plus(whole(3)), whole(5));
    assert_eq!(whole(2).minus(whole(3)), whole(-1));
    assert_eq!(Fixed::zero().plus(whole(7)), whole(7));
    assert_eq!(whole(7).plus(Fixed::zero()), whole(7));
}

#[test]
fn sums_are_clamped() {
    let most = Fixed::from_raw(i64::MAX);
    let least = Fixed::from_raw(i64::MIN);
    assert_eq!(most.plus(Fixed::from_raw(1)), most);
    assert_eq!(least.minus(Fixed::from_raw(1)), least);
    assert_eq!(least.plus(most), Fixed::from_raw(-1));
    assert_eq!(Fixed::zero().minus(least), most);
}

#[test]
fn products_round_toward_zero() {
    assert_eq!(whole(3).times(whole(4)), whole(12));
    assert_eq!(whole(-3).times(whole(4)), whole(-12));
    assert_eq!(whole(-3).times(whole(-4)), whole(12));
    assert_eq!(Fixed::half().times(Fixed::half()), Fixed::from_raw(1 << 30));
    assert_eq!(Fixed::half().times(Fixed::from_raw(1)), Fixed::from_raw(0));
    assert_eq!(Fixed::half().times(Fixed::from_raw(-1)), Fixed::from_raw(0));
    assert_eq!(Fixed::half().times(Fixed::from_raw(-3)), Fixed::from_raw(-1));
}

#[test]
fn products_are_clamped() {
    let big = whole(100_000);
    assert_eq!(big.times(big), Fixed::from_raw(i64::MAX));
    assert_eq!(big.times(whole(-100_000)), Fixed::from_raw(i64::MIN));
    let least = Fixed::from_raw(i64::MIN);
    assert_eq!(least.times(whole(1)), least);
    assert_eq!(least.times(whole(-1)), Fixed::from_raw(i64::MAX));
}

#[test]
fn quotients_round_toward_zero() {
    assert_eq!(whole(12).over(whole(4)), whole(3));
    assert_eq!(whole(1).over(whole(2)), Fixed::half());
    assert_eq!(whole(1).over(whole(3)), Fixed::from_raw(1431655765));
    assert_eq!(whole(-1).over(whole(3)), Fixed::from_raw(-1431655765));
    assert_eq!(whole(1).over(whole(-3)), Fixed::from_raw(-1431655765));
}

#[test]
fn quotient_by_zero_is_clamped() {
    assert_eq!(whole(1).over(Fixed::zero()), Fixed::from_raw(i64::MAX));
    assert_eq!(whole(-1).over(Fixed::zero()), Fixed::from_raw(i64::MIN));
    assert_eq!(Fixed::zero().over(Fixed::zero()), Fixed::zero());
    assert_eq!(whole(1).over(Fixed::from_raw(1)), Fixed::from_raw(i64::MAX));
}

#[test]
fn roots_round_down() {
    assert_eq!(whole(4).sqrt(), whole(2));
    assert_eq!(whole(1).sqrt(), whole(1));
    assert_eq!(whole(2).sqrt(), Fixed::from_raw(6074000999));
    assert_eq!(Fixed::from_raw(1 << 30).sqrt(), Fixed::half());
    assert_eq!(Fixed::zero().sqrt(), Fixed::zero());
    assert_eq!(whole(-4).sqrt(), Fixed::zero());
    let most = Fixed::from_raw(i64::MAX).sqrt();
    assert_eq!(most.raw, 199032864766430);
}

#[test]
fn order() {
    assert!(whole(1).lt(whole(2)));
    assert!(!whole(2).lt(whole(2)));
    assert!(whole(-1).lt(Fixed::zero()));
}

#[test]
fn norm_of_a_pythagorean_vector() {
    assert_eq!(vec3(3, 4, 0).norm(), whole(5));
    assert_eq!(vec3(2, 3, 6).norm(), whole(7));
}

#[test]
fn pair_terms_are_scaled_by_the_other_mass() {
    // d = r_0 - r_1 = (-2, 0, 0), |d|^3 = 8, s = 1/8:
    // a_0 = 0 - (3 * s) * d, a_1 = 0 + (2 * s) * d.
    for workers in [1usize, 2, 3, 8] {
        let mut bodies = vec![
            Body::new(whole(2), vec3(0, 0, 0), vec3(0, 0, 0)),
            Body::new(whole(3), vec3(2, 0, 0), vec3(0, 0, 0)),
        ];
        acceleration(&mut bodies, workers);
        assert_eq!(raw(bodies[0].acceleration), (3221225472, 0, 0));
        assert_eq!(raw(bodies[1].acceleration), (-2147483648, 0, 0));
    }
}

#[test]
fn acceleration_acts_along_every_axis() {
    let mut bodies = vec![
        Body::new(whole(1), vec3(0, 0, 0), vec3(0, 0, 0)),
        Body::new(whole(27), vec3(1, 2, 2), vec3(0, 0, 0)),
    ];
    acceleration(&mut bodies, 1);
    // |d| = 3, s = 1/27 rounded down; the term is (27 * s) * d.
    let s = whole(1).over(whole(27));
    let k = whole(27).times(s);
    assert_eq!(bodies[0].acceleration.x, Fixed::zero().minus(k.times(whole(-1))));
    assert_eq!(bodies[0].acceleration.y, Fixed::zero().minus(k.times(whole(-2))));
    assert_eq!(bodies[0].acceleration.z, Fixed::zero().minus(k.times(whole(-2))));
    assert_eq!(bodies[1].acceleration.x, s.times(whole(-1)));
    assert_eq!(bodies[1].acceleration.y, s.times(whole(-2)));
    assert_eq!(bodies[1].acceleration.z, s.times(whole(-2)));
}

fn cluster() -> Vec<Body<Fixed>> {
    let mut bodies = Vec::new();
    for i in 0..7i32 {
        bodies.push(Body::new(
            whole(1 + i),
            vec3(3 * i, i * i - 5, 2 - i),
            vec3(i, -i, 1),
        ));
    }
    bodies
}

#[test]
fn contributions_cover_only_the_workers_own_rows() {
    let bodies = cluster();
    // Worker 0 of 3 owns the outer indices 0 and 1, worker 2 owns 4, 5
    // and 6: worker 2 has nothing to say about the bodies before 4.
    let last = worker_delta(&bodies, 3, 2);
    assert_eq!(last.len(), 7);
    for i in 0..4 {
        assert_eq!(raw(last[i]), (0, 0, 0));
    }
    let first = worker_delta(&bodies, 3, 0);
    assert_ne!(raw(first[0]), (0, 0, 0));
    assert_ne!(raw(first[6]), (0, 0, 0));
}

#[test]
fn two_evaluations_of_one_store_agree() {
    let mut first = cluster();
    let mut second = cluster();
    acceleration(&mut first, 3);
    acceleration(&mut second, 3);
    for i in 0..first.len() {
        assert_eq!(raw(first[i].acceleration), raw(second[i].acceleration));
    }
    acceleration(&mut second, 3);
    for i in 0..first.len() {
        assert_eq!(raw(first[i].acceleration), raw(second[i].acceleration));
    }
}

#[test]
fn force_evaluation_leaves_the_rest_of_a_body_alone() {
    let before = cluster();
    let mut after = cluster();
    acceleration(&mut after, 4);
    assert_eq!(after.len(), before.len());
    for i in 0..before.len() {
        assert_eq!(after[i].mass, before[i].mass);
        assert_eq!(raw(after[i].position), raw(before[i].position));
        assert_eq!(raw(after[i].velocity), raw(before[i].velocity));
        assert_eq!(raw(after[i].previous_acceleration), (0, 0, 0));
    }
}

#[test]
fn energy_of_two_bodies() {
    let bodies = vec![
        Body::new(whole(2), vec3(0, 0, 0), vec3(3, 4, 0)),
        Body::new(whole(3), vec3(2, 0, 0), vec3(0, 0, 0)),
    ];
    let report = energies(&bodies);
    // kinetic: (1/2 * 2) * 5 + (1/2 * 3) * 0; potential: 0 - (2 * 3) / 2
    assert_eq!(report.kinetic, whole(5));
    assert_eq!(report.potential, whole(-3));
    assert_eq!(report.total, whole(2));
}

#[test]
fn energy_of_nothing_is_zero() {
    let bodies: Vec<Body<Fixed>> = Vec::new();
    let report = energies(&bodies);
    assert_eq!(report.kinetic, Fixed::zero());
    assert_eq!(report.potential, Fixed::zero());
    assert_eq!(report.total, Fixed::zero());
}

#[test]
fn lone_body_moves_in_a_straight_line() {
    let mut bodies = vec![Body::new(whole(5), vec3(1, 2, 3), vec3(4, -2, 6))];
    for _ in 0..4 {
        step(&mut bodies, Fixed::half(), 8);
        assert_eq!(raw(bodies[0].acceleration), (0, 0, 0));
    }
    assert_eq!(raw(bodies[0].position), raw(vec3(9, -2, 15)));
    assert_eq!(raw(bodies[0].velocity), raw(vec3(4, -2, 6)));
    assert_eq!(energies(&bodies).potential, Fixed::zero());
}

#[test]
fn empty_store_runs_to_the_end() {
    let config = Config { dt: whole(1), t_end: whole(25), workers: 3 };
    let mut sim = match Simulation::new(config, Vec::<Body<Fixed>>::new()) {
        Ok(sim) => sim,
        Err(_) => panic!("configuration refused"),
    };
    let records = sim.run(1000);
    assert_eq!(sim.step, 25);
    assert_eq!(sim.t, whole(25));
    assert_eq!(records.len(), 2);
    assert_eq!(records[0].t, whole(10));
    assert_eq!(records[1].t, whole(20));
    for record in &records {
        assert_eq!(record.total, Fixed::zero());
        assert_eq!(record.drift, Fixed::zero());
    }
}

#[test]
fn run_stops_at_its_limit() {
    let config = Config { dt: whole(1), t_end: whole(100), workers: 2 };
    let bodies = vec![Body::new(whole(1), vec3(0, 0, 0), vec3(1, 0, 0))];
    let mut sim = match Simulation::new(config, bodies) {
        Ok(sim) => sim,
        Err(_) => panic!("configuration refused"),
    };
    let records = sim.run(15);
    assert_eq!(sim.step, 15);
    assert_eq!(records.len(), 1);
    assert!(!sim.finished());
    let more = sim.run(5);
    assert_eq!(sim.step, 20);
    assert_eq!(more.len(), 1);
    assert_eq!(more[0].t, whole(20));
    assert_eq!(raw(sim.bodies[0].position), raw(vec3(20, 0, 0)));
}

#[test]
fn records_come_every_tenth_step() {
    let config = Config { dt: whole(1), t_end: whole(31), workers: 1 };
    let bodies = vec![Body::new(whole(2), vec3(0, 0, 0), vec3(0, 3, 4))];
    let mut sim = match Simulation::new(config, bodies) {
        Ok(sim) => sim,
        Err(_) => panic!("configuration refused"),
    };
    assert_eq!(sim.initial.total, whole(5));
    let mut reported = Vec::new();
    loop {
        match sim.advance() {
            Progress::Finished => break,
            Progress::Advanced => assert_ne!(sim.step % 10, 0),
            Progress::Reported(record) => {
                assert_eq!(sim.step % 10, 0);
                assert_eq!(record.t, sim.t);
                assert_eq!(record.kinetic, whole(5));
                assert_eq!(record.potential, Fixed::zero());
                assert_eq!(record.total, whole(5));
                assert_eq!(record.drift, Fixed::zero());
                reported.push(sim.step);
            }
        }
    }
    assert_eq!(sim.step, 31);
    assert_eq!(reported, vec![10, 20, 30]);
}

#[test]
fn drift_is_relative_to_the_initial_energy() {
    // Two bodies at rest fall toward each other: the kinetic term grows
    // and the potential term falls, both measured against the start.
    let config = Config { dt: Fixed::from_raw(SCALE / 64), t_end: whole(1), workers: 2 };
    let bodies = vec![
        Body::new(whole(4), vec3(-2, 0, 0), vec3(0, 0, 0)),
        Body::new(whole(4), vec3(2, 0, 0), vec3(0, 0, 0)),
    ];
    let mut sim = match Simulation::new(config, bodies) {
        Ok(sim) => sim,
        Err(_) => panic!("configuration refused"),
    };
    assert_eq!(sim.initial.kinetic, Fixed::zero());
    assert_eq!(sim.initial.potential, whole(-4));
    let records = sim.run(10);
    assert_eq!(records.len(), 1);
    let record = records[0];
    assert_eq!(record.total, record.kinetic.plus(record.potential));
    assert_eq!(
        record.drift,
        record.total.minus(sim.initial.total).over(sim.initial.total)
    );
    assert!(Fixed::zero().lt(record.kinetic));
    assert!(record.potential.lt(whole(-4)));
}

#[test]
fn mass_is_meant_to_be_positive() {
    assert!(Body::new(whole(1), vec3(0, 0, 0), vec3(0, 0, 0)).positive_mass());
    assert!(Body::new(Fixed::from_raw(1), vec3(0, 0, 0), vec3(0, 0, 0)).positive_mass());
    assert!(!Body::new(whole(0), vec3(0, 0, 0), vec3(0, 0, 0)).positive_mass());
    assert!(!Body::new(whole(-1), vec3(0, 0, 0), vec3(0, 0, 0)).positive_mass());
}
