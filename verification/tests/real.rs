use nbody::body::Body;
use nbody::driver::{Config, Progress, SetupError, Simulation};
use nbody::energy::energies;
use nbody::force::{acceleration, pair_interaction, worker_delta, zero_buffer, Gather, GatherError};
use nbody::input::{bodies_from_records, fields, lines, InputError};
use nbody::integrator::{step, update_positions, update_velocities};
use nbody::scalar::Scalar;
use nbody::vector::Vec3;

/// Double-precision numbers as the engine's scalar.
#[derive(Clone, Copy, Debug, PartialEq)]
struct Real(f64);

impl Scalar for Real {
    fn zero_value() -> Self {
        Real(0.0)
    }

    fn one_value() -> Self {
        Real(1.0)
    }

    fn half_value() -> Self {
        Real(0.5)
    }

    fn sum(self, rhs: Self) -> Self {
        Real(self.0 + rhs.0)
    }

    fn difference(self, rhs: Self) -> Self {
        Real(self.0 - rhs.0)
    }

    fn product(self, rhs: Self) -> Self {
        Real(self.0 * rhs.0)
    }

    fn quotient(self, rhs: Self) -> Self {
        Real(self.0 / rhs.0)
    }

    fn root(self) -> Self {
        Real(self.0.sqrt())
    }

    fn below(self, rhs: Self) -> bool {
        self.0 < rhs.0
    }

    fn zero() -> Self {
        Real(0.0)
    }

    fn one() -> Self {
        Real(1.0)
    }

    fn half() -> Self {
        Real(0.5)
    }

    fn plus(self, rhs: Self) -> Self {
        Real(self.0 + rhs.0)
    }

    fn minus(self, rhs: Self) -> Self {
        Real(self.0 - rhs.0)
    }

    fn times(self, rhs: Self) -> Self {
        Real(self.0 * rhs.0)
    }

    fn over(self, rhs: Self) -> Self {
        Real(self.0 / rhs.0)
    }

    fn sqrt(self) -> Self {
        Real(self.0.sqrt())
    }

    fn lt(self, rhs: Self) -> bool {
        self.0 < rhs.0
    }
}

fn vec3(x: f64, y: f64, z: f64) -> Vec3<Real> {
    Vec3::new(Real(x), Real(y), Real(z))
}

fn body(mass: f64, r: (f64, f64, f64), v: (f64, f64, f64)) -> Body<Real> {
    Body::new(Real(mass), vec3(r.0, r.1, r.2), vec3(v.0, v.1, v.2))
}

fn components(v: Vec3<Real>) -> (f64, f64, f64) {
    (v.x.0, v.y.0, v.z.0)
}

fn two_at_unit_distance() -> Vec<Body<Real>> {
    vec![
        body(1.0, (0.0, 0.0, 0.0), (0.0, 0.0, 0.0)),
        body(1.0, (1.0, 0.0, 0.0), (0.0, 0.0, 0.0)),
    ]
}

#[test]
fn two_unit_masses_attract_with_unit_acceleration() {
    for workers in [1usize, 2, 3, 8] {
        let mut bodies = two_at_unit_distance();
        acceleration(&mut bodies, workers);
        assert_eq!(components(bodies[0].acceleration), (1.0, 0.0, 0.0));
        assert_eq!(components(bodies[1].acceleration), (-1.0, 0.0, 0.0));
    }
}

#[test]
fn single_body_feels_nothing() {
    let mut bodies = vec![body(3.5, (1.0, -2.0, 4.0), (0.25, 0.5, -1.0))];
    for _ in 0..5 {
        step(&mut bodies, Real(1e-3), 8);
        assert_eq!(components(bodies[0].acceleration), (0.0, 0.0, 0.0));
    }
    let report = energies(&bodies);
    assert_eq!(report.potential.0, 0.0);
}

#[test]
fn simulation_rejects_zero_workers() {
    let config = Config { dt: Real(1e-3), t_end: Real(1.0), workers: 0 };
    match Simulation::new(config, two_at_unit_distance()) {
        Err(e) => assert_eq!(e, SetupError::NoWorkers),
        Ok(_) => panic!("a configuration without workers was accepted"),
    }
}

#[test]
fn circular_orbit_keeps_its_energy() {
    let speed = 0.5f64.sqrt();
    let bodies = vec![
        body(1.0, (-0.5, 0.0, 0.0), (0.0, -speed, 0.0)),
        body(1.0, (0.5, 0.0, 0.0), (0.0, speed, 0.0)),
    ];
    let period = std::f64::consts::PI / speed;
    let config = Config { dt: Real(1e-3), t_end: Real(period), workers: 2 };
    let mut sim = match Simulation::new(config, bodies) {
        Ok(sim) => sim,
        Err(_) => panic!("configuration refused"),
    };
    let records = sim.run(1_000_000);
    assert!(sim.finished());
    assert_eq!(sim.step, 4443);
    assert_eq!(records.len(), 444);
    for record in &records {
        assert!(record.drift.0.abs() < 1e-3);
    }
    match sim.advance() {
        Progress::Finished => {}
        _ => panic!("the run went on past its end time"),
    }
}

#[test]
fn gather_files_buffers_in_any_order() {
    let bodies = vec![
        body(1.0, (0.0, 0.0, 0.0), (0.0, 0.0, 0.0)),
        body(2.0, (1.0, 0.0, 0.0), (0.0, 0.0, 0.0)),
        body(3.0, (0.0, 2.0, 0.0), (0.0, 0.0, 0.0)),
        body(4.0, (0.0, 0.0, 3.0), (0.0, 0.0, 0.0)),
        body(5.0, (1.0, 1.0, 1.0), (0.0, 0.0, 0.0)),
    ];
    let workers = 3;
    let mut expected = bodies.clone();
    acceleration(&mut expected, workers);

    let mut gather: Gather<Real> = Gather::new(workers, bodies.len());
    for w in [2usize, 0, 1] {
        assert_eq!(gather.missing().is_some(), true);
        assert!(gather.accept(w, worker_delta(&bodies, workers, w)).is_ok());
    }
    assert_eq!(gather.missing(), None);
    let mut actual = bodies.clone();
    assert!(gather.finish(&mut actual).is_ok());
    for i in 0..bodies.len() {
        assert_eq!(components(actual[i].acceleration), components(expected[i].acceleration));
    }
    assert_eq!(
        gather.accept(1, worker_delta(&bodies, workers, 1)),
        Err(GatherError::Duplicate { worker: 1 })
    );
}

#[test]
fn leapfrog_updates_all_three_axes() {
    let mut bodies = vec![body(1.0, (1.0, 2.0, 3.0), (4.0, 5.0, 6.0))];
    bodies[0].acceleration = vec3(2.0, 4.0, 8.0);
    update_positions(&mut bodies, Real(0.5));
    // r + (dt * v + ((1/2 * dt) * dt) * a), with dt = 1/2
    assert_eq!(components(bodies[0].position), (3.25, 5.0, 7.0));
    assert_eq!(components(bodies[0].previous_acceleration), (2.0, 4.0, 8.0));
    bodies[0].acceleration = vec3(6.0, 4.0, 0.0);
    update_velocities(&mut bodies, Real(0.5));
    // v + (1/2 * dt) * (a_previous + a)
    assert_eq!(components(bodies[0].velocity), (6.0, 7.0, 8.0));
    assert_eq!(components(bodies[0].previous_acceleration), (6.0, 4.0, 0.0));
}

fn number(token: &[u8]) -> Option<Real> {
    std::str::from_utf8(token).ok()?.parse::<f64>().ok().map(Real)
}

fn read(text: &str) -> Result<Vec<Body<Real>>, InputError> {
    let mut records = Vec::new();
    for line in lines(text.as_bytes()) {
        records.push(fields(&line).iter().map(|token| number(token)).collect());
    }
    bodies_from_records(&records)
}

fn scattered() -> Vec<Body<Real>> {
    match read(
        "0 1.0 0.0 0.0 0.0 0.1 0.0 0.0\n\
         1 2.5 1.0 0.5 -0.5 0.0 0.2 0.0\n\
         2 0.5 -1.5 2.0 0.25 0.0 0.0 -0.3\n\
         3 4.0 3.0 -1.0 1.0 -0.1 0.1 0.0\n\
         4 1.5 0.5 0.5 3.0 0.0 -0.2 0.1\n",
    ) {
        Ok(bodies) => bodies,
        Err(e) => panic!("sound input refused: {:?}", e),
    }
}

#[test]
fn text_becomes_bodies() {
    let bodies = scattered();
    assert_eq!(bodies.len(), 5);
    assert_eq!(bodies[1].mass.0, 2.5);
    assert_eq!(components(bodies[2].position), (-1.5, 2.0, 0.25));
    assert_eq!(components(bodies[3].velocity), (-0.1, 0.1, 0.0));
    assert_eq!(components(bodies[4].acceleration), (0.0, 0.0, 0.0));
    assert_eq!(components(bodies[4].previous_acceleration), (0.0, 0.0, 0.0));
}

#[test]
fn malformed_text_is_refused() {
    assert_eq!(
        read("0 1 0 0 0 0 0 0\n1 1 0 0 zero 0 0 0\n").err(),
        Some(InputError::NotANumber { record: 1, field: 4 })
    );
    assert_eq!(
        read("0 1 0 0 0 0 0\n").err(),
        Some(InputError::TooFewFields { record: 0, found: 7 })
    );
    assert_eq!(
        read("0 1 0 0 0 0 0 0\n \n").err(),
        Some(InputError::TooFewFields { record: 1, found: 0 })
    );
    assert_eq!(
        read("0 1 0 0 0 0 0 0\r\n").err(),
        Some(InputError::NotANumber { record: 0, field: 7 })
    );
    assert_eq!(read("").map(|bodies| bodies.len()), Ok(0));
}

#[test]
fn third_law_with_unequal_masses() {
    for workers in [1usize, 2, 5] {
        let mut bodies = vec![
            body(3.0, (0.3, -1.2, 0.7), (0.0, 0.0, 0.0)),
            body(0.75, (-2.1, 0.4, 1.9), (0.0, 0.0, 0.0)),
        ];
        acceleration(&mut bodies, workers);
        let a = components(bodies[0].acceleration);
        let b = components(bodies[1].acceleration);
        let ratio = 0.75 / 3.0;
        assert!((a.0 + ratio * b.0).abs() <= 1e-15 * a.0.abs());
        assert!((a.1 + ratio * b.1).abs() <= 1e-15 * a.1.abs());
        assert!((a.2 + ratio * b.2).abs() <= 1e-15 * a.2.abs());
        assert!(a.0 < 0.0 && a.1 > 0.0 && a.2 > 0.0);
    }
}

#[test]
fn third_law_with_equal_masses_is_exact() {
    let mut bodies = vec![
        body(1.7, (0.3, -1.2, 0.7), (0.0, 0.0, 0.0)),
        body(1.7, (-2.1, 0.4, 1.9), (0.0, 0.0, 0.0)),
    ];
    acceleration(&mut bodies, 4);
    let a = components(bodies[0].acceleration);
    let b = components(bodies[1].acceleration);
    assert_eq!(a, (-b.0, -b.1, -b.2));
    assert_ne!(a, (0.0, 0.0, 0.0));
}

#[test]
fn acceleration_follows_the_inverse_square_law() {
    let mut bodies = vec![
        body(1.0, (0.0, 0.0, 0.0), (0.0, 0.0, 0.0)),
        body(8.0, (0.0, 2.0, 0.0), (0.0, 0.0, 0.0)),
    ];
    acceleration(&mut bodies, 1);
    // |d| = 2: body 0 is pulled by 8 / 4 toward +y, body 1 by 1 / 4 toward -y.
    assert_eq!(components(bodies[0].acceleration), (0.0, 2.0, 0.0));
    assert_eq!(components(bodies[1].acceleration), (0.0, -0.25, 0.0));
}

#[test]
fn one_pair_into_a_buffer() {
    let bodies = vec![
        body(2.0, (0.0, 0.0, 0.0), (0.0, 0.0, 0.0)),
        body(5.0, (9.0, 9.0, 9.0), (0.0, 0.0, 0.0)),
        body(4.0, (0.0, 0.0, 2.0), (0.0, 0.0, 0.0)),
    ];
    let mut buffer = zero_buffer::<Real>(3);
    buffer[0] = vec3(1.0, 1.0, 1.0);
    pair_interaction(&mut buffer, &bodies, 0, 2);
    // d = (0, 0, -2), s = 1/8: entry 0 loses (4 s) d, entry 2 gains (2 s) d.
    assert_eq!(components(buffer[0]), (1.0, 1.0, 2.0));
    assert_eq!(components(buffer[1]), (0.0, 0.0, 0.0));
    assert_eq!(components(buffer[2]), (0.0, 0.0, -0.5));
}

#[test]
fn force_evaluation_is_repeatable() {
    let mut first = scattered();
    let mut second = scattered();
    acceleration(&mut first, 3);
    acceleration(&mut second, 3);
    acceleration(&mut second, 3);
    for i in 0..first.len() {
        let a = components(first[i].acceleration);
        let b = components(second[i].acceleration);
        assert_eq!(a.0.to_bits(), b.0.to_bits());
        assert_eq!(a.1.to_bits(), b.1.to_bits());
        assert_eq!(a.2.to_bits(), b.2.to_bits());
    }
}

#[test]
fn worker_count_changes_rounding_only() {
    let mut one = scattered();
    acceleration(&mut one, 1);
    for workers in [2usize, 3, 5, 8] {
        let mut many = scattered();
        acceleration(&mut many, workers);
        for i in 0..one.len() {
            let a = components(one[i].acceleration);
            let b = components(many[i].acceleration);
            assert!((a.0 - b.0).abs() <= 1e-14);
            assert!((a.1 - b.1).abs() <= 1e-14);
            assert!((a.2 - b.2).abs() <= 1e-14);
        }
    }
}

#[test]
fn energy_report_is_repeatable() {
    let mut bodies = scattered();
    let first = energies(&bodies);
    let second = energies(&bodies);
    assert_eq!(first.total.0.to_bits(), second.total.0.to_bits());
    assert_eq!(first.kinetic.0.to_bits(), second.kinetic.0.to_bits());
    assert_eq!(first.potential.0.to_bits(), second.potential.0.to_bits());
    acceleration(&mut bodies, 2);
    let third = energies(&bodies);
    assert_eq!(first.total.0.to_bits(), third.total.0.to_bits());
}

#[test]
fn kinetic_term_is_linear_in_the_speed() {
    let bodies = vec![body(4.0, (0.0, 0.0, 0.0), (2.0, 3.0, 6.0))];
    let report = energies(&bodies);
    // (1/2 * 4) * 7, not 1/2 * 4 * 49
    assert_eq!(report.kinetic.0, 14.0);
    assert_eq!(report.potential.0, 0.0);
    assert_eq!(report.total.0, 14.0);
}

#[test]
fn potential_counts_each_pair_once() {
    let bodies = vec![
        body(2.0, (0.0, 0.0, 0.0), (0.0, 0.0, 0.0)),
        body(3.0, (0.0, 3.0, 4.0), (0.0, 0.0, 0.0)),
        body(5.0, (0.0, 0.0, 4.0), (0.0, 0.0, 0.0)),
    ];
    let report = energies(&bodies);
    // -(2 * 3) / 5 - (2 * 5) / 4 - (3 * 5) / 3
    assert_eq!(report.potential.0, -1.2 - 2.5 - 5.0);
    assert_eq!(report.kinetic.0, 0.0);
    assert_eq!(report.total.0, report.kinetic.0 + report.potential.0);
}

#[test]
fn coincident_bodies_are_not_an_error() {
    let mut bodies = vec![
        body(1.0, (1.0, 1.0, 1.0), (0.0, 0.0, 0.0)),
        body(1.0, (1.0, 1.0, 1.0), (0.0, 0.0, 0.0)),
    ];
    acceleration(&mut bodies, 2);
    assert!(bodies[0].acceleration.x.0.is_nan());
    assert!(energies(&bodies).potential.0.is_infinite());
}

#[test]
fn gather_turns_bad_buffers_away() {
    let bodies = scattered();
    let mut gather: Gather<Real> = Gather::new(2, bodies.len());
    assert_eq!(
        gather.accept(2, worker_delta(&bodies, 3, 2)),
        Err(GatherError::UnknownWorker { worker: 2 })
    );
    assert_eq!(
        gather.accept(0, zero_buffer(4)),
        Err(GatherError::WrongLength { worker: 0, length: 4 })
    );
    assert_eq!(gather.missing(), Some(0));
    assert_eq!(gather.accept(1, worker_delta(&bodies, 2, 1)), Ok(()));
    assert_eq!(gather.missing(), Some(0));
    assert_eq!(
        gather.accept(1, worker_delta(&bodies, 2, 1)),
        Err(GatherError::Duplicate { worker: 1 })
    );

    let mut store = scattered();
    store[0].acceleration = vec3(7.0, 7.0, 7.0);
    assert_eq!(gather.finish(&mut store), Err(GatherError::Missing { worker: 0 }));
    assert_eq!(components(store[0].acceleration), (7.0, 7.0, 7.0));

    assert_eq!(gather.accept(0, worker_delta(&bodies, 2, 0)), Ok(()));
    let mut short = scattered();
    short.pop();
    assert_eq!(gather.finish(&mut short), Err(GatherError::StoreResized { length: 4 }));
    assert_eq!(gather.finish(&mut store), Ok(()));
    assert_ne!(components(store[0].acceleration), (7.0, 7.0, 7.0));
}

#[test]
fn a_pass_in_two_halves_is_a_pass() {
    let config = Config { dt: Real(1e-3), t_end: Real(0.05), workers: 3 };
    let mut whole = match Simulation::new(config, scattered()) {
        Ok(sim) => sim,
        Err(_) => panic!("configuration refused"),
    };
    let bodies = scattered();
    let mut forces: Gather<Real> = Gather::new(3, bodies.len());
    for w in [1usize, 2, 0] {
        assert!(forces.accept(w, worker_delta(&bodies, 3, w)).is_ok());
    }
    let mut halves = match Simulation::start(config, bodies, &forces) {
        Ok(sim) => sim,
        Err(_) => panic!("configuration refused"),
    };
    assert_eq!(halves.initial.total.0.to_bits(), whole.initial.total.0.to_bits());

    let expected = whole.run(1000);
    let mut actual = Vec::new();
    while halves.drift() {
        let mut forces: Gather<Real> = Gather::new(3, halves.bodies.len());
        for w in [2usize, 0, 1] {
            assert!(forces.accept(w, worker_delta(&halves.bodies, 3, w)).is_ok());
        }
        match halves.kick(&forces) {
            Ok(Progress::Reported(record)) => actual.push(record),
            Ok(_) => {}
            Err(e) => panic!("complete buffers refused: {:?}", e),
        }
    }
    assert_eq!(halves.step, whole.step);
    assert_eq!(halves.step, 50);
    assert_eq!(actual.len(), 5);
    assert_eq!(actual.len(), expected.len());
    for (a, b) in actual.iter().zip(expected.iter()) {
        assert_eq!(a.t.0.to_bits(), b.t.0.to_bits());
        assert_eq!(a.total.0.to_bits(), b.total.0.to_bits());
        assert_eq!(a.drift.0.to_bits(), b.drift.0.to_bits());
    }
    for i in 0..whole.bodies.len() {
        assert_eq!(components(halves.bodies[i].position), components(whole.bodies[i].position));
        assert_eq!(components(halves.bodies[i].velocity), components(whole.bodies[i].velocity));
    }
}

#[test]
fn start_needs_workers_and_complete_buffers() {
    let bodies = scattered();
    let forces: Gather<Real> = Gather::new(2, bodies.len());
    let none = Config { dt: Real(1e-3), t_end: Real(1.0), workers: 0 };
    assert_eq!(Simulation::start(none, scattered(), &forces).err(), Some(SetupError::NoWorkers));
    let two = Config { dt: Real(1e-3), t_end: Real(1.0), workers: 2 };
    assert_eq!(
        Simulation::start(two, scattered(), &forces).err(),
        Some(SetupError::Forces(GatherError::Missing { worker: 0 }))
    );
}

#[test]
fn kick_without_buffers_changes_nothing() {
    let config = Config { dt: Real(0.5), t_end: Real(1.0), workers: 2 };
    let mut sim = match Simulation::new(config, two_at_unit_distance()) {
        Ok(sim) => sim,
        Err(_) => panic!("configuration refused"),
    };
    let forces: Gather<Real> = Gather::new(2, 2);
    match sim.kick(&forces) {
        Err(e) => assert_eq!(e, GatherError::Missing { worker: 0 }),
        Ok(_) => panic!("a pass was closed without forces"),
    }
    assert_eq!(sim.step, 0);
    assert_eq!(sim.t.0, 0.0);
    assert_eq!(components(sim.bodies[0].velocity), (0.0, 0.0, 0.0));
}

#[test]
fn drift_is_measured_against_the_initial_state() {
    let config = Config { dt: Real(0.0625), t_end: Real(0.625), workers: 2 };
    let mut sim = match Simulation::new(config, two_at_unit_distance()) {
        Ok(sim) => sim,
        Err(_) => panic!("configuration refused"),
    };
    assert_eq!(sim.initial.kinetic.0, 0.0);
    assert_eq!(sim.initial.potential.0, -1.0);
    assert_eq!(sim.initial.total.0, -1.0);
    assert_eq!(components(sim.bodies[0].acceleration), (1.0, 0.0, 0.0));
    let records = sim.run(1000);
    assert_eq!(sim.step, 10);
    assert_eq!(records.len(), 1);
    let record = records[0];
    assert_eq!(record.t.0, 0.625);
    assert_eq!(record.total.0, record.kinetic.0 + record.potential.0);
    assert_eq!(record.drift.0, (record.total.0 - -1.0) / -1.0);
    let now = energies(&sim.bodies);
    assert_eq!(record.total.0, now.total.0);
}

#[test]
fn clock_adds_up_the_time_steps() {
    // Ten steps of 0.01 add up to just under 0.1, so an eleventh is taken.
    let config = Config { dt: Real(1e-2), t_end: Real(0.1), workers: 1 };
    let mut sim = match Simulation::new(config, two_at_unit_distance()) {
        Ok(sim) => sim,
        Err(_) => panic!("configuration refused"),
    };
    let records = sim.run(1000);
    assert_eq!(sim.step, 11);
    assert_eq!(records.len(), 1);
    assert_eq!(records[0].t.0, 0.09999999999999999);
    assert_eq!(sim.t.0, 0.10999999999999999);
}

#[test]
fn third_law_is_not_exact_when_products_round() {
    // a_0 = 1 and a_1 = -49 exactly, but 1/49 * 49 rounds to just under 1.
    let mut bodies = vec![
        body(49.0, (0.0, 0.0, 0.0), (0.0, 0.0, 0.0)),
        body(1.0, (1.0, 0.0, 0.0), (0.0, 0.0, 0.0)),
    ];
    acceleration(&mut bodies, 2);
    assert_eq!(bodies[0].acceleration.x.0, 1.0);
    assert_eq!(bodies[1].acceleration.x.0, -49.0);
    assert_eq!(49.0 * bodies[0].acceleration.x.0, -(1.0 * bodies[1].acceleration.x.0));
    assert_ne!(bodies[0].acceleration.x.0, -(1.0 / 49.0) * bodies[1].acceleration.x.0);
}
