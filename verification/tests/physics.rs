use nbody::body::{Body, SimError};
use nbody::rat::Rat;
use nbody::sim::Simulation;
use nbody::vec3::Vec3;

fn rat(n: i128, d: i128) -> Rat {
    Rat::new(n, d).unwrap()
}

fn vec3(x: i128, y: i128, z: i128) -> Vec3 {
    Vec3::new(
        Rat::from_int(x).unwrap(),
        Rat::from_int(y).unwrap(),
        Rat::from_int(z).unwrap(),
    )
}

fn body(mass: i128, pos: Vec3, vel: Vec3) -> Body<u32> {
    Body::new(Rat::from_int(mass).unwrap(), pos, vel, 0).unwrap()
}

const E24: i128 = 1_000_000_000_000_000_000_000_000;
const E15: i128 = 1_000_000_000_000_000;

#[test]
fn invalid_mass_is_rejected() {
    let z = vec3(0, 0, 0);
    let r = Body::new(Rat::from_int(0).unwrap(), z, z, 7u32);
    assert_eq!(r.unwrap_err(), SimError::InvalidMass);
    let r = Body::new(rat(-5, 2), z, z, 7u32);
    assert_eq!(r.unwrap_err(), SimError::InvalidMass);
    assert!(Body::new(rat(5, 2), z, z, 7u32).is_ok());
}

#[test]
fn simulation_basics() {
    let mut sim: Simulation<u32> = Simulation::new(rat(1, 1));
    assert_eq!(sim.body_count(), 0);
    assert_eq!(sim.time_scale().num(), 1);
    assert_eq!(sim.time_scale().den(), 1);
    let id0 = sim.add_body(body(2, vec3(0, 0, 0), vec3(1, 0, 0)));
    let id1 = sim.add_body(body(3, vec3(5, 0, 0), vec3(0, 1, 0)));
    assert_eq!(id0, 0);
    assert_eq!(id1, 1);
    assert_eq!(sim.body_count(), 2);
    assert_eq!(sim.body(1).mass().num(), 3);
    assert_eq!(sim.bodies().len(), 2);
    sim.set_time_scale(rat(-7, 2));
    assert_eq!(sim.time_scale().num(), -7);
    assert_eq!(sim.time_scale().den(), 2);
}

#[test]
fn newton_third_law_two_bodies() {
    let mut sim: Simulation<u32> = Simulation::new(rat(1, 1));
    sim.add_body(body(2, vec3(0, 0, 0), vec3(0, 0, 0)));
    sim.add_body(body(5, vec3(3, 4, 0), vec3(0, 0, 0)));
    let forces = sim.compute_forces().unwrap();
    let f0 = &forces[0];
    let f1 = &forces[1];
    // exactly opposite, representation included
    assert_eq!(f0.x().num(), -f1.x().num());
    assert_eq!(f0.x().den(), f1.x().den());
    assert_eq!(f0.y().num(), -f1.y().num());
    assert_eq!(f0.y().den(), f1.y().den());
    assert_eq!(f0.z().num(), -f1.z().num());
    assert_eq!(f0.z().den(), f1.z().den());
    assert!(f0.x().num() > 0);
    assert!(f0.y().num() > 0);
    assert_eq!(f0.z().num(), 0);
}

#[test]
fn single_body_moves_uniformly() {
    // an isolated body feels no force: velocity unchanged, position advances
    // by velocity * dt * time_scale
    let mut sim: Simulation<u32> = Simulation::new(rat(66743, E15));
    sim.add_body(body(5, vec3(10, 20, 30), vec3(1, -2, 3)));
    sim.set_time_scale(rat(1, 2));
    sim.step(&rat(3, 1)).unwrap();
    let b = sim.body(0);
    assert_eq!(b.velocity().x().num(), 1);
    assert_eq!(b.velocity().x().den(), 1);
    assert_eq!(b.velocity().y().num(), -2);
    assert_eq!(b.velocity().z().num(), 3);
    // dt * time_scale = 3/2; position += velocity * 3/2
    assert_eq!(b.position().x().num(), 23);
    assert_eq!(b.position().x().den(), 2);
    assert_eq!(b.position().y().num(), 17);
    assert_eq!(b.position().y().den(), 1);
    assert_eq!(b.position().z().num(), 69);
    assert_eq!(b.position().z().den(), 2);
}

#[test]
fn two_heavy_bodies_concrete_step() {
    // two bodies of mass 1e24 kg at distance 1e8, G = 6.6743e-11:
    // force magnitude G * m0 * m1 / d^2 = 6.6743e21 along x, so each body
    // gains speed 6.6743e-3 toward the other, and the position moves by the
    // updated velocity in the same step (semi-implicit Euler)
    let mut sim: Simulation<u32> = Simulation::new(rat(66743, E15));
    sim.add_body(body(E24, vec3(0, 0, 0), vec3(0, 0, 0)));
    sim.add_body(body(E24, vec3(100_000_000, 0, 0), vec3(0, 0, 0)));
    let forces = sim.compute_forces().unwrap();
    assert_eq!(forces[0].x().num(), 6_674_300_000_000_000_000_000);
    assert_eq!(forces[0].x().den(), 1);
    assert_eq!(forces[1].x().num(), -6_674_300_000_000_000_000_000);
    assert_eq!(forces[0].y().num(), 0);
    sim.step(&rat(1, 1)).unwrap();
    let b0 = sim.body(0);
    assert_eq!(b0.velocity().x().num(), 66743);
    assert_eq!(b0.velocity().x().den(), 10_000_000);
    assert_eq!(b0.position().x().num(), 66743);
    assert_eq!(b0.position().x().den(), 10_000_000);
    let b1 = sim.body(1);
    assert_eq!(b1.velocity().x().num(), -66743);
    assert_eq!(b1.velocity().x().den(), 10_000_000);
    assert_eq!(b1.position().x().num(), 999_999_999_933_257);
    assert_eq!(b1.position().x().den(), 10_000_000);
    assert_eq!(b1.velocity().y().num(), 0);
    assert_eq!(b1.position().y().num(), 0);
}

#[test]
fn coincident_bodies_fail_and_leave_state_unchanged() {
    let mut sim: Simulation<u32> = Simulation::new(rat(1, 1));
    sim.add_body(body(2, vec3(7, 8, 9), vec3(1, 0, 0)));
    sim.add_body(body(3, vec3(7, 8, 9), vec3(0, 1, 0)));
    let r = sim.step(&rat(1, 1));
    assert_eq!(r.unwrap_err(), SimError::DegenerateConfiguration);
    // all-or-nothing: nothing moved
    assert_eq!(sim.body(0).position().x().num(), 7);
    assert_eq!(sim.body(0).velocity().x().num(), 1);
    assert_eq!(sim.body(1).position().z().num(), 9);
    assert_eq!(sim.body(1).velocity().y().num(), 1);
}

#[test]
fn overflowing_configuration_reports_numeric_overflow() {
    // G * m0 * m1 does not fit in an i128 numerator even reduced
    let huge: i128 = 100_000_000_000_000_000_000_000_000_000_000_000_000;
    let mut sim: Simulation<u32> = Simulation::new(Rat::from_int(huge / 10).unwrap());
    sim.add_body(body(huge / 10, vec3(0, 0, 0), vec3(0, 0, 0)));
    sim.add_body(body(huge / 10, vec3(1, 0, 0), vec3(0, 0, 0)));
    let before = sim.body(0).position().x().num();
    let r = sim.step(&rat(1, 1));
    assert_eq!(r.unwrap_err(), SimError::NumericOverflow);
    assert_eq!(sim.body(0).position().x().num(), before);
}

#[test]
fn momentum_is_conserved_over_steps() {
    let mut sim: Simulation<u32> = Simulation::new(rat(1, 1));
    sim.add_body(body(2, vec3(0, 0, 0), vec3(1, 0, 0)));
    sim.add_body(body(3, vec3(10, 0, 0), vec3(0, 1, 0)));
    sim.add_body(body(5, vec3(0, 20, 0), vec3(0, 0, 1)));
    let p_before = total_momentum(&sim);
    sim.step(&rat(1, 7)).unwrap();
    let p_after = total_momentum(&sim);
    for c in 0..3 {
        assert_eq!(p_before[c].value_eq(&p_after[c]), Some(true));
    }

    let mut pair: Simulation<u32> = Simulation::new(rat(66743, E15));
    pair.add_body(body(E24, vec3(0, 0, 0), vec3(2, -3, 4)));
    pair.add_body(body(E24 / 4, vec3(100_000_000, 0, 0), vec3(-1, 5, 0)));
    let q_before = total_momentum(&pair);
    pair.step(&rat(2, 1)).unwrap();
    let q_after = total_momentum(&pair);
    for c in 0..3 {
        assert_eq!(q_before[c].value_eq(&q_after[c]), Some(true));
    }
}

fn total_momentum(sim: &Simulation<u32>) -> [Rat; 3] {
    let zero = Rat::from_int(0).unwrap();
    let mut total = [zero, zero, zero];
    for i in 0..sim.body_count() {
        let b = sim.body(i);
        let m = b.mass();
        let v = b.velocity();
        let comps = [v.x(), v.y(), v.z()];
        for c in 0..3 {
            total[c] = total[c].add(&m.mul(&comps[c]).unwrap()).unwrap();
        }
    }
    total
}

#[test]
fn identical_runs_are_identical() {
    let mut a: Simulation<u32> = Simulation::new(rat(1, 3));
    let mut b: Simulation<u32> = Simulation::new(rat(1, 3));
    for sim in [&mut a, &mut b] {
        sim.add_body(body(2, vec3(0, 0, 0), vec3(1, 0, 0)));
        sim.add_body(body(3, vec3(10, 5, 0), vec3(0, 1, 0)));
        sim.add_body(body(7, vec3(-4, 0, 6), vec3(0, 0, -1)));
    }
    a.step(&rat(2, 3)).unwrap();
    b.step(&rat(2, 3)).unwrap();
    for i in 0..3 {
        let ba = a.body(i);
        let bb = b.body(i);
        assert_eq!(ba.position().x().num(), bb.position().x().num());
        assert_eq!(ba.position().x().den(), bb.position().x().den());
        assert_eq!(ba.position().y().num(), bb.position().y().num());
        assert_eq!(ba.velocity().z().num(), bb.velocity().z().num());
        assert_eq!(ba.velocity().z().den(), bb.velocity().z().den());
    }
}

#[test]
fn time_scale_matches_prescaled_dt() {
    // step(dt) with time_scale k lands in the same state as step(dt * k)
    // with time_scale 1
    let mut a: Simulation<u32> = Simulation::new(rat(1, 1));
    let mut b: Simulation<u32> = Simulation::new(rat(1, 1));
    for sim in [&mut a, &mut b] {
        sim.add_body(body(2, vec3(0, 0, 0), vec3(0, 1, 0)));
        sim.add_body(body(3, vec3(9, 0, 0), vec3(0, -1, 0)));
    }
    a.set_time_scale(rat(3, 1));
    a.step(&rat(2, 1)).unwrap();
    b.step(&rat(6, 1)).unwrap();
    for i in 0..2 {
        let ba = a.body(i);
        let bb = b.body(i);
        for (ca, cb) in [
            (ba.position().x(), bb.position().x()),
            (ba.position().y(), bb.position().y()),
            (ba.velocity().x(), bb.velocity().x()),
            (ba.velocity().y(), bb.velocity().y()),
        ] {
            assert_eq!(ca.value_eq(&cb), Some(true));
        }
    }
}

#[test]
fn negative_time_scale_reverses_motion() {
    let mut sim: Simulation<u32> = Simulation::new(rat(66743, E15));
    sim.add_body(body(1, vec3(0, 0, 0), vec3(1, 0, 0)));
    sim.set_time_scale(rat(-1, 1));
    sim.step(&rat(1, 1)).unwrap();
    assert_eq!(sim.body(0).position().x().num(), -1);
    assert_eq!(sim.body(0).position().x().den(), 1);
}

#[test]
fn display_payload_is_carried_untouched() {
    let mut sim: Simulation<u32> = Simulation::new(rat(1, 1));
    sim.add_body(Body::new(rat(2, 1), vec3(0, 0, 0), vec3(0, 0, 0), 41u32).unwrap());
    sim.add_body(Body::new(rat(2, 1), vec3(5, 0, 0), vec3(0, 0, 0), 42u32).unwrap());
    sim.step(&rat(1, 1)).unwrap();
    assert_eq!(*sim.body(0).attrs(), 41);
    assert_eq!(*sim.body(1).attrs(), 42);
}
