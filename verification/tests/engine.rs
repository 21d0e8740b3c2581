use simcore::{
    Configuration, EulerMethodObject, EulerMethodSolver, EulerMethodSolverConfig, ParticleProto,
    ParticleSimulator, PropMap, Property, SaturatingOps, ScalarOps, SimScalar, Vec2,
};

#[derive(Clone, Copy)]
struct DoubleOps;

impl ScalarOps for DoubleOps {
    fn from_uint_s(n: u64) -> SimScalar {
        (n as f64).to_bits()
    }
    fn add_s(a: SimScalar, b: SimScalar) -> SimScalar {
        (f64::from_bits(a) + f64::from_bits(b)).to_bits()
    }
    fn sub_s(a: SimScalar, b: SimScalar) -> SimScalar {
        (f64::from_bits(a) - f64::from_bits(b)).to_bits()
    }
    fn mul_s(a: SimScalar, b: SimScalar) -> SimScalar {
        (f64::from_bits(a) * f64::from_bits(b)).to_bits()
    }
    fn div_s(a: SimScalar, b: SimScalar) -> SimScalar {
        (f64::from_bits(a) / f64::from_bits(b)).to_bits()
    }
    fn sqrt_s(a: SimScalar) -> SimScalar {
        f64::from_bits(a).sqrt().to_bits()
    }
    fn from_uint(&self, n: u64) -> SimScalar {
        Self::from_uint_s(n)
    }
    fn add(&self, a: SimScalar, b: SimScalar) -> SimScalar {
        Self::add_s(a, b)
    }
    fn sub(&self, a: SimScalar, b: SimScalar) -> SimScalar {
        Self::sub_s(a, b)
    }
    fn mul(&self, a: SimScalar, b: SimScalar) -> SimScalar {
        Self::mul_s(a, b)
    }
    fn div(&self, a: SimScalar, b: SimScalar) -> SimScalar {
        Self::div_s(a, b)
    }
    fn sqrt(&self, a: SimScalar) -> SimScalar {
        Self::sqrt_s(a)
    }
}

fn fb(x: f64) -> u64 {
    x.to_bits()
}

fn bf(b: u64) -> f64 {
    f64::from_bits(b)
}

fn particle_def(px: f64, py: f64, vx: f64, vy: f64, mass: f64, name: Option<&str>) -> PropMap {
    let mut def = PropMap::new();
    def.insert(
        "position".to_owned(),
        Property::Vector2(Vec2 { x: fb(px), y: fb(py) }),
    );
    def.insert(
        "velocity".to_owned(),
        Property::Vector2(Vec2 { x: fb(vx), y: fb(vy) }),
    );
    def.insert("mass".to_owned(), Property::Float(fb(mass)));
    if let Some(n) = name {
        def.insert("name".to_owned(), Property::String(n.to_owned()));
    }
    def
}

fn two_body_config() -> Configuration {
    let mut sim_cfg = PropMap::new();
    sim_cfg.insert("g_const".to_owned(), Property::Float(fb(1.0)));
    sim_cfg.insert("name".to_owned(), Property::String("prototype".to_owned()));
    Configuration {
        simulation_config: sim_cfg,
        solver_config: EulerMethodSolverConfig { timestep: fb(0.02) },
        initial_objects: vec![
            particle_def(500.0, 400.0, 0.0, 0.4, 1.0, None),
            particle_def(600.0, 500.0, 0.0, -0.4, 1.0, None),
        ],
    }
}

fn load(config: Configuration) -> ParticleSimulator<DoubleOps> {
    match ParticleSimulator::load(config, DoubleOps) {
        Ok(sim) => sim,
        Err(_) => panic!("configuration should load"),
    }
}

/// The gravity contribution on p1 from p2, written exactly as the
/// engine evaluates it.
fn gravity(p1: ([f64; 2], f64), p2: ([f64; 2], f64), g: f64) -> [f64; 2] {
    let hx = p2.0[0] - p1.0[0];
    let hy = p2.0[1] - p1.0[1];
    let dst = (hx * hx + hy * hy).sqrt();
    let dirx = hx / dst;
    let diry = hy / dst;
    let coeff = g * p1.1 * p2.1;
    [(coeff * dirx) / (dst * dst), (coeff * diry) / (dst * dst)]
}

#[test]
fn example_two_body_step() {
    let mut sim = load(two_body_config());
    assert!(sim.ready_check());
    sim.step();

    let g = 1.0;
    let dt = 0.02;
    let a = ([500.0, 400.0], 1.0);
    let b = ([600.0, 500.0], 1.0);
    let fa = gravity(a, b, g);
    let fb_ = gravity(b, a, g);

    let va = [0.0 + (fa[0] / 1.0) * dt, 0.4 + (fa[1] / 1.0) * dt];
    let xa = [500.0 + va[0] * dt, 400.0 + va[1] * dt];
    let vb = [0.0 + (fb_[0] / 1.0) * dt, -0.4 + (fb_[1] / 1.0) * dt];
    let xb = [600.0 + vb[0] * dt, 500.0 + vb[1] * dt];

    let ps = sim.particles();
    assert_eq!(bf(ps[0].velocity.x), va[0]);
    assert_eq!(bf(ps[0].velocity.y), va[1]);
    assert_eq!(bf(ps[0].position.x), xa[0]);
    assert_eq!(bf(ps[0].position.y), xa[1]);
    assert_eq!(bf(ps[1].velocity.x), vb[0]);
    assert_eq!(bf(ps[1].velocity.y), vb[1]);
    assert_eq!(bf(ps[1].position.x), xb[0]);
    assert_eq!(bf(ps[1].position.y), xb[1]);
    assert_eq!(bf(sim.time()), 0.0 + 0.02);
}

#[test]
fn stepping_order_uses_new_velocity() {
    // A particle at rest under a constant force: after one step the
    // velocity is (F/m)*dt and the position has moved by that new
    // velocity times dt, not by the old (zero) velocity.
    let mut objs = vec![ParticleProto {
        position: Vec2 { x: fb(3.0), y: fb(4.0) },
        velocity: Vec2 { x: fb(0.0), y: fb(0.0) },
        additional_properties: {
            let mut m = PropMap::new();
            m.insert("mass".to_owned(), Property::Float(fb(2.0)));
            m
        },
    }];
    let forces = vec![Vec2 { x: fb(1.0), y: fb(-1.0) }];
    let solver = EulerMethodSolver::new(EulerMethodSolverConfig { timestep: fb(0.02) });
    solver.step_simulation(&DoubleOps, &mut objs, &forces);

    let dt = 0.02;
    let vx = (1.0 / 2.0) * dt;
    let vy = (-1.0 / 2.0) * dt;
    assert_eq!(bf(objs[0].velocity.x), vx);
    assert_eq!(bf(objs[0].velocity.y), vy);
    assert_eq!(bf(objs[0].position.x), 3.0 + vx * dt);
    assert_eq!(bf(objs[0].position.y), 4.0 + vy * dt);
    assert!(bf(objs[0].position.x) != 3.0);
}

#[test]
fn determinism_across_runs() {
    let mut s1 = load(two_body_config());
    let mut s2 = load(two_body_config());
    s1.start_recording_statistics();
    s2.start_recording_statistics();
    for _ in 0..25 {
        s1.step();
        s2.step();
    }
    let p1 = s1.particles();
    let p2 = s2.particles();
    assert_eq!(p1.len(), p2.len());
    for i in 0..p1.len() {
        assert_eq!(p1[i].position.x, p2[i].position.x);
        assert_eq!(p1[i].position.y, p2[i].position.y);
        assert_eq!(p1[i].velocity.x, p2[i].velocity.x);
        assert_eq!(p1[i].velocity.y, p2[i].velocity.y);
    }
    assert_eq!(s1.time(), s2.time());
}

#[test]
fn two_body_symmetry_center_of_mass() {
    let mut sim_cfg = PropMap::new();
    sim_cfg.insert("g_const".to_owned(), Property::Float(fb(1.0)));
    let config = Configuration {
        simulation_config: sim_cfg,
        solver_config: EulerMethodSolverConfig { timestep: fb(0.02) },
        initial_objects: vec![
            particle_def(-50.0, 0.0, 0.0, 0.5, 1.0, None),
            particle_def(50.0, 0.0, 0.0, -0.5, 1.0, None),
        ],
    };
    let mut sim = load(config);
    assert!(sim.ready_check());
    for _ in 0..200 {
        sim.step();
    }
    let ps = sim.particles();
    let cx = (bf(ps[0].position.x) + bf(ps[1].position.x)) / 2.0;
    let cy = (bf(ps[0].position.y) + bf(ps[1].position.y)) / 2.0;
    assert!(cx.abs() < 1e-9);
    assert!(cy.abs() < 1e-9);
}

#[test]
fn degenerate_empty_system() {
    let mut sim_cfg = PropMap::new();
    sim_cfg.insert("g_const".to_owned(), Property::Float(fb(1.0)));
    let config = Configuration {
        simulation_config: sim_cfg,
        solver_config: EulerMethodSolverConfig { timestep: fb(0.02) },
        initial_objects: vec![],
    };
    let mut sim = load(config);
    assert!(sim.ready_check());
    sim.step();
    sim.step();
    assert_eq!(sim.particles().len(), 0);
    assert_eq!(bf(sim.time()), 0.02 + 0.02);
}

#[test]
fn degenerate_single_particle_zero_net_force() {
    let mut sim_cfg = PropMap::new();
    sim_cfg.insert("g_const".to_owned(), Property::Float(fb(1.0)));
    let config = Configuration {
        simulation_config: sim_cfg,
        solver_config: EulerMethodSolverConfig { timestep: fb(0.02) },
        initial_objects: vec![particle_def(10.0, 20.0, 3.0, -4.0, 1.0, None)],
    };
    let mut sim = load(config);
    assert!(sim.ready_check());
    sim.step();
    let ps = sim.particles();
    // zero net force: the velocity is unchanged, the position moved by
    // exactly velocity times the timestep
    assert_eq!(bf(ps[0].velocity.x), 3.0);
    assert_eq!(bf(ps[0].velocity.y), -4.0);
    assert_eq!(bf(ps[0].position.x), 10.0 + 3.0 * 0.02);
    assert_eq!(bf(ps[0].position.y), 20.0 + -4.0 * 0.02);
}

#[test]
fn recording_is_opt_in() {
    let mut sim = load(two_body_config());
    sim.step();
    sim.step();
    // no recorder was attached: saving yields an empty series
    match sim.statistics_raw() {
        simcore::RawValue::Arr(items) => assert_eq!(items.len(), 0),
        _ => panic!("statistics should be an array"),
    }
}

#[test]
fn recording_does_not_alter_trajectory() {
    let mut with = load(two_body_config());
    let mut without = load(two_body_config());
    with.start_recording_statistics();
    for _ in 0..10 {
        with.step();
        without.step();
    }
    let pw = with.particles();
    let po = without.particles();
    for i in 0..pw.len() {
        assert_eq!(pw[i].position.x, po[i].position.x);
        assert_eq!(pw[i].position.y, po[i].position.y);
        assert_eq!(pw[i].velocity.x, po[i].velocity.x);
        assert_eq!(pw[i].velocity.y, po[i].velocity.y);
    }
}

#[test]
fn recorded_sample_energies_double_count() {
    let mut sim = load(two_body_config());
    sim.start_recording_statistics();
    sim.step();

    // one ordered pair each way: both sums count the pair twice
    let dx: f64 = 500.0 - 600.0;
    let dy: f64 = 400.0 - 500.0;
    let r = (dx * dx + dy * dy).sqrt();
    let pe_one = -(1.0 * 1.0 * 1.0) / r;
    let dvx: f64 = 0.0;
    let dvy: f64 = 0.4 - -0.4;
    let ke_one = 1.0 * (dvx * dvx + dvy * dvy);

    let arr = match sim.statistics_raw() {
        simcore::RawValue::Arr(items) => items,
        _ => panic!("statistics should be an array"),
    };
    assert_eq!(arr.len(), 1);
    let entries = match &arr[0] {
        simcore::RawValue::Obj(entries) => entries,
        _ => panic!("sample should be an object"),
    };
    assert_eq!(entries[0].0, "time");
    match entries[0].1 {
        simcore::RawValue::Num(t) => assert_eq!(bf(t), 0.0),
        _ => panic!("time should be a number"),
    }
    let data = match &entries[1].1 {
        simcore::RawValue::Obj(data) => data,
        _ => panic!("data should be an object"),
    };
    assert_eq!(data[0].0, "kinetic_energy");
    match data[0].1 {
        simcore::RawValue::Num(k) => assert_eq!(bf(k), ke_one + ke_one),
        _ => panic!("kinetic term should be a number"),
    }
    assert_eq!(data[1].0, "potential_energy");
    match data[1].1 {
        simcore::RawValue::Num(p) => assert_eq!(bf(p), pe_one + pe_one),
        _ => panic!("potential term should be a number"),
    }
    // unnamed particles are keyed by their decimal index
    assert_eq!(data[2].0, "0");
    assert_eq!(data[3].0, "1");
}

#[test]
fn named_particle_sample_key() {
    let mut sim_cfg = PropMap::new();
    sim_cfg.insert("g_const".to_owned(), Property::Float(fb(1.0)));
    let config = Configuration {
        simulation_config: sim_cfg,
        solver_config: EulerMethodSolverConfig { timestep: fb(0.02) },
        initial_objects: vec![particle_def(1.0, 2.0, 0.0, 0.0, 1.0, Some("sun"))],
    };
    let mut sim = load(config);
    sim.start_recording_statistics();
    sim.step();
    let arr = match sim.statistics_raw() {
        simcore::RawValue::Arr(items) => items,
        _ => panic!("statistics should be an array"),
    };
    let entries = match &arr[0] {
        simcore::RawValue::Obj(entries) => entries,
        _ => panic!("sample should be an object"),
    };
    let data = match &entries[1].1 {
        simcore::RawValue::Obj(data) => data,
        _ => panic!("data should be an object"),
    };
    assert_eq!(data[2].0, "sun");
    match &data[2].1 {
        simcore::RawValue::Obj(part) => {
            assert_eq!(part[0].0, "position");
            assert_eq!(part[1].0, "velocity");
        },
        _ => panic!("particle sample should be an object"),
    }
}

#[test]
fn new_simulator_is_empty() {
    let sim: ParticleSimulator<DoubleOps> = ParticleSimulator::new(DoubleOps);
    assert_eq!(sim.particles().len(), 0);
    assert_eq!(bf(sim.time()), 0.0);
    assert!(sim.ready_check());
}

#[test]
fn ready_check_flags_bad_configuration() {
    let mut sim_cfg = PropMap::new();
    // g_const stored as a string: gravity on two bodies cannot read it
    sim_cfg.insert("g_const".to_owned(), Property::String("one".to_owned()));
    let config = Configuration {
        simulation_config: sim_cfg,
        solver_config: EulerMethodSolverConfig { timestep: fb(0.02) },
        initial_objects: vec![
            particle_def(0.0, 0.0, 0.0, 0.0, 1.0, None),
            particle_def(1.0, 1.0, 0.0, 0.0, 1.0, None),
        ],
    };
    let sim = load(config);
    assert!(!sim.ready_check());
}

#[test]
fn saturating_ops_arithmetic() {
    let ops = SaturatingOps;
    assert_eq!(ops.add(2, 3), 5);
    assert_eq!(ops.add(u64::MAX, 1), u64::MAX);
    assert_eq!(ops.sub(3, 5), 0);
    assert_eq!(ops.mul(1 << 40, 1 << 40), u64::MAX);
    assert_eq!(ops.div(7, 2), 3);
    assert_eq!(ops.div(7, 0), u64::MAX);
    assert_eq!(ops.sqrt(16), 4);
    assert_eq!(ops.sqrt(17), 4);
    assert_eq!(ops.sqrt(0), 0);
    assert_eq!(ops.sqrt(u64::MAX), (1 << 32) - 1);
    assert_eq!(ops.from_uint(9), 9);
}

#[test]
fn engine_runs_on_saturating_arithmetic() {
    let mut sim_cfg = PropMap::new();
    sim_cfg.insert("g_const".to_owned(), Property::Float(1));
    let mut d1 = PropMap::new();
    d1.insert("position".to_owned(), Property::Vector2(Vec2 { x: 0, y: 0 }));
    d1.insert("velocity".to_owned(), Property::Vector2(Vec2 { x: 1, y: 0 }));
    let mut d2 = PropMap::new();
    d2.insert("position".to_owned(), Property::Vector2(Vec2 { x: 30, y: 40 }));
    d2.insert("velocity".to_owned(), Property::Vector2(Vec2 { x: 0, y: 0 }));
    let config = Configuration {
        simulation_config: sim_cfg,
        solver_config: EulerMethodSolverConfig { timestep: 1 },
        initial_objects: vec![d1, d2],
    };
    let mut sim = match ParticleSimulator::load(config, SaturatingOps) {
        Ok(s) => s,
        Err(_) => panic!("configuration should load"),
    };
    assert!(sim.ready_check());
    sim.step();
    let ps = sim.particles();
    // on the first particle: distance 50, direction (30/50, 40/50)
    // truncates to (0, 0), the pull vanishes, and it drifts by its
    // velocity
    assert_eq!(ps[0].position.x, 1);
    assert_eq!(ps[0].position.y, 0);
    assert_eq!(ps[0].velocity.x, 1);
    // on the second: the separation (0-30, 0-40) clamps at zero, the
    // distance is zero, and the division by it saturates the pull
    assert_eq!(ps[1].velocity.x, u64::MAX);
    assert_eq!(ps[1].position.x, u64::MAX);
    assert_eq!(sim.time(), 1);
}

#[test]
fn three_body_ordered_pair_accumulation() {
    // each particle's accumulator sums one contribution per ordered
    // pair, partners in index order, with no symmetry shortcut
    let mut sim_cfg = PropMap::new();
    sim_cfg.insert("g_const".to_owned(), Property::Float(fb(2.0)));
    let config = Configuration {
        simulation_config: sim_cfg,
        solver_config: EulerMethodSolverConfig { timestep: fb(0.02) },
        initial_objects: vec![
            particle_def(0.0, 0.0, 0.0, 0.0, 1.0, None),
            particle_def(10.0, 0.0, 0.0, 0.0, 2.0, None),
            particle_def(0.0, 10.0, 0.0, 0.0, 4.0, None),
        ],
    };
    let mut sim = load(config);
    assert!(sim.ready_check());
    sim.step();

    let g = 2.0;
    let dt = 0.02;
    let bodies = [([0.0, 0.0], 1.0), ([10.0, 0.0], 2.0), ([0.0, 10.0], 4.0)];
    let ps = sim.particles();
    for i in 0..3 {
        let mut f = [0.0f64, 0.0f64];
        for j in 0..3 {
            if i != j {
                let c = gravity(bodies[i], bodies[j], g);
                f = [f[0] + c[0], f[1] + c[1]];
            }
        }
        let m = bodies[i].1;
        let v = [0.0 + (f[0] / m) * dt, 0.0 + (f[1] / m) * dt];
        let x = [bodies[i].0[0] + v[0] * dt, bodies[i].0[1] + v[1] * dt];
        assert_eq!(bf(ps[i].velocity.x), v[0]);
        assert_eq!(bf(ps[i].velocity.y), v[1]);
        assert_eq!(bf(ps[i].position.x), x[0]);
        assert_eq!(bf(ps[i].position.y), x[1]);
    }
}
