use simcore::{
    Configuration, EulerMethodSolverConfig, ParticleSimulator, PropMap, Property, PropertyKind,
    RawValue, ScalarOps, SimError, SimScalar, Vec2, Vec3, Vec4,
};

#[derive(Clone, Copy)]
struct DoubleOps;

impl ScalarOps for DoubleOps {
    fn from_uint_s(n: u64) -> SimScalar {
        (n as f64).to_bits()
    }
    fn add_s(a: SimScalar, b: SimScalar) -> SimScalar {
        (f64::from_bits(a) + f64::from_bits(b)).to_bits()
    }
    fn sub_s(a: SimScalar, b: SimScalar) -> SimScalar {
        (f64::from_bits(a) - f64::from_bits(b)).to_bits()
    }
    fn mul_s(a: SimScalar, b: SimScalar) -> SimScalar {
        (f64::from_bits(a) * f64::from_bits(b)).to_bits()
    }
    fn div_s(a: SimScalar, b: SimScalar) -> SimScalar {
        (f64::from_bits(a) / f64::from_bits(b)).to_bits()
    }
    fn sqrt_s(a: SimScalar) -> SimScalar {
        f64::from_bits(a).sqrt().to_bits()
    }
    fn from_uint(&self, n: u64) -> SimScalar {
        Self::from_uint_s(n)
    }
    fn add(&self, a: SimScalar, b: SimScalar) -> SimScalar {
        Self::add_s(a, b)
    }
    fn sub(&self, a: SimScalar, b: SimScalar) -> SimScalar {
        Self::sub_s(a, b)
    }
    fn mul(&self, a: SimScalar, b: SimScalar) -> SimScalar {
        Self::mul_s(a, b)
    }
    fn div(&self, a: SimScalar, b: SimScalar) -> SimScalar {
        Self::div_s(a, b)
    }
    fn sqrt(&self, a: SimScalar) -> SimScalar {
        Self::sqrt_s(a)
    }
}

fn fb(x: f64) -> u64 {
    x.to_bits()
}

fn bf(b: u64) -> f64 {
    f64::from_bits(b)
}

fn raw_to_value(r: &RawValue) -> serde_json::Value {
    match r {
        RawValue::Num(b) => serde_json::Value::from(f64::from_bits(*b)),
        RawValue::Str(s) => serde_json::Value::String(s.clone()),
        RawValue::Arr(items) => serde_json::Value::Array(items.iter().map(raw_to_value).collect()),
        RawValue::Obj(entries) => {
            let mut m = serde_json::Map::new();
            for (k, v) in entries.iter() {
                m.insert(k.clone(), raw_to_value(v));
            }
            serde_json::Value::Object(m)
        },
    }
}

fn value_to_raw(v: &serde_json::Value) -> RawValue {
    match v {
        serde_json::Value::Number(n) => match n.as_f64() {
            Some(x) => RawValue::Num(x.to_bits()),
            None => panic!("number out of range"),
        },
        serde_json::Value::String(s) => RawValue::Str(s.clone()),
        serde_json::Value::Array(a) => RawValue::Arr(a.iter().map(value_to_raw).collect()),
        serde_json::Value::Object(m) => RawValue::Obj(
            m.iter().map(|(k, v)| (k.clone(), value_to_raw(v))).collect(),
        ),
        _ => panic!("unexpected document"),
    }
}

fn get<'a>(m: &'a PropMap, name: &str) -> &'a Property {
    match m.get(&name.to_owned()) {
        Some(p) => p,
        None => panic!("entry should be present"),
    }
}

#[test]
fn strict_accessors_match_their_variant() {
    let f = Property::Float(fb(2.5));
    let v2 = Property::Vector2(Vec2 { x: fb(1.0), y: fb(2.0) });
    let v3 = Property::Vector3(Vec3 { x: fb(1.0), y: fb(2.0), z: fb(3.0) });
    let v4 = Property::Vector4(Vec4 { x: fb(1.0), y: fb(2.0), z: fb(3.0), w: fb(4.0) });
    let s = Property::String("tag".to_owned());
    let n = Property::Nested(PropMap::new());

    assert_eq!(bf(f.float().unwrap_or(0)), 2.5);
    assert_eq!(bf(v2.vec2().map(|v| v.y).unwrap_or(0)), 2.0);
    assert_eq!(bf(v3.vec3().map(|v| v.z).unwrap_or(0)), 3.0);
    assert_eq!(bf(v4.vec4().map(|v| v.w).unwrap_or(0)), 4.0);
    assert!(matches!(s.str(), Ok(t) if t == "tag"));
    assert!(n.nested().is_ok());
}

#[test]
fn strict_accessors_fail_on_mismatch() {
    let s = Property::String("tag".to_owned());
    match s.float() {
        Err(SimError::TypeMismatch { attempted, actual }) => {
            assert!(matches!(attempted, PropertyKind::Float));
            assert!(matches!(actual, Property::String(t) if t == "tag"));
        },
        _ => panic!("float() on a string should fail"),
    }
    let f = Property::Float(fb(1.0));
    assert!(matches!(
        f.vec2(),
        Err(SimError::TypeMismatch { attempted: PropertyKind::Vector2, .. })
    ));
    assert!(matches!(
        f.vec3(),
        Err(SimError::TypeMismatch { attempted: PropertyKind::Vector3, .. })
    ));
    assert!(matches!(
        f.vec4(),
        Err(SimError::TypeMismatch { attempted: PropertyKind::Vector4, .. })
    ));
    assert!(matches!(
        f.str(),
        Err(SimError::TypeMismatch { attempted: PropertyKind::String, .. })
    ));
    assert!(matches!(
        f.nested(),
        Err(SimError::TypeMismatch { attempted: PropertyKind::Nested, .. })
    ));
}

#[test]
fn lenient_accessors_return_absence() {
    let s = Property::String("tag".to_owned());
    assert!(s.try_float().is_none());
    assert!(s.try_vec2().is_none());
    assert!(s.try_vec3().is_none());
    assert!(s.try_vec4().is_none());
    assert!(s.try_nested().is_none());
    assert!(s.try_str().is_some());
    let f = Property::Float(fb(7.0));
    assert_eq!(bf(f.try_float().unwrap_or(0)), 7.0);
    assert!(f.try_str().is_none());
}

fn sample_config() -> Configuration {
    let mut sim_cfg = PropMap::new();
    sim_cfg.insert("g_const".to_owned(), Property::Float(fb(1.0)));
    sim_cfg.insert("name".to_owned(), Property::String("prototype".to_owned()));
    let mut nested = PropMap::new();
    nested.insert("hue".to_owned(), Property::Float(fb(0.5)));
    sim_cfg.insert("display".to_owned(), Property::Nested(nested));

    let mut d1 = PropMap::new();
    d1.insert(
        "position".to_owned(),
        Property::Vector2(Vec2 { x: fb(500.0), y: fb(400.0) }),
    );
    d1.insert(
        "velocity".to_owned(),
        Property::Vector2(Vec2 { x: fb(0.0), y: fb(0.4) }),
    );
    d1.insert("mass".to_owned(), Property::Float(fb(2.0)));
    d1.insert("name".to_owned(), Property::String("alpha".to_owned()));

    let mut d2 = PropMap::new();
    d2.insert(
        "position".to_owned(),
        Property::Vector2(Vec2 { x: fb(600.0), y: fb(500.0) }),
    );
    d2.insert(
        "velocity".to_owned(),
        Property::Vector2(Vec2 { x: fb(0.0), y: fb(-0.4) }),
    );

    Configuration {
        simulation_config: sim_cfg,
        solver_config: EulerMethodSolverConfig { timestep: fb(0.02) },
        initial_objects: vec![d1, d2],
    }
}

#[test]
fn configuration_round_trip_through_text() {
    let config = sample_config();
    let text = match serde_json::to_string(&raw_to_value(&config.to_raw())) {
        Ok(t) => t,
        Err(_) => panic!("encoding should succeed"),
    };
    let value: serde_json::Value = match serde_json::from_str(&text) {
        Ok(v) => v,
        Err(_) => panic!("decoding should succeed"),
    };
    let reloaded = match Configuration::from_raw(&value_to_raw(&value)) {
        Ok(c) => c,
        Err(_) => panic!("parsing should succeed"),
    };

    assert_eq!(bf(reloaded.solver_config.timestep), 0.02);
    assert!(matches!(get(&reloaded.simulation_config, "g_const"), Property::Float(b) if bf(*b) == 1.0));
    assert!(
        matches!(get(&reloaded.simulation_config, "name"), Property::String(s) if s == "prototype")
    );
    match get(&reloaded.simulation_config, "display") {
        Property::Nested(m) => {
            assert!(matches!(get(m, "hue"), Property::Float(b) if bf(*b) == 0.5));
        },
        _ => panic!("display should be nested"),
    }
    assert_eq!(reloaded.initial_objects.len(), 2);

    // loading yields particles equal to the source definitions
    let sim = match ParticleSimulator::load(reloaded, DoubleOps) {
        Ok(s) => s,
        Err(_) => panic!("loading should succeed"),
    };
    let ps = sim.particles();
    assert_eq!(bf(ps[0].position.x), 500.0);
    assert_eq!(bf(ps[0].position.y), 400.0);
    assert_eq!(bf(ps[0].velocity.x), 0.0);
    assert_eq!(bf(ps[0].velocity.y), 0.4);
    assert!(matches!(
        get(&ps[0].additional_properties, "mass"),
        Property::Float(b) if bf(*b) == 2.0
    ));
    assert!(matches!(
        get(&ps[0].additional_properties, "name"),
        Property::String(s) if s == "alpha"
    ));
    assert!(ps[0].additional_properties.get(&"position".to_owned()).is_none());
    assert!(ps[0].additional_properties.get(&"velocity".to_owned()).is_none());
    assert_eq!(bf(ps[1].position.x), 600.0);
    assert_eq!(bf(ps[1].velocity.y), -0.4);
    assert_eq!(ps[1].additional_properties.len(), 0);
}

#[test]
fn default_configuration_round_trips() {
    let config = Configuration::default_with(&DoubleOps);
    assert_eq!(bf(config.solver_config.timestep), 0.02);
    assert_eq!(config.simulation_config.len(), 0);
    assert_eq!(config.initial_objects.len(), 0);
    let reloaded = match Configuration::from_raw(&config.to_raw()) {
        Ok(c) => c,
        Err(_) => panic!("parsing should succeed"),
    };
    assert_eq!(bf(reloaded.solver_config.timestep), 0.02);
    assert_eq!(reloaded.simulation_config.len(), 0);
    assert_eq!(reloaded.initial_objects.len(), 0);
}

#[test]
fn malformed_documents_are_rejected() {
    // not an object at all
    assert!(matches!(
        Configuration::from_raw(&RawValue::Num(fb(1.0))),
        Err(SimError::Deserialization)
    ));
    // solver configuration without a numeric timestep
    let r = RawValue::Obj(vec![
        ("simulation_config".to_owned(), RawValue::Obj(vec![])),
        (
            "solver_config".to_owned(),
            RawValue::Obj(vec![("timestep".to_owned(), RawValue::Str("soon".to_owned()))]),
        ),
        ("initial_objects".to_owned(), RawValue::Arr(vec![])),
    ]);
    assert!(matches!(Configuration::from_raw(&r), Err(SimError::Deserialization)));
    // a five-element array is no property
    let r = RawValue::Obj(vec![
        (
            "simulation_config".to_owned(),
            RawValue::Obj(vec![(
                "zoom".to_owned(),
                RawValue::Arr(vec![
                    RawValue::Num(fb(1.0)),
                    RawValue::Num(fb(2.0)),
                    RawValue::Num(fb(3.0)),
                    RawValue::Num(fb(4.0)),
                    RawValue::Num(fb(5.0)),
                ]),
            )]),
        ),
        (
            "solver_config".to_owned(),
            RawValue::Obj(vec![("timestep".to_owned(), RawValue::Num(fb(0.02)))]),
        ),
        ("initial_objects".to_owned(), RawValue::Arr(vec![])),
    ]);
    assert!(matches!(Configuration::from_raw(&r), Err(SimError::Deserialization)));
}

#[test]
fn load_requires_position_and_velocity() {
    let mut def = PropMap::new();
    def.insert(
        "velocity".to_owned(),
        Property::Vector2(Vec2 { x: fb(0.0), y: fb(0.0) }),
    );
    let config = Configuration {
        simulation_config: PropMap::new(),
        solver_config: EulerMethodSolverConfig { timestep: fb(0.02) },
        initial_objects: vec![def],
    };
    match ParticleSimulator::load(config, DoubleOps) {
        Err(SimError::MissingField { field }) => assert_eq!(field, "position"),
        _ => panic!("loading should fail on the missing position"),
    }

    let mut def = PropMap::new();
    def.insert(
        "position".to_owned(),
        Property::Vector2(Vec2 { x: fb(0.0), y: fb(0.0) }),
    );
    let config = Configuration {
        simulation_config: PropMap::new(),
        solver_config: EulerMethodSolverConfig { timestep: fb(0.02) },
        initial_objects: vec![def],
    };
    match ParticleSimulator::load(config, DoubleOps) {
        Err(SimError::MissingField { field }) => assert_eq!(field, "velocity"),
        _ => panic!("loading should fail on the missing velocity"),
    }

    let mut def = PropMap::new();
    def.insert("position".to_owned(), Property::Float(fb(1.0)));
    def.insert(
        "velocity".to_owned(),
        Property::Vector2(Vec2 { x: fb(0.0), y: fb(0.0) }),
    );
    let config = Configuration {
        simulation_config: PropMap::new(),
        solver_config: EulerMethodSolverConfig { timestep: fb(0.02) },
        initial_objects: vec![def],
    };
    match ParticleSimulator::load(config, DoubleOps) {
        Err(SimError::TypeMismatch { attempted, actual }) => {
            assert!(matches!(attempted, PropertyKind::Vector2));
            assert!(matches!(actual, Property::Float(b) if bf(b) == 1.0));
        },
        _ => panic!("loading should fail on the mistyped position"),
    }
}

#[test]
fn sim_name_reads_the_name_setting() {
    let sim = match ParticleSimulator::load(sample_config(), DoubleOps) {
        Ok(s) => s,
        Err(_) => panic!("loading should succeed"),
    };
    assert!(matches!(sim.sim_name(), Ok(n) if n == "prototype"));

    let unnamed: ParticleSimulator<DoubleOps> = ParticleSimulator::new(DoubleOps);
    assert!(matches!(
        unnamed.sim_name(),
        Err(SimError::MissingField { field }) if field == "name"
    ));

    let mut sim_cfg = PropMap::new();
    sim_cfg.insert("name".to_owned(), Property::Float(fb(1.0)));
    let config = Configuration {
        simulation_config: sim_cfg,
        solver_config: EulerMethodSolverConfig { timestep: fb(0.02) },
        initial_objects: vec![],
    };
    let sim = match ParticleSimulator::load(config, DoubleOps) {
        Ok(s) => s,
        Err(_) => panic!("loading should succeed"),
    };
    assert!(matches!(
        sim.sim_name(),
        Err(SimError::TypeMismatch { attempted: PropertyKind::String, .. })
    ));
}

#[test]
fn statistics_encode_as_time_data_samples() {
    let mut sim = match ParticleSimulator::load(sample_config(), DoubleOps) {
        Ok(s) => s,
        Err(_) => panic!("loading should succeed"),
    };
    sim.start_recording_statistics();
    sim.step();
    sim.step();
    let value = raw_to_value(&sim.statistics_raw());
    let arr = match &value {
        serde_json::Value::Array(a) => a,
        _ => panic!("statistics should encode as an array"),
    };
    assert_eq!(arr.len(), 2);
    let t0 = arr[0].get("time").and_then(|t| t.as_f64());
    let t1 = arr[1].get("time").and_then(|t| t.as_f64());
    assert_eq!(t0, Some(0.0));
    assert_eq!(t1, Some(0.02));
    assert!(arr[0].get("data").and_then(|d| d.get("kinetic_energy")).is_some());
    assert!(arr[0].get("data").and_then(|d| d.get("potential_energy")).is_some());
    assert!(arr[0].get("data").and_then(|d| d.get("alpha")).is_some());
}

#[test]
fn decimal_writing_of_indices() {
    assert_eq!(simcore::sim::usize_to_string(0), "0");
    assert_eq!(simcore::sim::usize_to_string(7), "7");
    assert_eq!(simcore::sim::usize_to_string(10), "10");
    assert_eq!(simcore::sim::usize_to_string(120), "120");
    assert_eq!(simcore::sim::usize_to_string(98765), "98765");
}

#[test]
fn clone_copies_deeply() {
    let mut inner = PropMap::new();
    inner.insert("hue".to_owned(), Property::Float(fb(0.25)));
    let mut outer = PropMap::new();
    outer.insert("display".to_owned(), Property::Nested(inner));
    outer.insert("label".to_owned(), Property::String("left".to_owned()));
    let copy = outer.clone();
    match get(&copy, "display") {
        Property::Nested(m) => {
            assert!(matches!(get(m, "hue"), Property::Float(b) if bf(*b) == 0.25));
        },
        _ => panic!("display should stay nested"),
    }
    assert!(matches!(get(&copy, "label"), Property::String(s) if s == "left"));
    assert_eq!(copy.len(), 2);
}
