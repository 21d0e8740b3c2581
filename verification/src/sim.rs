use vstd::prelude::*;

use crate::config::{
    config_view, lemma_config_round_trip, parse_config, print_config, ConfigView, Configuration,
    EulerMethodSolverConfig,
};
use crate::particle::{
    mass_s, part_view, step_part_s, EulerMethodObject, ParticleProto, PartView,
};
use crate::property::{
    lemma_pview_variant, mview, pfind, plookup, PropertyKind, PropMap, Property, SimError, Vec2,
    PV,
};
use crate::raw::{
    lemma_raw_entries_view_all, lemma_raw_items_view_all, print_entries, propmap_to_raw_entries,
    raw_entries_view, raw_items_view, rview, RawValue, RV,
};
use crate::scalar::{ScalarOps, SimScalar};
use crate::stats::Timeseries;
use vstd::string::StringExecFns;

verus! {

/// The closed set of interaction laws a simulator can evaluate: no
/// interaction at all, or Newtonian gravity between each ordered pair.
#[derive(Clone, Copy, PartialEq, Eq, Structural, Debug)]
pub enum InteractionLaw {
    Inert,
    Gravity,
}

/// The zero vector.
pub open spec fn vzero_s<S: ScalarOps>() -> Vec2 {
    Vec2 { x: S::from_uint_s(0), y: S::from_uint_s(0) }
}

/// The global gravitational constant stored in a configuration, when
/// one is stored as a scalar.
pub open spec fn gconst_ok(cfg: Seq<(Seq<char>, PV)>) -> bool {
    plookup(cfg, "g_const"@) matches Some(PV::F(_))
}

/// The stored gravitational constant, or zero when none is stored as a
/// scalar.
pub open spec fn gconst_s<S: ScalarOps>(cfg: Seq<(Seq<char>, PV)>) -> SimScalar {
    match plookup(cfg, "g_const"@) {
        Some(PV::F(b)) => b,
        _ => S::from_uint_s(0),
    }
}

/// The gravity contribution on the first particle from the second:
/// with separation h from the first to the second, distance d = |h|,
/// and masses m1 and m2, the vector g·m1·m2·(h/d)/(d·d).
///
/// Coincident particles give a zero distance, and no softening is
/// applied: what the division by zero yields is the scalar
/// arithmetic's affair (under binary64 arithmetic, the singularity of
/// the reference law; under the saturating arithmetic, the largest
/// scalar).
pub open spec fn gravity_s<S: ScalarOps>(p1: PartView, p2: PartView, g: SimScalar) -> Vec2 {
    let hx = S::sub_s(p2.position.x, p1.position.x);
    let hy = S::sub_s(p2.position.y, p1.position.y);
    let dst = S::sqrt_s(S::add_s(S::mul_s(hx, hx), S::mul_s(hy, hy)));
    let dirx = S::div_s(hx, dst);
    let diry = S::div_s(hy, dst);
    let coeff = S::mul_s(S::mul_s(g, mass_s::<S>(p1.props)), mass_s::<S>(p2.props));
    let denom = S::mul_s(dst, dst);
    Vec2 { x: S::div_s(S::mul_s(coeff, dirx), denom), y: S::div_s(S::mul_s(coeff, diry), denom) }
}

/// One pairwise contribution under the given law.
pub open spec fn law_eval_s<S: ScalarOps>(
    law: InteractionLaw,
    p1: PartView,
    p2: PartView,
    cfg: Seq<(Seq<char>, PV)>,
) -> Vec2 {
    match law {
        InteractionLaw::Inert => vzero_s::<S>(),
        InteractionLaw::Gravity => gravity_s::<S>(p1, p2, gconst_s::<S>(cfg)),
    }
}

/// The force accumulated on particle `i` after the contributions of
/// the partners `j, j+1, ...` in index order, skipping `i` itself, have
/// been added to `acc`.
pub open spec fn force_row_s<S: ScalarOps>(
    objs: Seq<PartView>,
    cfg: Seq<(Seq<char>, PV)>,
    law: InteractionLaw,
    i: int,
    j: int,
    acc: Vec2,
) -> Vec2
    decreases objs.len() - j,
{
    if !(0 <= j < objs.len()) || !(0 <= i < objs.len()) {
        acc
    } else if j == i {
        force_row_s::<S>(objs, cfg, law, i, j + 1, acc)
    } else {
        let f = law_eval_s::<S>(law, objs[i], objs[j], cfg);
        force_row_s::<S>(
            objs,
            cfg,
            law,
            i,
            j + 1,
            Vec2 { x: S::add_s(acc.x, f.x), y: S::add_s(acc.y, f.y) },
        )
    }
}

/// The aggregate energy terms after the ordered pairs from `(i, j)` on
/// have been folded into the accumulators: for each ordered pair of
/// distinct particles, the potential term g·m1·m2/d is subtracted and
/// the relative kinetic term m1·|v1−v2|² is added.  Both orderings of
/// each pair contribute, so both sums count every pair twice.
pub open spec fn energies_s<S: ScalarOps>(
    objs: Seq<PartView>,
    g: SimScalar,
    i: int,
    j: int,
    ke: SimScalar,
    pe: SimScalar,
) -> (SimScalar, SimScalar)
    decreases objs.len() - i, objs.len() + 1 - j,
{
    if !(0 <= i < objs.len()) || !(0 <= j) {
        (ke, pe)
    } else if j >= objs.len() {
        energies_s::<S>(objs, g, i + 1, 0, ke, pe)
    } else if j == i {
        energies_s::<S>(objs, g, i, j + 1, ke, pe)
    } else {
        let m1 = mass_s::<S>(objs[i].props);
        let m2 = mass_s::<S>(objs[j].props);
        let dx = S::sub_s(objs[i].position.x, objs[j].position.x);
        let dy = S::sub_s(objs[i].position.y, objs[j].position.y);
        let d = S::sqrt_s(S::add_s(S::mul_s(dx, dx), S::mul_s(dy, dy)));
        let pe2 = S::sub_s(pe, S::div_s(S::mul_s(S::mul_s(g, m1), m2), d));
        let wx = S::sub_s(objs[i].velocity.x, objs[j].velocity.x);
        let wy = S::sub_s(objs[i].velocity.y, objs[j].velocity.y);
        let ke2 = S::add_s(ke, S::mul_s(m1, S::add_s(S::mul_s(wx, wx), S::mul_s(wy, wy))));
        energies_s::<S>(objs, g, i, j + 1, ke2, pe2)
    }
}

/// A decimal digit as a character.
pub open spec fn dec_digit(d: int) -> char {
    if d == 0 {
        '0'
    } else if d == 1 {
        '1'
    } else if d == 2 {
        '2'
    } else if d == 3 {
        '3'
    } else if d == 4 {
        '4'
    } else if d == 5 {
        '5'
    } else if d == 6 {
        '6'
    } else if d == 7 {
        '7'
    } else if d == 8 {
        '8'
    } else {
        '9'
    }
}

/// The decimal writing of a nonnegative number.
pub open spec fn dec_seq(n: int) -> Seq<char>
    decreases n,
{
    if n < 10 {
        seq![dec_digit(n)]
    } else {
        dec_seq(n / 10) + seq![dec_digit(n % 10)]
    }
}

/// Inserting into a name/value sequence: replaces the first entry with
/// the given name, or appends one.
pub open spec fn sinsert(s: Seq<(Seq<char>, PV)>, k: Seq<char>, v: PV) -> Seq<(Seq<char>, PV)> {
    if pfind(s, k) < s.len() {
        s.update(pfind(s, k), (k, v))
    } else {
        s.push((k, v))
    }
}

/// The per-particle samples from particle `i` on, folded into the
/// sample map: each particle contributes, under its `name` property or
/// its decimal index, a nested map of its current position and
/// velocity.
pub open spec fn sample_parts_s(objs: Seq<PartView>, i: int, acc: Seq<(Seq<char>, PV)>) -> Seq<
    (Seq<char>, PV),
>
    decreases objs.len() - i,
{
    if !(0 <= i < objs.len()) {
        acc
    } else {
        let key = match plookup(objs[i].props, "name"@) {
            Some(PV::S(s)) => s,
            _ => dec_seq(i),
        };
        let entry = PV::N(
            seq![
                ("position"@, PV::V2(objs[i].position)),
                ("velocity"@, PV::V2(objs[i].velocity)),
            ],
        );
        sample_parts_s(objs, i + 1, sinsert(acc, key, entry))
    }
}

/// The mathematical state of a simulator: the fixed timestep, the
/// global configuration, the particles, the simulation clock, the
/// interaction law, and the recorded statistics when recording is on.
#[verifier::ext_equal]
pub struct SimView {
    pub timestep: SimScalar,
    pub config: Seq<(Seq<char>, PV)>,
    pub objects: Seq<PartView>,
    pub time: SimScalar,
    pub law: InteractionLaw,
    pub stats: Option<Seq<(SimScalar, Seq<(Seq<char>, PV)>)>>,
}

/// One statistics sample of a state: the two aggregate energy terms,
/// then one nested entry per particle.
pub open spec fn sample_s<S: ScalarOps>(v: SimView) -> Seq<(Seq<char>, PV)> {
    let z = S::from_uint_s(0);
    let e = energies_s::<S>(v.objects, gconst_s::<S>(v.config), 0, 0, z, z);
    let base = sinsert(
        sinsert(Seq::empty(), "kinetic_energy"@, PV::F(e.0)),
        "potential_energy"@,
        PV::F(e.1),
    );
    sample_parts_s(v.objects, 0, base)
}

/// One step of the simulation: when recording is on, one sample of the
/// unstepped state is appended first; then every ordered pair's
/// contribution is accumulated, each particle is stepped by its
/// accumulated force, and the clock advances by the timestep.
pub open spec fn sim_step_s<S: ScalarOps>(v: SimView) -> SimView {
    let recorded = match v.stats {
        Some(series) => Some(series.push((v.time, sample_s::<S>(v)))),
        None => None,
    };
    let forces = Seq::new(
        v.objects.len(),
        |i: int| force_row_s::<S>(v.objects, v.config, v.law, i, 0, vzero_s::<S>()),
    );
    let stepped = Seq::new(
        v.objects.len(),
        |i: int| step_part_s::<S>(v.objects[i], forces[i], v.timestep),
    );
    SimView {
        timestep: v.timestep,
        config: v.config,
        objects: stepped,
        time: S::add_s(v.time, v.timestep),
        law: v.law,
        stats: recorded,
    }
}

/// Every particle's `mass` property, where present, is a scalar.
pub open spec fn masses_ok(objs: Seq<PartView>) -> bool {
    forall|i: int|
        0 <= i < objs.len() ==> match #[trigger] plookup(objs[i].props, "mass"@) {
            Some(pv) => pv is F,
            None => true,
        }
}

/// Every particle's `name` property, where present, is a string.
pub open spec fn names_ok(objs: Seq<PartView>) -> bool {
    forall|i: int|
        0 <= i < objs.len() ==> match #[trigger] plookup(objs[i].props, "name"@) {
            Some(pv) => pv is S,
            None => true,
        }
}

/// A state the step may run on without hitting a configuration-
/// authoring defect: masses are well-typed; the gravitational constant
/// is stored whenever a pairwise term will read it; and names are
/// well-typed whenever a sample will read them.  A mismatch here is
/// fail-fast for the host, never a per-step error.
pub open spec fn ready(v: SimView) -> bool {
    &&& masses_ok(v.objects)
    &&& (v.law is Gravity && v.objects.len() >= 2 ==> gconst_ok(v.config))
    &&& (v.stats is Some ==> names_ok(v.objects) && (v.objects.len() >= 2 ==> gconst_ok(
        v.config,
    )))
}

/// The solver that advances every particle by one fixed timestep.
#[derive(Clone, Copy)]
pub struct EulerMethodSolver {
    pub config: EulerMethodSolverConfig,
}

impl EulerMethodSolver {
    /// A solver with the given configuration.
    pub fn new(config: EulerMethodSolverConfig) -> (r: EulerMethodSolver)
        ensures
            r.config == config,
    {
        EulerMethodSolver { config }
    }

    /// The fixed timestep.
    pub fn delta(&self) -> (r: SimScalar)
        ensures
            r == self.config.timestep,
    {
        self.config.timestep
    }

    /// Advances each object once by its accumulated force, in order,
    /// over the fixed timestep.
    pub fn step_simulation<S: ScalarOps, TObj: EulerMethodObject<S>>(
        &self,
        ops: &S,
        objects: &mut Vec<TObj>,
        forces: &Vec<Vec2>,
    )
        requires
            old(objects)@.len() == forces@.len(),
        ensures
            final(objects)@.len() == old(objects)@.len(),
            forall|i: int|
                0 <= i < old(objects)@.len() ==> final(objects)@[i] == TObj::step_s(
                    old(objects)@[i],
                    forces@[i],
                    self.config.timestep,
                ),
    {
        let delta = self.config.timestep;
        let mut i: usize = 0;
        while i < objects.len()
            invariant
                objects@.len() == old(objects)@.len(),
                objects@.len() == forces@.len(),
                i <= objects@.len(),
                delta == self.config.timestep,
                forall|k: int|
                    0 <= k < i ==> objects@[k] == TObj::step_s(
                        old(objects)@[k],
                        forces@[k],
                        delta,
                    ),
                forall|k: int| i <= k < objects@.len() ==> objects@[k] == old(objects)@[k],
            decreases objects@.len() - i,
        {
            let f = forces[i];
            objects[i].step(ops, f, delta);
            i = i + 1;
        }
    }
}

/// A spec-level account of why a particle definition cannot be turned
/// into a particle: a required name is absent, or the value under it is
/// not a two-component vector.
pub enum LoadFailure {
    Missing(Seq<char>),
    Mismatch(PV),
}

/// Why a particle definition fails to load, if it does: `position` is
/// taken first, then `velocity` from what remains.
pub open spec fn extract_failure(def: Seq<(Seq<char>, PV)>) -> Option<LoadFailure> {
    let ip = pfind(def, "position"@);
    if ip >= def.len() {
        Some(LoadFailure::Missing("position"@))
    } else if !(def[ip].1 is V2) {
        Some(LoadFailure::Mismatch(def[ip].1))
    } else {
        let d1 = def.remove(ip);
        let iv = pfind(d1, "velocity"@);
        if iv >= d1.len() {
            Some(LoadFailure::Missing("velocity"@))
        } else if !(d1[iv].1 is V2) {
            Some(LoadFailure::Mismatch(d1[iv].1))
        } else {
            None
        }
    }
}

/// The particle a definition stands for: its `position` and `velocity`
/// entries become the kinematic state, and everything that remains
/// becomes its additional properties.
pub open spec fn extract_part_v(def: Seq<(Seq<char>, PV)>) -> PartView {
    let ip = pfind(def, "position"@);
    let d1 = def.remove(ip);
    let iv = pfind(d1, "velocity"@);
    PartView { position: def[ip].1->V2_0, velocity: d1[iv].1->V2_0, props: d1.remove(iv) }
}

/// The position of the first definition that fails to load, or the
/// number of definitions when all load.
pub open spec fn first_bad(defs: Seq<Seq<(Seq<char>, PV)>>) -> int
    decreases defs,
{
    if defs.len() == 0 {
        0
    } else if extract_failure(defs[0]) is Some {
        0
    } else {
        1 + first_bad(defs.drop_first())
    }
}

/// The first failing position is within bounds, fails if within the
/// sequence, and nothing before it fails.
pub proof fn lemma_first_bad(defs: Seq<Seq<(Seq<char>, PV)>>)
    ensures
        0 <= first_bad(defs) <= defs.len(),
        first_bad(defs) < defs.len() ==> extract_failure(defs[first_bad(defs)]) is Some,
        forall|j: int| 0 <= j < first_bad(defs) ==> extract_failure(#[trigger] defs[j]) is None,
    decreases defs,
{
    if defs.len() > 0 && extract_failure(defs[0]) is None {
        lemma_first_bad(defs.drop_first());
        assert forall|j: int| 0 <= j < first_bad(defs) implies extract_failure(
            #[trigger] defs[j],
        ) is None by {
            if j > 0 {
                assert(defs.drop_first()[j - 1] == defs[j]);
            }
        }
        if first_bad(defs) < defs.len() {
            assert(defs.drop_first()[first_bad(defs) - 1] == defs[first_bad(defs)]);
        }
    }
}

/// The state a loaded configuration starts the simulation in: its
/// particles, its global configuration and timestep, the gravity law, a
/// clock at zero, and no recording.
pub open spec fn load_view<S: ScalarOps>(cv: ConfigView) -> SimView {
    SimView {
        timestep: cv.timestep,
        config: cv.sim,
        objects: Seq::new(cv.objects.len(), |i: int| extract_part_v(cv.objects[i])),
        time: S::from_uint_s(0),
        law: InteractionLaw::Gravity,
        stats: None,
    }
}

/// The simulation engine: it owns the solver, the global configuration,
/// the particles, the clock, the interaction law, the optional
/// statistics recorder, and the scalar arithmetic it runs on.
pub struct ParticleSimulator<S: ScalarOps> {
    pub solver: EulerMethodSolver,
    pub sim_config: PropMap,
    pub objects: Vec<ParticleProto>,
    pub simulation_time: SimScalar,
    pub interaction_law: InteractionLaw,
    pub stats: Option<Timeseries<PropMap>>,
    pub ops: S,
}

/// The value of a simulator.
pub open spec fn sim_view<S: ScalarOps>(s: ParticleSimulator<S>) -> SimView {
    SimView {
        timestep: s.solver.config.timestep,
        config: mview(s.sim_config),
        objects: Seq::new(s.objects@.len(), |i: int| part_view(s.objects@[i])),
        time: s.simulation_time,
        law: s.interaction_law,
        stats: match s.stats {
            Some(ts) => Some(
                Seq::new(ts.series@.len(), |i: int| (ts.series@[i].0, mview(ts.series@[i].1))),
            ),
            None => None,
        },
    }
}

impl<S: ScalarOps> ParticleSimulator<S> {
    /// An empty simulator: no particles, no global configuration, the
    /// default timestep of one fiftieth, the inert law, a clock at
    /// zero, and no recording.
    pub fn new(ops: S) -> (r: ParticleSimulator<S>)
        ensures
            sim_view(r) =~= (SimView {
                timestep: S::div_s(S::from_uint_s(1), S::from_uint_s(50)),
                config: Seq::empty(),
                objects: Seq::empty(),
                time: S::from_uint_s(0),
                law: InteractionLaw::Inert,
                stats: None,
            }),
    {
        let one = ops.from_uint(1);
        let fifty = ops.from_uint(50);
        let timestep = ops.div(one, fifty);
        ParticleSimulator {
            solver: EulerMethodSolver::new(EulerMethodSolverConfig { timestep }),
            sim_config: PropMap::new(),
            objects: Vec::new(),
            simulation_time: ops.from_uint(0),
            interaction_law: InteractionLaw::Inert,
            stats: None,
            ops,
        }
    }

    /// Builds a simulator from a configuration: each definition must
    /// hold `position` and `velocity` as two-component vectors, and its
    /// remaining entries become the particle's properties.  The first
    /// offending definition decides the error: an absent name gives a
    /// missing-field error, a wrongly-typed one a type-mismatch error.
    pub fn load(config: Configuration, ops: S) -> (res: Result<ParticleSimulator<S>, SimError>)
        ensures
            ({
                let cv = config_view(config);
                let fb = first_bad(cv.objects);
                &&& (fb == cv.objects.len() <==> res is Ok)
                &&& (res matches Ok(sim) ==> sim_view(sim) == load_view::<S>(cv))
                &&& (res matches Err(e) ==> fb < cv.objects.len() && (match extract_failure(
                    cv.objects[fb],
                ) {
                    Some(LoadFailure::Missing(f)) => e matches SimError::MissingField {
                        field,
                    } && field@ == f,
                    Some(LoadFailure::Mismatch(pv)) => e matches SimError::TypeMismatch {
                        attempted,
                        actual,
                    } && attempted == PropertyKind::Vector2 && crate::property::pview(actual)
                        == pv,
                    None => false,
                }))
            }),
    {
        let ghost cv = config_view(config);
        proof {
            lemma_first_bad(cv.objects);
        }
        let Configuration { simulation_config, solver_config, initial_objects } = config;
        let mut defs = initial_objects;
        let mut objects: Vec<ParticleProto> = Vec::new();
        let ghost n = cv.objects.len();
        let total = defs.len();
        proof {
            assert(n == total as int);
        }
        let mut i: usize = 0;
        while defs.len() > 0
            invariant
                i as int + defs@.len() == n,
                objects@.len() == i as int,
                n == cv.objects.len(),
                n <= usize::MAX,
                cv == config_view(config),
                forall|j: int| 0 <= j < defs@.len() ==> mview(#[trigger] defs@[j]) == cv.objects[
                    i as int + j
                ],
                forall|k: int|
                    0 <= k < i ==> extract_failure(#[trigger] cv.objects[k]) is None && part_view(
                        objects@[k],
                    ) == extract_part_v(cv.objects[k]),
                0 <= first_bad(cv.objects) <= n,
                first_bad(cv.objects) < n ==> extract_failure(cv.objects[first_bad(cv.objects)])
                    is Some,
                forall|j: int|
                    0 <= j < first_bad(cv.objects) ==> extract_failure(
                        #[trigger] cv.objects[j],
                    ) is None,
            decreases defs@.len(),
        {
            let mut def = defs.remove(0);
            let ghost dv = mview(def);
            let pos = match def.remove(&("position".to_owned())) {
                Some(p) => p,
                None => {
                    proof {
                        lemma_fb_at(cv.objects, i as int);
                    }
                    return Err(SimError::MissingField { field: "position".to_owned() });
                },
            };
            let position = match pos {
                Property::Vector2(v) => v,
                other => {
                    proof {
                        lemma_fb_at(cv.objects, i as int);
                        lemma_pview_variant(other);
                    }
                    return Err(
                        SimError::TypeMismatch {
                            attempted: PropertyKind::Vector2,
                            actual: other,
                        },
                    );
                },
            };
            let vel = match def.remove(&("velocity".to_owned())) {
                Some(p) => p,
                None => {
                    proof {
                        lemma_fb_at(cv.objects, i as int);
                    }
                    return Err(SimError::MissingField { field: "velocity".to_owned() });
                },
            };
            let velocity = match vel {
                Property::Vector2(v) => v,
                other => {
                    proof {
                        lemma_fb_at(cv.objects, i as int);
                        lemma_pview_variant(other);
                    }
                    return Err(
                        SimError::TypeMismatch {
                            attempted: PropertyKind::Vector2,
                            actual: other,
                        },
                    );
                },
            };
            objects.push(ParticleProto { position, velocity, additional_properties: def });
            i = i + 1;
        }
        proof {
            assert(first_bad(cv.objects) == n);
        }
        let sim = ParticleSimulator {
            solver: EulerMethodSolver::new(solver_config),
            sim_config: simulation_config,
            objects,
            simulation_time: ops.from_uint(0),
            interaction_law: InteractionLaw::Gravity,
            stats: None,
            ops,
        };
        proof {
            assert(sim_view(sim).objects =~= load_view::<S>(cv).objects);
            assert(sim_view(sim) =~= load_view::<S>(cv));
        }
        Ok(sim)
    }
}

/// A single decimal digit as a string.
fn digit_str(d: usize) -> (s: String)
    requires
        d < 10,
    ensures
        s@ == seq![dec_digit(d as int)],
{
    let s = match d {
        0 => "0",
        1 => "1",
        2 => "2",
        3 => "3",
        4 => "4",
        5 => "5",
        6 => "6",
        7 => "7",
        8 => "8",
        _ => "9",
    };
    proof {
        reveal_strlit("0");
        reveal_strlit("1");
        reveal_strlit("2");
        reveal_strlit("3");
        reveal_strlit("4");
        reveal_strlit("5");
        reveal_strlit("6");
        reveal_strlit("7");
        reveal_strlit("8");
        reveal_strlit("9");
        assert(s@ =~= seq![dec_digit(d as int)]);
    }
    s.to_owned()
}

/// The decimal writing of a number.
pub fn usize_to_string(n: usize) -> (s: String)
    ensures
        s@ == dec_seq(n as int),
    decreases n,
{
    if n < 10 {
        digit_str(n)
    } else {
        let mut s = usize_to_string(n / 10);
        let d = digit_str(n % 10);
        s.append(d.as_str());
        s
    }
}

/// Evaluates one pairwise contribution of the configured interaction
/// law: nothing under the inert law, the gravity formula with the
/// stored gravitational constant and the two masses under gravity.
pub fn evaluate_interaction<S: ScalarOps>(
    ops: &S,
    law: InteractionLaw,
    p1: &ParticleProto,
    p2: &ParticleProto,
    cfg: &PropMap,
) -> (r: Vec2)
    requires
        law is Gravity ==> gconst_ok(mview(*cfg)),
    ensures
        r == law_eval_s::<S>(law, part_view(*p1), part_view(*p2), mview(*cfg)),
{
    match law {
        InteractionLaw::Inert => {
            let zero = ops.from_uint(0);
            Vec2 { x: zero, y: zero }
        },
        InteractionLaw::Gravity => {
            let g = match cfg.get(&("g_const".to_owned())) {
                Some(p) => match p.try_float() {
                    Some(b) => b,
                    None => {
                        proof {
                            lemma_pview_variant(*p);
                        }
                        ops.from_uint(0)
                    },
                },
                None => ops.from_uint(0),
            };
            proof {
                assert(g == gconst_s::<S>(mview(*cfg)));
            }
            let hx = ops.sub(p2.position.x, p1.position.x);
            let hy = ops.sub(p2.position.y, p1.position.y);
            let dst = ops.sqrt(ops.add(ops.mul(hx, hx), ops.mul(hy, hy)));
            let dirx = ops.div(hx, dst);
            let diry = ops.div(hy, dst);
            let m1 = p1.mass(ops);
            let m2 = p2.mass(ops);
            let coeff = ops.mul(ops.mul(g, m1), m2);
            let denom = ops.mul(dst, dst);
            Vec2 { x: ops.div(ops.mul(coeff, dirx), denom), y: ops.div(ops.mul(coeff, diry), denom) }
        },
    }
}

impl<S: ScalarOps> ParticleSimulator<S> {
    /// Attaches a fresh, empty statistics recorder; until this is
    /// called, stepping records nothing.
    pub fn start_recording_statistics(&mut self)
        ensures
            final(self).stats matches Some(ts) && ts.series@ =~= Seq::<(
                SimScalar,
                PropMap,
            )>::empty(),
            final(self).solver == old(self).solver,
            final(self).sim_config == old(self).sim_config,
            final(self).objects == old(self).objects,
            final(self).simulation_time == old(self).simulation_time,
            final(self).interaction_law == old(self).interaction_law,
            final(self).ops == old(self).ops,
    {
        self.stats = Some(Timeseries::new());
    }

    /// The simulation's name: its `name` global setting; a
    /// missing-field error when none is stored, a type-mismatch error
    /// when it is not a string.
    pub fn sim_name(&self) -> (r: Result<String, SimError>)
        ensures
            match plookup(mview(self.sim_config), "name"@) {
                Some(PV::S(s)) => r matches Ok(n) && n@ == s,
                Some(pv) => r matches Err(e) && e matches SimError::TypeMismatch {
                    attempted,
                    actual,
                } && attempted == PropertyKind::String && crate::property::pview(actual) == pv,
                None => r matches Err(e) && e matches SimError::MissingField { field } && field@
                    == "name"@,
            },
    {
        match self.sim_config.get(&("name".to_owned())) {
            Some(p) => match p.str() {
                Ok(s) => {
                    proof {
                        lemma_pview_variant(*p);
                    }
                    Ok(s.clone())
                },
                Err(e) => {
                    proof {
                        lemma_pview_variant(*p);
                    }
                    Err(e)
                },
            },
            None => Err(SimError::MissingField { field: "name".to_owned() }),
        }
    }

    /// A read-only view of the particles.
    pub fn particles(&self) -> (r: &Vec<ParticleProto>)
        ensures
            r == &self.objects,
    {
        &self.objects
    }

    /// The elapsed simulation time.
    pub fn time(&self) -> (r: SimScalar)
        ensures
            r == self.simulation_time,
    {
        self.simulation_time
    }

    /// Whether the state is ready to step: the fail-fast check a host
    /// runs once after loading, before it drives the simulation.
    pub fn ready_check(&self) -> (r: bool)
        ensures
            r == ready(sim_view(*self)),
    {
        let ghost ov = sim_view(*self).objects;
        let ops = self.ops;
        let n = self.objects.len();
        let mut masses = true;
        let mut names = true;
        let mut i: usize = 0;
        while i < n
            invariant
                i <= n,
                n == self.objects@.len(),
                ov == sim_view(*self).objects,
                ov.len() == n,
                forall|k: int| 0 <= k < n ==> #[trigger] ov[k] == part_view(self.objects@[k]),
                masses == (forall|k: int|
                    0 <= k < i ==> match #[trigger] plookup(ov[k].props, "mass"@) {
                        Some(pv) => pv is F,
                        None => true,
                    }),
                names == (forall|k: int|
                    0 <= k < i ==> match #[trigger] plookup(ov[k].props, "name"@) {
                        Some(pv) => pv is S,
                        None => true,
                    }),
            decreases n - i,
        {
            let mass_ok = match self.objects[i].additional_properties.get(&("mass".to_owned())) {
                Some(p) => {
                    proof {
                        lemma_pview_variant(*p);
                    }
                    p.try_float().is_some()
                },
                None => true,
            };
            let name_ok = match self.objects[i].additional_properties.get(&("name".to_owned())) {
                Some(p) => {
                    proof {
                        lemma_pview_variant(*p);
                    }
                    p.try_str().is_some()
                },
                None => true,
            };
            proof {
                assert(mass_ok == (match plookup(ov[i as int].props, "mass"@) {
                    Some(pv) => pv is F,
                    None => true,
                }));
                assert(name_ok == (match plookup(ov[i as int].props, "name"@) {
                    Some(pv) => pv is S,
                    None => true,
                }));
            }
            masses = masses && mass_ok;
            names = names && name_ok;
            i = i + 1;
        }
        proof {
            assert(masses == masses_ok(ov));
            assert(names == names_ok(ov));
        }
        let g_ok = match self.sim_config.get(&("g_const".to_owned())) {
            Some(p) => {
                proof {
                    lemma_pview_variant(*p);
                }
                p.try_float().is_some()
            },
            None => false,
        };
        let law_needs_g = match self.interaction_law {
            InteractionLaw::Gravity => n >= 2,
            InteractionLaw::Inert => false,
        };
        let stats_on = self.stats.is_some();
        masses && (!law_needs_g || g_ok) && (!stats_on || (names && (n < 2 || g_ok)))
    }

    /// When recording is on, computes and appends one statistics sample
    /// of the current, unstepped state; otherwise does nothing.
    fn record_stats(&mut self)
        requires
            ready(sim_view(*old(self))),
        ensures
            final(self).solver == old(self).solver,
            final(self).sim_config == old(self).sim_config,
            final(self).objects == old(self).objects,
            final(self).simulation_time == old(self).simulation_time,
            final(self).interaction_law == old(self).interaction_law,
            final(self).ops == old(self).ops,
            old(self).stats is None ==> final(self).stats is None,
            old(self).stats matches Some(ts) ==> (final(self).stats matches Some(ts2)
                && ts2.series@.len() == ts.series@.len() + 1 && (forall|j: int|
                0 <= j < ts.series@.len() ==> ts2.series@[j] == ts.series@[j])
                && ts2.series@.last().0 == old(self).simulation_time && mview(
                ts2.series@.last().1,
            ) == sample_s::<S>(sim_view(*old(self)))),
    {
        if self.stats.is_none() {
            return ;
        }
        let ghost pre = sim_view(*self);
        let ops = self.ops;
        let g = match self.sim_config.get(&("g_const".to_owned())) {
            Some(p) => match p.try_float() {
                Some(b) => b,
                None => {
                    proof {
                        lemma_pview_variant(*p);
                    }
                    ops.from_uint(0)
                },
            },
            None => ops.from_uint(0),
        };
        proof {
            assert(g == gconst_s::<S>(pre.config));
        }
        let n = self.objects.len();
        let zero = ops.from_uint(0);
        let mut ke = zero;
        let mut pe = zero;
        let ghost target = energies_s::<S>(
            pre.objects,
            g,
            0,
            0,
            S::from_uint_s(0),
            S::from_uint_s(0),
        );
        let mut i: usize = 0;
        while i < n
            invariant
                i <= n,
                n == self.objects@.len(),
                pre == sim_view(*self),
                pre.objects.len() == n,
                forall|k: int| 0 <= k < n ==> #[trigger] pre.objects[k] == part_view(
                    self.objects@[k],
                ),
                ops == self.ops,
                energies_s::<S>(pre.objects, g, i as int, 0, ke, pe) == target,
            decreases n - i,
        {
            let mut j: usize = 0;
            while j < n
                invariant
                    i < n,
                    j <= n,
                    n == self.objects@.len(),
                    pre == sim_view(*self),
                    pre.objects.len() == n,
                    forall|k: int| 0 <= k < n ==> #[trigger] pre.objects[k] == part_view(
                        self.objects@[k],
                    ),
                    ops == self.ops,
                    energies_s::<S>(pre.objects, g, i as int, j as int, ke, pe) == target,
                decreases n - j,
            {
                if i != j {
                    let m1 = self.objects[i].mass(&ops);
                    let m2 = self.objects[j].mass(&ops);
                    let dx = ops.sub(self.objects[i].position.x, self.objects[j].position.x);
                    let dy = ops.sub(self.objects[i].position.y, self.objects[j].position.y);
                    let d = ops.sqrt(ops.add(ops.mul(dx, dx), ops.mul(dy, dy)));
                    let pe2 = ops.sub(pe, ops.div(ops.mul(ops.mul(g, m1), m2), d));
                    let wx = ops.sub(self.objects[i].velocity.x, self.objects[j].velocity.x);
                    let wy = ops.sub(self.objects[i].velocity.y, self.objects[j].velocity.y);
                    let ke2 = ops.add(ke, ops.mul(m1, ops.add(ops.mul(wx, wx), ops.mul(wy, wy))));
                    ke = ke2;
                    pe = pe2;
                }
                j = j + 1;
            }
            i = i + 1;
        }
        proof {
            assert(energies_s::<S>(pre.objects, g, n as int, 0, ke, pe) == (ke, pe));
            assert((ke, pe) == target);
        }
        let mut sample = PropMap::new();
        sample.insert("kinetic_energy".to_owned(), Property::Float(ke));
        sample.insert("potential_energy".to_owned(), Property::Float(pe));
        proof {
            reveal_strlit("kinetic_energy");
            reveal_strlit("potential_energy");
            assert(mview(sample) == sinsert(
                sinsert(Seq::empty(), "kinetic_energy"@, PV::F(ke)),
                "potential_energy"@,
                PV::F(pe),
            ));
        }
        let ghost sample_target = sample_parts_s(pre.objects, 0, mview(sample));
        proof {
            assert(sample_target == sample_s::<S>(pre));
        }
        let mut k: usize = 0;
        while k < n
            invariant
                k <= n,
                n == self.objects@.len(),
                pre == sim_view(*self),
                pre.objects.len() == n,
                names_ok(pre.objects),
                forall|q: int| 0 <= q < n ==> #[trigger] pre.objects[q] == part_view(
                    self.objects@[q],
                ),
                ops == self.ops,
                sample_parts_s(pre.objects, k as int, mview(sample)) == sample_target,
            decreases n - k,
        {
            let name = match self.objects[k].additional_properties.get(&("name".to_owned())) {
                Some(p) => match p.try_str() {
                    Some(s) => s.clone(),
                    None => {
                        proof {
                            lemma_pview_variant(*p);
                        }
                        usize_to_string(k)
                    },
                },
                None => usize_to_string(k),
            };
            let mut obj_props = PropMap::new();
            obj_props.insert("position".to_owned(), Property::Vector2(self.objects[k].position));
            proof {
                assert(mview(obj_props) =~= seq![
                    ("position"@, PV::V2(pre.objects[k as int].position)),
                ]);
            }
            obj_props.insert("velocity".to_owned(), Property::Vector2(self.objects[k].velocity));
            proof {
                reveal_strlit("position");
                reveal_strlit("velocity");
                assert("position"@[0] == 'p');
                assert("velocity"@[0] == 'v');
                assert("position"@ != "velocity"@);
                let sview = seq![("position"@, PV::V2(pre.objects[k as int].position))];
                assert(sview.drop_first() =~= Seq::<(Seq<char>, PV)>::empty());
                assert(pfind(sview.drop_first(), "velocity"@) == 0);
                assert(pfind(sview, "velocity"@) == 1);
                assert(mview(obj_props) =~= seq![
                    ("position"@, PV::V2(pre.objects[k as int].position)),
                    ("velocity"@, PV::V2(pre.objects[k as int].velocity)),
                ]);
            }
            sample.insert(name, Property::Nested(obj_props));
            k = k + 1;
        }
        proof {
            assert(mview(sample) == sample_target);
        }
        let t = self.simulation_time;
        match &mut self.stats {
            Some(ts) => {
                ts.record(t, sample);
            },
            None => {},
        }
    }

    /// One step of the simulation: when recording is on, one sample of
    /// the current state is appended first; then the interaction law is
    /// evaluated once per ordered pair of distinct particles and summed
    /// into each particle's accumulator, the solver advances every
    /// particle by its accumulated force, and the clock advances by the
    /// timestep.  The host must have checked readiness; nothing is
    /// observable except through the particles, the clock and the
    /// recorder.
    pub fn step(&mut self)
        requires
            ready(sim_view(*old(self))),
        ensures
            sim_view(*final(self)) == sim_step_s::<S>(sim_view(*old(self))),
            final(self).ops == old(self).ops,
    {
        let ghost pre = sim_view(*self);
        self.record_stats();
        let ops = self.ops;
        let n = self.objects.len();
        let zero = ops.from_uint(0);
        let ghost fspec = Seq::new(
            pre.objects.len(),
            |i: int| force_row_s::<S>(pre.objects, pre.config, pre.law, i, 0, vzero_s::<S>()),
        );
        let mut forces: Vec<Vec2> = Vec::new();
        let mut i: usize = 0;
        while i < n
            invariant
                i <= n,
                n == self.objects@.len(),
                pre.objects.len() == n,
                forall|k: int| 0 <= k < n ==> #[trigger] pre.objects[k] == part_view(
                    self.objects@[k],
                ),
                mview(self.sim_config) == pre.config,
                self.interaction_law == pre.law,
                pre.law is Gravity && n >= 2 ==> gconst_ok(pre.config),
                ops == self.ops,
                zero == S::from_uint_s(0),
                forces@.len() == i as int,
                fspec.len() == n,
                forall|k: int| 0 <= k < n ==> #[trigger] fspec[k] == force_row_s::<S>(
                    pre.objects,
                    pre.config,
                    pre.law,
                    k,
                    0,
                    vzero_s::<S>(),
                ),
                forall|k: int| 0 <= k < i ==> #[trigger] forces@[k] == fspec[k],
            decreases n - i,
        {
            let mut acc = Vec2 { x: zero, y: zero };
            let mut j: usize = 0;
            proof {
                assert(acc == vzero_s::<S>());
            }
            while j < n
                invariant
                    i < n,
                    j <= n,
                    n == self.objects@.len(),
                    pre.objects.len() == n,
                    forall|k: int| 0 <= k < n ==> #[trigger] pre.objects[k] == part_view(
                        self.objects@[k],
                    ),
                    mview(self.sim_config) == pre.config,
                    self.interaction_law == pre.law,
                    pre.law is Gravity && n >= 2 ==> gconst_ok(pre.config),
                    ops == self.ops,
                    force_row_s::<S>(pre.objects, pre.config, pre.law, i as int, j as int, acc)
                        == force_row_s::<S>(
                        pre.objects,
                        pre.config,
                        pre.law,
                        i as int,
                        0,
                        vzero_s::<S>(),
                    ),
                decreases n - j,
            {
                if i != j {
                    let f = evaluate_interaction(
                        &ops,
                        self.interaction_law,
                        &self.objects[i],
                        &self.objects[j],
                        &self.sim_config,
                    );
                    acc = Vec2 { x: ops.add(acc.x, f.x), y: ops.add(acc.y, f.y) };
                }
                j = j + 1;
            }
            forces.push(acc);
            i = i + 1;
        }
        let solver = self.solver;
        solver.step_simulation(&ops, &mut self.objects, &forces);
        let d = solver.delta();
        let t = ops.add(self.simulation_time, d);
        self.simulation_time = t;
        proof {
            assert(sim_view(*self).objects =~= sim_step_s::<S>(pre).objects);
            assert(sim_view(*self).stats =~~= sim_step_s::<S>(pre).stats);
            assert(sim_view(*self) =~~= sim_step_s::<S>(pre));
        }
    }
}

/// The document that encodes a recorded series: an array of objects,
/// each holding the sample's time and its data map.
pub open spec fn print_samples(samples: Seq<(SimScalar, Seq<(Seq<char>, PV)>)>) -> RV {
    RV::Arr(
        Seq::new(
            samples.len(),
            |i: int| RV::Obj(
                seq![
                    ("time"@, RV::Num(samples[i].0)),
                    ("data"@, RV::Obj(print_entries(samples[i].1))),
                ],
            ),
        ),
    )
}

impl<S: ScalarOps> ParticleSimulator<S> {
    /// Encodes the recorded statistics as a structural document; an
    /// empty series, never a failure, when recording was never
    /// started.
    pub fn statistics_raw(&self) -> (r: RawValue)
        ensures
            rview(r) == print_samples(
                match sim_view(*self).stats {
                    Some(samples) => samples,
                    None => Seq::empty(),
                },
            ),
    {
        let ghost samples = match sim_view(*self).stats {
            Some(samples) => samples,
            None => Seq::<(SimScalar, Seq<(Seq<char>, PV)>)>::empty(),
        };
        let mut items: Vec<RawValue> = Vec::new();
        match &self.stats {
            None => {},
            Some(ts) => {
                let series = ts.samples();
                let mut i: usize = 0;
                while i < series.len()
                    invariant
                        i <= series.len(),
                        items@.len() == i as int,
                        series == &ts.series,
                        self.stats matches Some(ts2) && ts2 == ts,
                        samples == (match sim_view(*self).stats {
                            Some(sm) => sm,
                            None => Seq::<(SimScalar, Seq<(Seq<char>, PV)>)>::empty(),
                        }),
                        samples.len() == series@.len(),
                        forall|q: int| 0 <= q < series@.len() ==> #[trigger] samples[q] == (
                            series@[q].0,
                            mview(series@[q].1),
                        ),
                        forall|k: int| 0 <= k < i ==> #[trigger] rview(items@[k]) == RV::Obj(
                            seq![
                                ("time"@, RV::Num(samples[k].0)),
                                ("data"@, RV::Obj(print_entries(samples[k].1))),
                            ],
                        ),
                    decreases series@.len() - i,
                {
                    let data_entries = propmap_to_raw_entries(&series[i].1);
                    let entry = vec![
                        ("time".to_owned(), RawValue::Num(series[i].0)),
                        ("data".to_owned(), RawValue::Obj(data_entries)),
                    ];
                    proof {
                        lemma_raw_entries_view_all(entry@);
                        assert(raw_entries_view(entry@) =~= seq![
                            ("time"@, RV::Num(samples[i as int].0)),
                            ("data"@, RV::Obj(print_entries(samples[i as int].1))),
                        ]);
                    }
                    items.push(RawValue::Obj(entry));
                    i = i + 1;
                }
            },
        }
        let r = RawValue::Arr(items);
        proof {
            lemma_raw_items_view_all(items@);
            assert(raw_items_view(items@) =~= print_samples(samples)->Arr_0);
        }
        r
    }
}

/// Identical states stepped the same number of times stay identical:
/// one step is a function of the state alone, so a fixed initial
/// configuration determines the whole trajectory and its statistics.
pub open spec fn sim_steps_s<S: ScalarOps>(v: SimView, k: nat) -> SimView
    decreases k,
{
    if k == 0 {
        v
    } else {
        sim_steps_s::<S>(sim_step_s::<S>(v), (k - 1) as nat)
    }
}

/// Determinism: two simulators in equal states produce equal states,
/// trajectories and statistics after any number of steps.
pub proof fn lemma_step_deterministic<S: ScalarOps>(a: SimView, b: SimView, k: nat)
    requires
        a == b,
    ensures
        sim_steps_s::<S>(a, k) == sim_steps_s::<S>(b, k),
{
}

/// With no particles or one particle there are no ordered pairs, so
/// the accumulated force on every particle is the zero vector.
pub proof fn lemma_degenerate_zero_force<S: ScalarOps>(
    objs: Seq<PartView>,
    cfg: Seq<(Seq<char>, PV)>,
    law: InteractionLaw,
    i: int,
)
    requires
        objs.len() <= 1,
    ensures
        force_row_s::<S>(objs, cfg, law, i, 0, vzero_s::<S>()) == vzero_s::<S>(),
{
    if objs.len() == 1 && i == 0 {
        assert(force_row_s::<S>(objs, cfg, law, 0, 0, vzero_s::<S>()) == force_row_s::<S>(
            objs,
            cfg,
            law,
            0,
            1,
            vzero_s::<S>(),
        ));
    }
}

/// Stepping before recording was ever started leaves the recorder
/// absent.
pub proof fn lemma_recording_opt_in<S: ScalarOps>(v: SimView)
    requires
        v.stats is None,
    ensures
        sim_step_s::<S>(v).stats is None,
{
}

/// Recording never alters the numeric trajectory: two states that
/// differ only in their recorder step to the same particles and the
/// same clock.
pub proof fn lemma_recording_no_effect<S: ScalarOps>(a: SimView, b: SimView)
    requires
        a.objects == b.objects,
        a.config == b.config,
        a.law == b.law,
        a.timestep == b.timestep,
        a.time == b.time,
    ensures
        sim_step_s::<S>(a).objects == sim_step_s::<S>(b).objects,
        sim_step_s::<S>(a).time == sim_step_s::<S>(b).time,
{
    assert(sim_step_s::<S>(a).objects =~= sim_step_s::<S>(b).objects);
}

/// Stepping preserves readiness: a host that checks once after loading
/// may drive the simulation forever.  Stepping never touches a
/// particle's properties, the configuration, or the law.
pub proof fn lemma_ready_preserved<S: ScalarOps>(v: SimView)
    requires
        ready(v),
    ensures
        ready(sim_step_s::<S>(v)),
{
    let post = sim_step_s::<S>(v);
    assert(post.objects.len() == v.objects.len());
    assert(forall|i: int|
        0 <= i < v.objects.len() ==> #[trigger] post.objects[i].props == v.objects[i].props);
    assert forall|i: int|
        0 <= i < post.objects.len() implies match #[trigger] plookup(
        post.objects[i].props,
        "mass"@,
    ) {
        Some(pv) => pv is F,
        None => true,
    } by {
        assert(plookup(post.objects[i].props, "mass"@) == plookup(v.objects[i].props, "mass"@));
    }
    if post.stats is Some {
        assert forall|i: int|
            0 <= i < post.objects.len() implies match #[trigger] plookup(
            post.objects[i].props,
            "name"@,
        ) {
            Some(pv) => pv is S,
            None => true,
        } by {
            assert(plookup(post.objects[i].props, "name"@) == plookup(
                v.objects[i].props,
                "name"@,
            ));
        }
    }
}

/// A definition that loads yields exactly its own data: the particle's
/// position and velocity are the vectors stored under `position` and
/// `velocity`, and its properties are the definition with those two
/// entries taken out.  With the parse/print round trip this is the
/// save-then-load story: a saved configuration loads back into
/// particles equal to the source definitions.
pub proof fn lemma_extracted_particle(def: Seq<(Seq<char>, PV)>)
    requires
        extract_failure(def) is None,
    ensures
        ({
            let p = extract_part_v(def);
            let d1 = def.remove(pfind(def, "position"@));
            &&& plookup(def, "position"@) == Some(PV::V2(p.position))
            &&& plookup(d1, "velocity"@) == Some(PV::V2(p.velocity))
            &&& p.props == d1.remove(pfind(d1, "velocity"@))
        }),
{
    crate::property::lemma_pfind(def, "position"@);
    let d1 = def.remove(pfind(def, "position"@));
    crate::property::lemma_pfind(d1, "velocity"@);
}

/// The save-then-load story in one statement: a configuration's
/// printed document parses back to the same configuration, and when
/// every definition loads, the loaded particle holds exactly the
/// position and velocity its definition stored, with the remaining
/// entries as its properties.
pub proof fn lemma_save_load_round_trip<S: ScalarOps>(v: ConfigView, i: int)
    requires
        first_bad(v.objects) == v.objects.len(),
        0 <= i < v.objects.len(),
    ensures
        parse_config(print_config(v)) == Some(v),
        ({
            let p = load_view::<S>(v).objects[i];
            let def = v.objects[i];
            let d1 = def.remove(pfind(def, "position"@));
            &&& plookup(def, "position"@) == Some(PV::V2(p.position))
            &&& plookup(d1, "velocity"@) == Some(PV::V2(p.velocity))
            &&& p.props == d1.remove(pfind(d1, "velocity"@))
        }),
{
    lemma_config_round_trip(v);
    lemma_first_bad(v.objects);
    lemma_extracted_particle(v.objects[i]);
    assert(load_view::<S>(v).objects[i] == extract_part_v(v.objects[i]));
}

/// When nothing before `i` fails and `i` fails, `i` is the first
/// failing position.
proof fn lemma_fb_at(defs: Seq<Seq<(Seq<char>, PV)>>, i: int)
    requires
        0 <= i < defs.len(),
        forall|j: int| 0 <= j < i ==> extract_failure(#[trigger] defs[j]) is None,
        extract_failure(defs[i]) is Some,
    ensures
        first_bad(defs) == i,
    decreases defs,
{
    lemma_first_bad(defs);
    if first_bad(defs) < i {
        assert(extract_failure(defs[first_bad(defs)]) is Some);
    }
    if first_bad(defs) > i {
        assert(extract_failure(defs[i]) is None);
    }
}

} // verus!
