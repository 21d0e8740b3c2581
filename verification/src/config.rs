use vstd::prelude::*;

use crate::property::{mview, PropMap, SimError, PV};
use crate::raw::{
    lemma_parse_print_entries, lemma_raw_entries_view_all, lemma_raw_items_view_all,
    lemma_rview_variant, obj_to_propmap, parse_entries, print_entries, propmap_to_raw_entries,
    raw_entries_view, raw_items_view, rview, RawValue, RV,
};
use crate::scalar::{ScalarOps, SimScalar};

verus! {

/// The solver's configuration: the fixed timestep of the simulation.
#[derive(Clone, Copy, PartialEq, Eq, Structural, Debug)]
pub struct EulerMethodSolverConfig {
    pub timestep: SimScalar,
}

/// The persisted state of a simulation: global configuration, solver
/// configuration, and the definitions of the initial particles.
pub struct Configuration {
    pub simulation_config: PropMap,
    pub solver_config: EulerMethodSolverConfig,
    pub initial_objects: Vec<PropMap>,
}

/// The mathematical value of a [`Configuration`].
#[verifier::ext_equal]
pub struct ConfigView {
    pub sim: Seq<(Seq<char>, PV)>,
    pub timestep: SimScalar,
    pub objects: Seq<Seq<(Seq<char>, PV)>>,
}

/// The value of a configuration.
pub open spec fn config_view(c: Configuration) -> ConfigView {
    ConfigView {
        sim: mview(c.simulation_config),
        timestep: c.solver_config.timestep,
        objects: Seq::new(c.initial_objects@.len(), |i: int| mview(c.initial_objects@[i])),
    }
}

/// The document that encodes a configuration.
pub open spec fn print_config(v: ConfigView) -> RV {
    RV::Obj(
        seq![
            ("simulation_config"@, RV::Obj(print_entries(v.sim))),
            ("solver_config"@, RV::Obj(seq![("timestep"@, RV::Num(v.timestep))])),
            (
                "initial_objects"@,
                RV::Arr(Seq::new(v.objects.len(), |i: int| RV::Obj(print_entries(v.objects[i])))),
            ),
        ],
    )
}

/// The position of the first document entry named `k`, or the length of
/// `s` when no entry matches.
pub open spec fn rfind(s: Seq<(Seq<char>, RV)>, k: Seq<char>) -> int
    decreases s,
{
    if s.len() == 0 {
        0
    } else if s[0].0 == k {
        0
    } else {
        1 + rfind(s.drop_first(), k)
    }
}

/// The first document entry named `k`, if any.
pub open spec fn rlookup(s: Seq<(Seq<char>, RV)>, k: Seq<char>) -> Option<RV> {
    if rfind(s, k) < s.len() {
        Some(s[rfind(s, k)].1)
    } else {
        None
    }
}

/// The first matching position is within bounds, matches if within the
/// sequence, and nothing before it matches.
pub proof fn lemma_rfind(s: Seq<(Seq<char>, RV)>, k: Seq<char>)
    ensures
        0 <= rfind(s, k) <= s.len(),
        rfind(s, k) < s.len() ==> s[rfind(s, k)].0 == k,
        forall|j: int| 0 <= j < rfind(s, k) ==> s[j].0 != k,
    decreases s,
{
    if s.len() > 0 && s[0].0 != k {
        lemma_rfind(s.drop_first(), k);
        assert forall|j: int| 0 <= j < rfind(s, k) implies s[j].0 != k by {
            if j > 0 {
                assert(s.drop_first()[j - 1] == s[j]);
            }
        }
        if rfind(s, k) < s.len() {
            assert(s.drop_first()[rfind(s, k) - 1] == s[rfind(s, k)]);
        }
    }
}

/// The timestep a solver-configuration object carries, if any.
pub open spec fn parse_timestep(sos: Seq<(Seq<char>, RV)>) -> Option<SimScalar> {
    match rlookup(sos, "timestep"@) {
        Some(RV::Num(b)) => Some(b),
        _ => None,
    }
}

/// The particle definitions an array of documents carries; absent as
/// soon as one item is not an object of properties.
pub open spec fn parse_objects(items: Seq<RV>) -> Option<Seq<Seq<(Seq<char>, PV)>>>
    decreases items,
{
    if items.len() == 0 {
        Some(Seq::empty())
    } else {
        match items[0] {
            RV::Obj(es) => match parse_entries(es) {
                Some(m) => match parse_objects(items.drop_first()) {
                    Some(rest) => Some(seq![m] + rest),
                    None => None,
                },
                None => None,
            },
            _ => None,
        }
    }
}

/// The configuration a document stands for, if any: an object holding a
/// `simulation_config` object, a `solver_config` object with a numeric
/// `timestep`, and an `initial_objects` array of property objects.
pub open spec fn parse_config(r: RV) -> Option<ConfigView> {
    match r {
        RV::Obj(es) => match (
            rlookup(es, "simulation_config"@),
            rlookup(es, "solver_config"@),
            rlookup(es, "initial_objects"@),
        ) {
            (Some(RV::Obj(ses)), Some(RV::Obj(sos)), Some(RV::Arr(items))) => match (
                parse_entries(ses),
                parse_timestep(sos),
                parse_objects(items),
            ) {
                (Some(sim), Some(ts), Some(objs)) => Some(
                    ConfigView { sim, timestep: ts, objects: objs },
                ),
                _ => None,
            },
            _ => None,
        },
        _ => None,
    }
}

/// Parsing an array of printed particle definitions recovers exactly
/// the definitions.
pub proof fn lemma_parse_print_objects(objs: Seq<Seq<(Seq<char>, PV)>>)
    ensures
        parse_objects(Seq::new(objs.len(), |i: int| RV::Obj(print_entries(objs[i])))) == Some(
            objs,
        ),
    decreases objs.len(),
{
    let printed = Seq::new(objs.len(), |i: int| RV::Obj(print_entries(objs[i])));
    if objs.len() > 0 {
        lemma_parse_print_entries(objs[0]);
        lemma_parse_print_objects(objs.drop_first());
        let rest_printed = Seq::new(
            objs.drop_first().len(),
            |i: int| RV::Obj(print_entries(objs.drop_first()[i])),
        );
        assert(printed.drop_first() =~= rest_printed);
        assert(seq![objs[0]] + objs.drop_first() =~= objs);
    } else {
        assert(printed.len() == 0);
    }
}

/// Parsing recovers exactly the configuration that printing encoded.
pub proof fn lemma_config_round_trip(v: ConfigView)
    ensures
        parse_config(print_config(v)) == Some(v),
{
    reveal_strlit("simulation_config");
    reveal_strlit("solver_config");
    reveal_strlit("initial_objects");
    reveal_strlit("timestep");
    let es = print_config(v)->Obj_0;
    let d1 = es.drop_first();
    let d2 = d1.drop_first();
    assert(d1[0] == es[1]);
    assert(d1[1] == es[2]);
    assert(d2[0] == es[2]);
    assert(es[0].0 == "simulation_config"@);
    assert(rlookup(es, "simulation_config"@) == Some(es[0].1));
    assert("simulation_config"@.len() == 17);
    assert("solver_config"@.len() == 13);
    assert("initial_objects"@.len() == 15);
    assert(rfind(es, "solver_config"@) == 1 + rfind(d1, "solver_config"@));
    assert(rfind(d1, "solver_config"@) == 0);
    assert(rlookup(es, "solver_config"@) == Some(es[1].1));
    assert(rfind(es, "initial_objects"@) == 1 + rfind(d1, "initial_objects"@));
    assert(rfind(d1, "initial_objects"@) == 1 + rfind(d2, "initial_objects"@));
    assert(rfind(d2, "initial_objects"@) == 0);
    assert(rlookup(es, "initial_objects"@) == Some(es[2].1));
    let sos = seq![("timestep"@, RV::Num(v.timestep))];
    assert(rlookup(sos, "timestep"@) == Some(RV::Num(v.timestep)));
    lemma_parse_print_entries(v.sim);
    lemma_parse_print_objects(v.objects);
    assert(parse_config(print_config(v)) == Some(
        ConfigView { sim: v.sim, timestep: v.timestep, objects: v.objects },
    ));
    assert(ConfigView { sim: v.sim, timestep: v.timestep, objects: v.objects } =~= v);
}

impl Configuration {
    /// A configuration with no global settings, the default timestep of
    /// one fiftieth, and no initial particles.
    pub fn default_with<S: ScalarOps>(ops: &S) -> (r: Configuration)
        ensures
            config_view(r).sim =~= Seq::<(Seq<char>, PV)>::empty(),
            config_view(r).timestep == S::div_s(S::from_uint_s(1), S::from_uint_s(50)),
            config_view(r).objects =~= Seq::<Seq<(Seq<char>, PV)>>::empty(),
    {
        let one = ops.from_uint(1);
        let fifty = ops.from_uint(50);
        Configuration {
            simulation_config: PropMap::new(),
            solver_config: EulerMethodSolverConfig { timestep: ops.div(one, fifty) },
            initial_objects: Vec::new(),
        }
    }

    /// Encodes this configuration as a structural document.
    pub fn to_raw(&self) -> (r: RawValue)
        ensures
            rview(r) == print_config(config_view(*self)),
    {
        let sim_entries = propmap_to_raw_entries(&self.simulation_config);
        let sol_entries = vec![("timestep".to_owned(), RawValue::Num(self.solver_config.timestep))];
        let mut objs: Vec<RawValue> = Vec::new();
        let mut i: usize = 0;
        while i < self.initial_objects.len()
            invariant
                i <= self.initial_objects.len(),
                objs@.len() == i as int,
                forall|k: int|
                    0 <= k < i ==> rview(objs@[k]) == RV::Obj(
                        print_entries(mview(#[trigger] self.initial_objects@[k])),
                    ),
            decreases self.initial_objects.len() - i,
        {
            objs.push(RawValue::Obj(propmap_to_raw_entries(&self.initial_objects[i])));
            i = i + 1;
        }
        let top = vec![
            ("simulation_config".to_owned(), RawValue::Obj(sim_entries)),
            ("solver_config".to_owned(), RawValue::Obj(sol_entries)),
            ("initial_objects".to_owned(), RawValue::Arr(objs)),
        ];
        let r = RawValue::Obj(top);
        proof {
            lemma_raw_entries_view_all(sol_entries@);
            assert(raw_entries_view(sol_entries@) =~= seq![
                ("timestep"@, RV::Num(self.solver_config.timestep)),
            ]);
            lemma_raw_items_view_all(objs@);
            assert(raw_items_view(objs@) =~= Seq::new(
                config_view(*self).objects.len(),
                |i: int| RV::Obj(print_entries(config_view(*self).objects[i])),
            ));
            lemma_raw_entries_view_all(top@);
            assert(raw_entries_view(top@) =~= print_config(config_view(*self))->Obj_0);
        }
        r
    }

    /// Decodes a structural document into a configuration, failing when
    /// the document does not have the configuration shape.
    pub fn from_raw(r: &RawValue) -> (res: Result<Configuration, SimError>)
        ensures
            match parse_config(rview(*r)) {
                Some(v) => res matches Ok(c) && config_view(c) == v,
                None => res matches Err(e) && e is Deserialization,
            },
    {
        let entries = match r {
            RawValue::Obj(entries) => entries,
            _ => {
                return Err(SimError::Deserialization);
            },
        };
        let sim_raw = obj_get(entries, &("simulation_config".to_owned()));
        let sol_raw = obj_get(entries, &("solver_config".to_owned()));
        let objs_raw = obj_get(entries, &("initial_objects".to_owned()));
        let sim_entries = match sim_raw {
            Some(RawValue::Obj(es)) => es,
            Some(v) => {
                proof {
                    lemma_rview_variant(*v);
                }
                return Err(SimError::Deserialization);
            },
            None => {
                return Err(SimError::Deserialization);
            },
        };
        let sol_entries = match sol_raw {
            Some(RawValue::Obj(es)) => es,
            Some(v) => {
                proof {
                    lemma_rview_variant(*v);
                }
                return Err(SimError::Deserialization);
            },
            None => {
                return Err(SimError::Deserialization);
            },
        };
        let obj_items = match objs_raw {
            Some(RawValue::Arr(items)) => items,
            Some(v) => {
                proof {
                    lemma_rview_variant(*v);
                }
                return Err(SimError::Deserialization);
            },
            None => {
                return Err(SimError::Deserialization);
            },
        };
        let simulation_config = match obj_to_propmap(sim_entries) {
            Ok(m) => m,
            Err(_) => {
                return Err(SimError::Deserialization);
            },
        };
        let timestep = match obj_get(sol_entries, &("timestep".to_owned())) {
            Some(RawValue::Num(b)) => *b,
            Some(v) => {
                proof {
                    lemma_rview_variant(*v);
                }
                return Err(SimError::Deserialization);
            },
            None => {
                return Err(SimError::Deserialization);
            },
        };
        let mut initial_objects: Vec<PropMap> = Vec::new();
        let ghost items_vw = raw_items_view(obj_items@);
        proof {
            lemma_raw_items_view_all(obj_items@);
            assert(rview(*r) == RV::Obj(raw_entries_view(entries@)));
            assert(parse_config(rview(*r)) == (match parse_objects(items_vw) {
                Some(objs) => Some(
                    ConfigView { sim: mview(simulation_config), timestep: timestep, objects: objs },
                ),
                None => None::<ConfigView>,
            }));
        }
        let mut i: usize = 0;
        while i < obj_items.len()
            invariant
                i <= obj_items.len(),
                initial_objects@.len() == i as int,
                items_vw == raw_items_view(obj_items@),
                items_vw.len() == obj_items@.len(),
                parse_config(rview(*r)) == (match parse_objects(items_vw) {
                    Some(objs) => Some(
                        ConfigView {
                            sim: mview(simulation_config),
                            timestep: timestep,
                            objects: objs,
                        },
                    ),
                    None => None::<ConfigView>,
                }),
                forall|j: int|
                    0 <= j < items_vw.len() ==> #[trigger] items_vw[j] == rview(obj_items@[j]),
                forall|k: int|
                    0 <= k < i ==> (#[trigger] items_vw[k] matches RV::Obj(es) && parse_entries(
                        es,
                    ) == Some(mview(initial_objects@[k]))),
            decreases obj_items.len() - i,
        {
            let m = match &obj_items[i] {
                RawValue::Obj(es) => {
                    proof {
                        lemma_raw_entries_view_all(es@);
                    }
                    match obj_to_propmap(es) {
                        Ok(m) => m,
                        Err(_) => {
                            proof {
                                lemma_parse_objects_prefix(items_vw, i as int);
                            }
                            return Err(SimError::Deserialization);
                        },
                    }
                },
                other => {
                    proof {
                        lemma_rview_variant(*other);
                        lemma_parse_objects_prefix(items_vw, i as int);
                    }
                    return Err(SimError::Deserialization);
                },
            };
            initial_objects.push(m);
            i = i + 1;
        }
        let c = Configuration {
            simulation_config,
            solver_config: EulerMethodSolverConfig { timestep },
            initial_objects,
        };
        proof {
            lemma_parse_objects_all(items_vw);
            assert(parse_objects(items_vw) is Some);
            assert(config_view(c).objects =~= parse_objects(items_vw)->Some_0);
            assert(config_view(c) =~= parse_config(rview(*r))->Some_0);
        }
        Ok(c)
    }
}

/// When every item up to a failing one is an object of properties and
/// the item at `i` is not, the array carries no particle definitions.
proof fn lemma_parse_objects_prefix(items: Seq<RV>, i: int)
    requires
        0 <= i < items.len(),
        !(items[i] matches RV::Obj(es) && parse_entries(es) is Some),
    ensures
        parse_objects(items) is None,
    decreases items,
{
    if i == 0 {
    } else {
        assert(items.drop_first()[i - 1] == items[i]);
        lemma_parse_objects_prefix(items.drop_first(), i - 1);
    }
}

/// An array parses to particle definitions exactly when each item is an
/// object of properties, and then the result is pointwise.
proof fn lemma_parse_objects_all(items: Seq<RV>)
    ensures
        (forall|i: int|
            0 <= i < items.len() ==> (#[trigger] items[i] matches RV::Obj(es) && parse_entries(es)
                is Some)) ==> (parse_objects(items) matches Some(out) && out.len() == items.len()
            && forall|i: int|
            0 <= i < items.len() ==> (items[i] matches RV::Obj(es) && parse_entries(es) == Some(
                #[trigger] out[i],
            ))),
    decreases items,
{
    if items.len() > 0 {
        lemma_parse_objects_all(items.drop_first());
        if forall|i: int|
            0 <= i < items.len() ==> (#[trigger] items[i] matches RV::Obj(es) && parse_entries(es)
                is Some) {
            assert forall|j: int|
                0 <= j < items.drop_first().len() implies #[trigger] items.drop_first()[j] matches
                RV::Obj(es) && parse_entries(es) is Some by {
                assert(items.drop_first()[j] == items[j + 1]);
                assert(items[j + 1] matches RV::Obj(es) && parse_entries(es) is Some);
            }
            let rest = parse_objects(items.drop_first())->Some_0;
            let out = parse_objects(items)->Some_0;
            assert forall|i: int|
                0 <= i < items.len() implies items[i] matches RV::Obj(es) && parse_entries(es)
                == Some(#[trigger] out[i]) by {
                if i > 0 {
                    assert(items.drop_first()[i - 1] == items[i]);
                    assert(out[i] == rest[i - 1]);
                }
            }
        }
    }
}

/// The first document with the given name among an object's entries, if
/// any.
pub fn obj_get<'a>(entries: &'a Vec<(String, RawValue)>, name: &String) -> (r: Option<
    &'a RawValue,
>)
    ensures
        match r {
            Some(v) => rlookup(raw_entries_view(entries@), name@) == Some(rview(*v)),
            None => rlookup(raw_entries_view(entries@), name@) is None,
        },
{
    proof {
        lemma_raw_entries_view_all(entries@);
        lemma_rfind(raw_entries_view(entries@), name@);
    }
    let ghost vw = raw_entries_view(entries@);
    let mut i: usize = 0;
    while i < entries.len()
        invariant
            i <= entries.len(),
            vw == raw_entries_view(entries@),
            vw.len() == entries@.len(),
            forall|j: int| 0 <= j < vw.len() ==> #[trigger] vw[j] == (
                entries@[j].0@,
                rview(entries@[j].1),
            ),
            0 <= rfind(vw, name@) <= vw.len(),
            rfind(vw, name@) < vw.len() ==> vw[rfind(vw, name@)].0 == name@,
            forall|j: int| 0 <= j < rfind(vw, name@) ==> #[trigger] vw[j].0 != name@,
            forall|j: int| 0 <= j < i ==> #[trigger] vw[j].0 != name@,
        decreases entries.len() - i,
    {
        if entries[i].0.eq(name) {
            proof {
                assert(vw[i as int].0 == name@);
                assert(!(rfind(vw, name@) < i as int));
                assert(!((i as int) < rfind(vw, name@)));
                assert(rfind(vw, name@) == i as int);
            }
            return Some(&entries[i].1);
        }
        i = i + 1;
    }
    None
}

} // verus!
