use vstd::prelude::*;

use crate::property::{entries_view, lemma_entries_view_all, mview, pview, PropMap, Property, SimError, Vec2, Vec3, Vec4, PV};
use crate::scalar::SimScalar;

verus! {

/// A structural document, as a host hands it to the engine after
/// decoding its outer text form: numbers (carried as scalar patterns),
/// strings, arrays, and objects of name/value pairs.
pub enum RawValue {
    Num(SimScalar),
    Str(String),
    Arr(Vec<RawValue>),
    Obj(Vec<(String, RawValue)>),
}

/// The mathematical value of a [`RawValue`].
pub enum RV {
    Num(SimScalar),
    Str(Seq<char>),
    Arr(Seq<RV>),
    Obj(Seq<(Seq<char>, RV)>),
}

/// The value of a raw document.
pub open spec fn rview(r: RawValue) -> RV
    decreases r,
{
    match r {
        RawValue::Num(b) => RV::Num(b),
        RawValue::Str(s) => RV::Str(s@),
        RawValue::Arr(items) => RV::Arr(raw_items_view(items@)),
        RawValue::Obj(entries) => RV::Obj(raw_entries_view(entries@)),
    }
}

/// The values of a sequence of raw documents.
pub open spec fn raw_items_view(s: Seq<RawValue>) -> Seq<RV>
    decreases s,
{
    if s.len() == 0 {
        Seq::empty()
    } else {
        seq![rview(s[0])] + raw_items_view(s.drop_first())
    }
}

/// The values of a sequence of named raw documents.
pub open spec fn raw_entries_view(s: Seq<(String, RawValue)>) -> Seq<(Seq<char>, RV)>
    decreases s,
{
    if s.len() == 0 {
        Seq::empty()
    } else {
        seq![(s[0].0@, rview(s[0].1))] + raw_entries_view(s.drop_first())
    }
}

/// The item view of a raw document sequence has the same length and is
/// the pointwise view of its items.
pub proof fn lemma_raw_items_view_all(s: Seq<RawValue>)
    ensures
        raw_items_view(s).len() == s.len(),
        forall|i: int| 0 <= i < s.len() ==> raw_items_view(s)[i] == rview(s[i]),
    decreases s,
{
    if s.len() > 0 {
        lemma_raw_items_view_all(s.drop_first());
        assert forall|i: int| 0 <= i < s.len() implies raw_items_view(s)[i] == rview(s[i]) by {
            if i > 0 {
                assert(s.drop_first()[i - 1] == s[i]);
            }
        }
    }
}

/// The entry view of a named raw document sequence has the same length
/// and is the pointwise view of its entries.
pub proof fn lemma_raw_entries_view_all(s: Seq<(String, RawValue)>)
    ensures
        raw_entries_view(s).len() == s.len(),
        forall|i: int|
            0 <= i < s.len() ==> raw_entries_view(s)[i] == (s[i].0@, rview(s[i].1)),
    decreases s,
{
    if s.len() > 0 {
        lemma_raw_entries_view_all(s.drop_first());
        assert forall|i: int| 0 <= i < s.len() implies raw_entries_view(s)[i] == (
            s[i].0@,
            rview(s[i].1),
        ) by {
            if i > 0 {
                assert(s.drop_first()[i - 1] == s[i]);
            }
        }
    }
}

/// The document that encodes a property value: a scalar as a bare
/// number, a vector as a fixed-length array of numbers, a string as
/// itself, and a nested map as an object.
pub open spec fn print_pv(v: PV) -> RV
    decreases v,
{
    match v {
        PV::F(b) => RV::Num(b),
        PV::V2(w) => RV::Arr(seq![RV::Num(w.x), RV::Num(w.y)]),
        PV::V3(w) => RV::Arr(seq![RV::Num(w.x), RV::Num(w.y), RV::Num(w.z)]),
        PV::V4(w) => RV::Arr(seq![RV::Num(w.x), RV::Num(w.y), RV::Num(w.z), RV::Num(w.w)]),
        PV::S(s) => RV::Str(s),
        PV::N(es) => RV::Obj(print_entries(es)),
    }
}

/// The documents that encode a sequence of named property values.
pub open spec fn print_entries(es: Seq<(Seq<char>, PV)>) -> Seq<(Seq<char>, RV)>
    decreases es,
{
    if es.len() == 0 {
        Seq::empty()
    } else {
        seq![(es[0].0, print_pv(es[0].1))] + print_entries(es.drop_first())
    }
}

/// The property value a document stands for, if any: a number is a
/// scalar, an array of two, three or four numbers is a vector of that
/// arity, a string is a string, and an object is a nested map.  Any
/// other array is not a property.
pub open spec fn parse_rv(r: RV) -> Option<PV>
    decreases r,
{
    match r {
        RV::Num(b) => Some(PV::F(b)),
        RV::Str(s) => Some(PV::S(s)),
        RV::Arr(items) => if items.len() == 2 && items[0] is Num && items[1] is Num {
            Some(PV::V2(Vec2 { x: items[0]->Num_0, y: items[1]->Num_0 }))
        } else if items.len() == 3 && items[0] is Num && items[1] is Num && items[2] is Num {
            Some(PV::V3(Vec3 { x: items[0]->Num_0, y: items[1]->Num_0, z: items[2]->Num_0 }))
        } else if items.len() == 4 && items[0] is Num && items[1] is Num && items[2] is Num
            && items[3] is Num {
            Some(
                PV::V4(
                    Vec4 {
                        x: items[0]->Num_0,
                        y: items[1]->Num_0,
                        z: items[2]->Num_0,
                        w: items[3]->Num_0,
                    },
                ),
            )
        } else {
            None
        },
        RV::Obj(es) => match parse_entries(es) {
            Some(out) => Some(PV::N(out)),
            None => None,
        },
    }
}

/// The named property values a sequence of named documents stands for;
/// absent as soon as one value is not a property.
pub open spec fn parse_entries(es: Seq<(Seq<char>, RV)>) -> Option<Seq<(Seq<char>, PV)>>
    decreases es,
{
    if es.len() == 0 {
        Some(Seq::empty())
    } else {
        match parse_rv(es[0].1) {
            Some(v) => match parse_entries(es.drop_first()) {
                Some(rest) => Some(seq![(es[0].0, v)] + rest),
                None => None,
            },
            None => None,
        }
    }
}

/// The printed entries have the same names and the pointwise printed
/// values.
pub proof fn lemma_print_entries_all(es: Seq<(Seq<char>, PV)>)
    ensures
        print_entries(es).len() == es.len(),
        forall|i: int|
            0 <= i < es.len() ==> print_entries(es)[i] == (es[i].0, print_pv(es[i].1)),
    decreases es,
{
    if es.len() > 0 {
        lemma_print_entries_all(es.drop_first());
        assert forall|i: int| 0 <= i < es.len() implies print_entries(es)[i] == (
            es[i].0,
            print_pv(es[i].1),
        ) by {
            if i > 0 {
                assert(es.drop_first()[i - 1] == es[i]);
            }
        }
    }
}

/// Named documents parse together exactly when each value parses, and
/// then the result is pointwise.
pub proof fn lemma_parse_entries_all(es: Seq<(Seq<char>, RV)>)
    ensures
        (forall|i: int| 0 <= i < es.len() ==> #[trigger] parse_rv(es[i].1) is Some)
            <==> parse_entries(es) is Some,
        parse_entries(es) matches Some(out) ==> out.len() == es.len() && forall|i: int|
            0 <= i < es.len() ==> out[i].0 == es[i].0 && #[trigger] parse_rv(es[i].1)
                == Some(out[i].1),
    decreases es,
{
    if es.len() > 0 {
        lemma_parse_entries_all(es.drop_first());
        let df = es.drop_first();
        if forall|i: int| 0 <= i < es.len() ==> #[trigger] parse_rv(es[i].1) is Some {
            assert forall|j: int| 0 <= j < df.len() implies #[trigger] parse_rv(df[j].1)
                is Some by {
                assert(df[j] == es[j + 1]);
                assert(parse_rv(es[j + 1].1) is Some);
            }
            assert(parse_entries(df) is Some);
            assert(parse_rv(es[0].1) is Some);
            assert(parse_entries(es) is Some);
        }
        if parse_entries(es) is Some {
            assert(parse_rv(es[0].1) is Some);
            assert(parse_entries(df) is Some);
            assert forall|i: int| 0 <= i < es.len() implies #[trigger] parse_rv(es[i].1)
                is Some by {
                if i > 0 {
                    assert(df[i - 1] == es[i]);
                    assert(parse_rv(df[i - 1].1) is Some);
                }
            }
            let out = parse_entries(es)->Some_0;
            let rest = parse_entries(df)->Some_0;
            assert forall|i: int| 0 <= i < es.len() implies out[i].0 == es[i].0
                && #[trigger] parse_rv(es[i].1) == Some(out[i].1) by {
                if i > 0 {
                    assert(out[i] == rest[i - 1]);
                    assert(df[i - 1] == es[i]);
                }
            }
        }
    }
}

/// Parsing recovers exactly the value that printing encoded.
pub proof fn lemma_parse_print(v: PV)
    ensures
        parse_rv(print_pv(v)) == Some(v),
    decreases v,
{
    match v {
        PV::N(es) => {
            lemma_parse_print_entries(es);
        },
        _ => {},
    }
}

/// Parsing recovers exactly the named values that printing encoded.
pub proof fn lemma_parse_print_entries(es: Seq<(Seq<char>, PV)>)
    ensures
        parse_entries(print_entries(es)) == Some(es),
    decreases es,
{
    if es.len() == 0 {
        assert(parse_entries(print_entries(es)) == Some(es));
    } else {
        lemma_parse_print(es[0].1);
        lemma_parse_print_entries(es.drop_first());
        let pes = print_entries(es);
        assert(pes[0] == (es[0].0, print_pv(es[0].1)));
        assert(pes.drop_first() =~= print_entries(es.drop_first()));
        assert(seq![(es[0].0, es[0].1)] + es.drop_first() =~= es);
    }
}

/// The scalar a number document carries, or absence for any other
/// document.
fn num_of(r: &RawValue) -> (o: Option<SimScalar>)
    ensures
        match o {
            Some(b) => rview(*r) == RV::Num(b),
            None => !(rview(*r) is Num),
        },
{
    match r {
        RawValue::Num(b) => Some(*b),
        RawValue::Str(_) => None,
        RawValue::Arr(_) => None,
        RawValue::Obj(_) => None,
    }
}

/// Encodes a property as a structural document.
pub fn property_to_raw(p: &Property) -> (r: RawValue)
    ensures
        rview(r) == print_pv(pview(*p)),
    decreases *p,
{
    match p {
        Property::Float(b) => RawValue::Num(*b),
        Property::Vector2(v) => {
            let items = vec![RawValue::Num(v.x), RawValue::Num(v.y)];
            proof {
                lemma_raw_items_view_all(items@);
                assert(raw_items_view(items@) =~= seq![RV::Num(v.x), RV::Num(v.y)]);
            }
            RawValue::Arr(items)
        },
        Property::Vector3(v) => {
            let items = vec![RawValue::Num(v.x), RawValue::Num(v.y), RawValue::Num(v.z)];
            proof {
                lemma_raw_items_view_all(items@);
                assert(raw_items_view(items@) =~= seq![RV::Num(v.x), RV::Num(v.y), RV::Num(v.z)]);
            }
            RawValue::Arr(items)
        },
        Property::Vector4(v) => {
            let items = vec![
                RawValue::Num(v.x),
                RawValue::Num(v.y),
                RawValue::Num(v.z),
                RawValue::Num(v.w),
            ];
            proof {
                lemma_raw_items_view_all(items@);
                assert(raw_items_view(items@) =~= seq![
                    RV::Num(v.x),
                    RV::Num(v.y),
                    RV::Num(v.z),
                    RV::Num(v.w),
                ]);
            }
            RawValue::Arr(items)
        },
        Property::String(s) => RawValue::Str(s.clone()),
        Property::Nested(m) => RawValue::Obj(propmap_to_raw_entries(m)),
    }
}

/// Encodes the entries of a property map as object entries.
pub fn propmap_to_raw_entries(m: &PropMap) -> (out: Vec<(String, RawValue)>)
    ensures
        raw_entries_view(out@) == print_entries(mview(*m)),
    decreases *m,
{
    let mut out: Vec<(String, RawValue)> = Vec::new();
    let mut i: usize = 0;
    while i < m.entries.len()
        invariant
            i <= m.entries.len(),
            out@.len() == i as int,
            forall|k: int|
                0 <= k < i ==> out@[k].0@ == #[trigger] m.entries@[k].0@ && rview(out@[k].1)
                    == print_pv(pview(m.entries@[k].1)),
        decreases m.entries.len() - i,
    {
        let key = m.entries[i].0.clone();
        let val = property_to_raw(&m.entries[i].1);
        out.push((key, val));
        i = i + 1;
    }
    proof {
        lemma_raw_entries_view_all(out@);
        lemma_entries_view_all(m.entries@);
        lemma_print_entries_all(mview(*m));
        assert(raw_entries_view(out@) =~= print_entries(mview(*m)));
    }
    out
}

/// Decodes a structural document into a property, failing on any array
/// that is not two, three or four numbers.
pub fn raw_to_property(r: &RawValue) -> (res: Result<Property, SimError>)
    ensures
        match parse_rv(rview(*r)) {
            Some(v) => res matches Ok(p) && pview(p) == v,
            None => res matches Err(e) && e is Deserialization,
        },
    decreases *r,
{
    match r {
        RawValue::Num(b) => Ok(Property::Float(*b)),
        RawValue::Str(s) => Ok(Property::String(s.clone())),
        RawValue::Arr(items) => {
            proof {
                lemma_raw_items_view_all(items@);
            }
            if items.len() == 2 {
                match (num_of(&items[0]), num_of(&items[1])) {
                    (Some(x), Some(y)) => Ok(Property::Vector2(Vec2 { x, y })),
                    _ => Err(SimError::Deserialization),
                }
            } else if items.len() == 3 {
                match (num_of(&items[0]), num_of(&items[1]), num_of(&items[2])) {
                    (Some(x), Some(y), Some(z)) => Ok(Property::Vector3(Vec3 { x, y, z })),
                    _ => Err(SimError::Deserialization),
                }
            } else if items.len() == 4 {
                match (num_of(&items[0]), num_of(&items[1]), num_of(&items[2]), num_of(
                    &items[3],
                )) {
                    (Some(x), Some(y), Some(z), Some(w)) => Ok(
                        Property::Vector4(Vec4 { x, y, z, w }),
                    ),
                    _ => Err(SimError::Deserialization),
                }
            } else {
                Err(SimError::Deserialization)
            }
        },
        RawValue::Obj(entries) => {
            proof {
                assert(decreases_to!(*r => *entries));
            }
            match obj_to_propmap(entries) {
                Ok(m) => Ok(Property::Nested(m)),
                Err(e) => Err(e),
            }
        },
    }
}

/// Decodes an object's entries into a property map, failing when one of
/// the values is not a property.
pub fn obj_to_propmap(entries: &Vec<(String, RawValue)>) -> (res: Result<PropMap, SimError>)
    ensures
        match parse_entries(raw_entries_view(entries@)) {
            Some(out) => res matches Ok(m) && mview(m) == out,
            None => res matches Err(e) && e is Deserialization,
        },
    decreases entries@,
{
    proof {
        lemma_raw_entries_view_all(entries@);
    }
    let ghost ev = raw_entries_view(entries@);
    let mut out: Vec<(String, Property)> = Vec::new();
    let mut i: usize = 0;
    while i < entries.len()
        invariant
            i <= entries.len(),
            out@.len() == i as int,
            ev == raw_entries_view(entries@),
            ev.len() == entries@.len(),
            forall|j: int| 0 <= j < ev.len() ==> #[trigger] ev[j] == (
                entries@[j].0@,
                rview(entries@[j].1),
            ),
            forall|k: int|
                0 <= k < i ==> out@[k].0@ == ev[k].0 && #[trigger] parse_rv(ev[k].1) == Some(
                    pview(out@[k].1),
                ),
        decreases entries.len() - i,
    {
        proof {
            assert(decreases_to!(entries@ => entries@[i as int].1));
        }
        let val = match raw_to_property(&entries[i].1) {
            Ok(p) => p,
            Err(e) => {
                proof {
                    lemma_parse_entries_all(ev);
                    assert(parse_rv(ev[i as int].1) is None);
                    assert(parse_entries(ev) is None);
                }
                return Err(e);
            },
        };
        out.push((entries[i].0.clone(), val));
        i = i + 1;
    }
    proof {
        lemma_parse_entries_all(ev);
        assert(forall|j: int| 0 <= j < ev.len() ==> #[trigger] parse_rv(ev[j].1) is Some);
        assert(parse_entries(ev) is Some);
        let target = parse_entries(ev)->Some_0;
        lemma_entries_view_all(out@);
        assert forall|j: int| 0 <= j < ev.len() implies entries_view(out@)[j] == target[j] by {
            assert(parse_rv(ev[j].1) == Some(pview(out@[j].1)));
            assert(parse_rv(ev[j].1) == Some(target[j].1));
            assert(out@[j].0@ == ev[j].0);
            assert(target[j].0 == ev[j].0);
        }
        assert(entries_view(out@) =~= target);
    }
    Ok(PropMap { entries: out })
}

/// A document's value has the same variant as the document itself.
pub proof fn lemma_rview_variant(r: RawValue)
    ensures
        rview(r) is Num <==> r is Num,
        rview(r) is Str <==> r is Str,
        rview(r) is Arr <==> r is Arr,
        rview(r) is Obj <==> r is Obj,
{
    match r {
        RawValue::Num(b) => {
            assert(rview(r) == RV::Num(b));
        },
        RawValue::Str(s) => {
            assert(rview(r) == RV::Str(s@));
        },
        RawValue::Arr(items) => {
            assert(rview(r) == RV::Arr(raw_items_view(items@)));
        },
        RawValue::Obj(entries) => {
            assert(rview(r) == RV::Obj(raw_entries_view(entries@)));
        },
    }
}

} // verus!
