use vstd::prelude::*;

use crate::scalar::SimScalar;

verus! {

/// A two-component vector of simulation scalars.
#[derive(Clone, Copy, PartialEq, Eq, Structural, Debug)]
pub struct Vec2 {
    pub x: SimScalar,
    pub y: SimScalar,
}

/// A three-component vector of simulation scalars.
#[derive(Clone, Copy, PartialEq, Eq, Structural, Debug)]
pub struct Vec3 {
    pub x: SimScalar,
    pub y: SimScalar,
    pub z: SimScalar,
}

/// A four-component vector of simulation scalars.
#[derive(Clone, Copy, PartialEq, Eq, Structural, Debug)]
pub struct Vec4 {
    pub x: SimScalar,
    pub y: SimScalar,
    pub z: SimScalar,
    pub w: SimScalar,
}

/// The variants a [`Property`] can take, used to report which variant an
/// accessor asked for.
#[derive(Clone, Copy, PartialEq, Eq, Structural, Debug)]
pub enum PropertyKind {
    Float,
    Vector2,
    Vector3,
    Vector4,
    String,
    Nested,
}

/// A tagged value for heterogeneous configuration and per-particle
/// metadata: a scalar, a fixed-arity vector, a string, or a nested
/// mapping of names to further properties.  No coercion is ever
/// performed between variants.
pub enum Property {
    Float(SimScalar),
    Vector2(Vec2),
    Vector3(Vec3),
    Vector4(Vec4),
    String(String),
    Nested(PropMap),
}

/// An ordered mapping from names to properties.  Lookups find the first
/// entry whose name matches; insertion replaces the first matching entry
/// or appends a new one.
pub struct PropMap {
    pub entries: Vec<(String, Property)>,
}

/// The errors of the engine: an accessor asked for one variant while
/// another was stored, a required name was absent, or a document did not
/// have the expected shape.
pub enum SimError {
    TypeMismatch { attempted: PropertyKind, actual: Property },
    MissingField { field: String },
    Deserialization,
}

/// The mathematical value of a [`Property`]: scalars and vectors as
/// themselves, strings as character sequences, and nested maps as
/// ordered sequences of name/value pairs.
pub enum PV {
    F(SimScalar),
    V2(Vec2),
    V3(Vec3),
    V4(Vec4),
    S(Seq<char>),
    N(Seq<(Seq<char>, PV)>),
}

/// The value of a property.
pub open spec fn pview(p: Property) -> PV
    decreases p,
{
    match p {
        Property::Float(v) => PV::F(v),
        Property::Vector2(v) => PV::V2(v),
        Property::Vector3(v) => PV::V3(v),
        Property::Vector4(v) => PV::V4(v),
        Property::String(s) => PV::S(s@),
        Property::Nested(m) => PV::N(entries_view(m.entries@)),
    }
}

/// The values of a sequence of name/property pairs.
pub open spec fn entries_view(s: Seq<(String, Property)>) -> Seq<(Seq<char>, PV)>
    decreases s,
{
    if s.len() == 0 {
        Seq::empty()
    } else {
        seq![(s[0].0@, pview(s[0].1))] + entries_view(s.drop_first())
    }
}

/// The value of a property map.
pub open spec fn mview(m: PropMap) -> Seq<(Seq<char>, PV)> {
    entries_view(m.entries@)
}

/// The position of the first entry named `k`, or the length of `s` when
/// no entry matches.
pub open spec fn pfind(s: Seq<(Seq<char>, PV)>, k: Seq<char>) -> int
    decreases s,
{
    if s.len() == 0 {
        0
    } else if s[0].0 == k {
        0
    } else {
        1 + pfind(s.drop_first(), k)
    }
}

/// The value of the first entry named `k`, if any.
pub open spec fn plookup(s: Seq<(Seq<char>, PV)>, k: Seq<char>) -> Option<PV> {
    if pfind(s, k) < s.len() {
        Some(s[pfind(s, k)].1)
    } else {
        None
    }
}

/// The value view of an entry sequence has the same length and is the
/// pointwise view of its entries.
pub proof fn lemma_entries_view_all(s: Seq<(String, Property)>)
    ensures
        entries_view(s).len() == s.len(),
        forall|i: int|
            0 <= i < s.len() ==> entries_view(s)[i] == (s[i].0@, pview(s[i].1)),
    decreases s,
{
    if s.len() > 0 {
        lemma_entries_view_all(s.drop_first());
        assert forall|i: int| 0 <= i < s.len() implies entries_view(s)[i] == (
            s[i].0@,
            pview(s[i].1),
        ) by {
            if i > 0 {
                assert(s.drop_first()[i - 1] == s[i]);
                assert(entries_view(s)[i] == entries_view(s.drop_first())[i - 1]);
            }
        }
    }
}

/// The first matching position is within bounds, matches if within the
/// sequence, and nothing before it matches.
pub proof fn lemma_pfind(s: Seq<(Seq<char>, PV)>, k: Seq<char>)
    ensures
        0 <= pfind(s, k) <= s.len(),
        pfind(s, k) < s.len() ==> s[pfind(s, k)].0 == k,
        forall|j: int| 0 <= j < pfind(s, k) ==> s[j].0 != k,
    decreases s,
{
    if s.len() > 0 && s[0].0 != k {
        lemma_pfind(s.drop_first(), k);
        assert forall|j: int| 0 <= j < pfind(s, k) implies s[j].0 != k by {
            if j > 0 {
                assert(s.drop_first()[j - 1] == s[j]);
            }
        }
        if pfind(s, k) < s.len() {
            assert(s.drop_first()[pfind(s, k) - 1] == s[pfind(s, k)]);
        }
    }
}

/// A property's value has the same variant as the property itself.
pub proof fn lemma_pview_variant(p: Property)
    ensures
        pview(p) is F <==> p is Float,
        pview(p) is V2 <==> p is Vector2,
        pview(p) is V3 <==> p is Vector3,
        pview(p) is V4 <==> p is Vector4,
        pview(p) is S <==> p is String,
        pview(p) is N <==> p is Nested,
{
    match p {
        Property::Float(v) => {
            assert(pview(p) == PV::F(v));
        },
        Property::Vector2(v) => {
            assert(pview(p) == PV::V2(v));
        },
        Property::Vector3(v) => {
            assert(pview(p) == PV::V3(v));
        },
        Property::Vector4(v) => {
            assert(pview(p) == PV::V4(v));
        },
        Property::String(s) => {
            assert(pview(p) == PV::S(s@));
        },
        Property::Nested(m) => {
            assert(pview(p) == PV::N(entries_view(m.entries@)));
        },
    }
}

/// A deep copy of a property, equal to the original in value.
fn clone_property(p: &Property) -> (r: Property)
    ensures
        pview(r) == pview(*p),
    decreases *p,
{
    match p {
        Property::Float(v) => Property::Float(*v),
        Property::Vector2(v) => Property::Vector2(*v),
        Property::Vector3(v) => Property::Vector3(*v),
        Property::Vector4(v) => Property::Vector4(*v),
        Property::String(s) => Property::String(s.clone()),
        Property::Nested(m) => Property::Nested(clone_propmap(m)),
    }
}

/// A deep copy of a property map, equal to the original in value.
fn clone_propmap(m: &PropMap) -> (r: PropMap)
    ensures
        mview(r) == mview(*m),
    decreases *m,
{
    let mut out: Vec<(String, Property)> = Vec::new();
    let mut i: usize = 0;
    while i < m.entries.len()
        invariant
            i <= m.entries.len(),
            out@.len() == i as int,
            forall|k: int|
                0 <= k < i ==> out@[k].0@ == #[trigger] m.entries@[k].0@ && pview(out@[k].1)
                    == pview(m.entries@[k].1),
        decreases m.entries.len() - i,
    {
        let key = m.entries[i].0.clone();
        let val = clone_property(&m.entries[i].1);
        out.push((key, val));
        i = i + 1;
    }
    let r = PropMap { entries: out };
    proof {
        lemma_entries_view_all(r.entries@);
        lemma_entries_view_all(m.entries@);
        assert(entries_view(r.entries@) =~= entries_view(m.entries@));
    }
    r
}

impl Clone for Property {
    /// A deep copy, equal to the original in value.
    fn clone(&self) -> (r: Property)
        ensures
            pview(r) == pview(*self),
    {
        clone_property(self)
    }
}

impl Clone for PropMap {
    /// A deep copy, equal to the original in value.
    fn clone(&self) -> (r: PropMap)
        ensures
            mview(r) == mview(*self),
    {
        clone_propmap(self)
    }
}

impl Property {
    /// The stored scalar; a type-mismatch error carrying the attempted
    /// kind and the stored value when another variant is stored.
    pub fn float(&self) -> (r: Result<SimScalar, SimError>)
        ensures
            match *self {
                Property::Float(v) => r == Ok::<SimScalar, SimError>(v),
                _ => r matches Err(e) && e matches SimError::TypeMismatch { attempted, actual }
                    && attempted == PropertyKind::Float && pview(actual) == pview(*self),
            },
    {
        match self {
            Property::Float(v) => Ok(*v),
            _ => Err(
                SimError::TypeMismatch { attempted: PropertyKind::Float, actual: self.clone() },
            ),
        }
    }

    /// The stored two-component vector; a type-mismatch error otherwise.
    pub fn vec2(&self) -> (r: Result<Vec2, SimError>)
        ensures
            match *self {
                Property::Vector2(v) => r == Ok::<Vec2, SimError>(v),
                _ => r matches Err(e) && e matches SimError::TypeMismatch { attempted, actual }
                    && attempted == PropertyKind::Vector2 && pview(actual) == pview(*self),
            },
    {
        match self {
            Property::Vector2(v) => Ok(*v),
            _ => Err(
                SimError::TypeMismatch { attempted: PropertyKind::Vector2, actual: self.clone() },
            ),
        }
    }

    /// The stored three-component vector; a type-mismatch error otherwise.
    pub fn vec3(&self) -> (r: Result<Vec3, SimError>)
        ensures
            match *self {
                Property::Vector3(v) => r == Ok::<Vec3, SimError>(v),
                _ => r matches Err(e) && e matches SimError::TypeMismatch { attempted, actual }
                    && attempted == PropertyKind::Vector3 && pview(actual) == pview(*self),
            },
    {
        match self {
            Property::Vector3(v) => Ok(*v),
            _ => Err(
                SimError::TypeMismatch { attempted: PropertyKind::Vector3, actual: self.clone() },
            ),
        }
    }

    /// The stored four-component vector; a type-mismatch error otherwise.
    pub fn vec4(&self) -> (r: Result<Vec4, SimError>)
        ensures
            match *self {
                Property::Vector4(v) => r == Ok::<Vec4, SimError>(v),
                _ => r matches Err(e) && e matches SimError::TypeMismatch { attempted, actual }
                    && attempted == PropertyKind::Vector4 && pview(actual) == pview(*self),
            },
    {
        match self {
            Property::Vector4(v) => Ok(*v),
            _ => Err(
                SimError::TypeMismatch { attempted: PropertyKind::Vector4, actual: self.clone() },
            ),
        }
    }

    /// The stored string; a type-mismatch error otherwise.
    pub fn str(&self) -> (r: Result<&String, SimError>)
        ensures
            match *self {
                Property::String(s) => r matches Ok(t) && *t == s,
                _ => r matches Err(e) && e matches SimError::TypeMismatch { attempted, actual }
                    && attempted == PropertyKind::String && pview(actual) == pview(*self),
            },
    {
        match self {
            Property::String(s) => Ok(s),
            _ => Err(
                SimError::TypeMismatch { attempted: PropertyKind::String, actual: self.clone() },
            ),
        }
    }

    /// The stored nested map; a type-mismatch error otherwise.
    pub fn nested(&self) -> (r: Result<&PropMap, SimError>)
        ensures
            match *self {
                Property::Nested(m) => r matches Ok(n) && *n == m,
                _ => r matches Err(e) && e matches SimError::TypeMismatch { attempted, actual }
                    && attempted == PropertyKind::Nested && pview(actual) == pview(*self),
            },
    {
        match self {
            Property::Nested(m) => Ok(m),
            _ => Err(
                SimError::TypeMismatch { attempted: PropertyKind::Nested, actual: self.clone() },
            ),
        }
    }

    /// The stored scalar, or absence when another variant is stored;
    /// never an error.
    pub fn try_float(&self) -> (r: Option<SimScalar>)
        ensures
            r == match *self {
                Property::Float(v) => Some(v),
                _ => None::<SimScalar>,
            },
    {
        match self {
            Property::Float(v) => Some(*v),
            _ => None,
        }
    }

    /// The stored two-component vector, or absence; never an error.
    pub fn try_vec2(&self) -> (r: Option<Vec2>)
        ensures
            r == match *self {
                Property::Vector2(v) => Some(v),
                _ => None::<Vec2>,
            },
    {
        match self {
            Property::Vector2(v) => Some(*v),
            _ => None,
        }
    }

    /// The stored three-component vector, or absence; never an error.
    pub fn try_vec3(&self) -> (r: Option<Vec3>)
        ensures
            r == match *self {
                Property::Vector3(v) => Some(v),
                _ => None::<Vec3>,
            },
    {
        match self {
            Property::Vector3(v) => Some(*v),
            _ => None,
        }
    }

    /// The stored four-component vector, or absence; never an error.
    pub fn try_vec4(&self) -> (r: Option<Vec4>)
        ensures
            r == match *self {
                Property::Vector4(v) => Some(v),
                _ => None::<Vec4>,
            },
    {
        match self {
            Property::Vector4(v) => Some(*v),
            _ => None,
        }
    }

    /// The stored string, or absence; never an error.
    pub fn try_str(&self) -> (r: Option<&String>)
        ensures
            match *self {
                Property::String(s) => r matches Some(t) && *t == s,
                _ => r is None,
            },
    {
        match self {
            Property::String(s) => Some(s),
            _ => None,
        }
    }

    /// The stored nested map, or absence; never an error.
    pub fn try_nested(&self) -> (r: Option<&PropMap>)
        ensures
            match *self {
                Property::Nested(m) => r matches Some(n) && *n == m,
                _ => r is None,
            },
    {
        match self {
            Property::Nested(m) => Some(m),
            _ => None,
        }
    }
}

impl PropMap {
    /// An empty map.
    pub fn new() -> (r: PropMap)
        ensures
            mview(r) =~= Seq::<(Seq<char>, PV)>::empty(),
    {
        PropMap { entries: Vec::new() }
    }

    /// The number of entries.
    pub fn len(&self) -> (r: usize)
        ensures
            r == mview(*self).len(),
    {
        proof {
            lemma_entries_view_all(self.entries@);
        }
        self.entries.len()
    }

    /// The value of the first entry with the given name, if any.
    pub fn get(&self, name: &String) -> (r: Option<&Property>)
        ensures
            match r {
                Some(p) => plookup(mview(*self), name@) == Some(pview(*p)),
                None => plookup(mview(*self), name@) is None,
            },
    {
        proof {
            lemma_entries_view_all(self.entries@);
            lemma_pfind(mview(*self), name@);
        }
        let ghost vw = mview(*self);
        let mut i: usize = 0;
        while i < self.entries.len()
            invariant
                i <= self.entries.len(),
                vw == mview(*self),
                vw.len() == self.entries@.len(),
                forall|j: int| 0 <= j < vw.len() ==> #[trigger] vw[j] == (
                    self.entries@[j].0@,
                    pview(self.entries@[j].1),
                ),
                0 <= pfind(vw, name@) <= vw.len(),
                pfind(vw, name@) < vw.len() ==> vw[pfind(vw, name@)].0 == name@,
                forall|j: int| 0 <= j < pfind(vw, name@) ==> #[trigger] vw[j].0 != name@,
                forall|j: int| 0 <= j < i ==> #[trigger] vw[j].0 != name@,
            decreases self.entries.len() - i,
        {
            if self.entries[i].0.eq(name) {
                proof {
                    assert(vw[i as int].0 == name@);
                    assert(!(pfind(vw, name@) < i as int));
                    assert(!((i as int) < pfind(vw, name@)));
                    assert(pfind(vw, name@) == i as int);
                }
                return Some(&self.entries[i].1);
            }
            i = i + 1;
        }
        None
    }

    /// Replaces the first entry with the given name, or appends one.
    pub fn insert(&mut self, name: String, value: Property)
        ensures
            mview(*final(self)) == (if pfind(mview(*old(self)), name@) < mview(*old(self)).len() {
                mview(*old(self)).update(
                    pfind(mview(*old(self)), name@),
                    (name@, pview(value)),
                )
            } else {
                mview(*old(self)).push((name@, pview(value)))
            }),
    {
        proof {
            lemma_entries_view_all(self.entries@);
            lemma_pfind(mview(*self), name@);
        }
        let ghost vw = mview(*self);
        let mut i: usize = 0;
        while i < self.entries.len()
            invariant
                i <= self.entries.len(),
                vw == mview(*self),
                vw == mview(*old(self)),
                vw.len() == self.entries@.len(),
                forall|j: int| 0 <= j < vw.len() ==> #[trigger] vw[j] == (
                    self.entries@[j].0@,
                    pview(self.entries@[j].1),
                ),
                0 <= pfind(vw, name@) <= vw.len(),
                pfind(vw, name@) < vw.len() ==> vw[pfind(vw, name@)].0 == name@,
                forall|j: int| 0 <= j < pfind(vw, name@) ==> #[trigger] vw[j].0 != name@,
                forall|j: int| 0 <= j < i ==> #[trigger] vw[j].0 != name@,
            decreases self.entries.len() - i,
        {
            if self.entries[i].0.eq(&name) {
                proof {
                    assert(vw[i as int].0 == name@);
                    assert(!(pfind(vw, name@) < i as int));
                    assert(!((i as int) < pfind(vw, name@)));
                    assert(pfind(vw, name@) == i as int);
                }
                self.entries.remove(i);
                self.entries.insert(i, (name, value));
                proof {
                    lemma_entries_view_all(self.entries@);
                    assert(mview(*self) =~= vw.update(i as int, (name@, pview(value))));
                }
                return ;
            }
            i = i + 1;
        }
        proof {
            assert(pfind(vw, name@) == vw.len());
        }
        self.entries.push((name, value));
        proof {
            lemma_entries_view_all(self.entries@);
            assert(mview(*self) =~= vw.push((name@, pview(value))));
        }
    }

    /// Removes and returns the first entry with the given name, if any.
    pub fn remove(&mut self, name: &String) -> (r: Option<Property>)
        ensures
            match r {
                Some(p) => pfind(mview(*old(self)), name@) < mview(*old(self)).len() && pview(p)
                    == mview(*old(self))[pfind(mview(*old(self)), name@)].1 && mview(
                    *final(self),
                ) == mview(*old(self)).remove(pfind(mview(*old(self)), name@)),
                None => pfind(mview(*old(self)), name@) == mview(*old(self)).len() && mview(
                    *final(self),
                ) == mview(*old(self)),
            },
    {
        proof {
            lemma_entries_view_all(self.entries@);
            lemma_pfind(mview(*self), name@);
        }
        let ghost vw = mview(*self);
        let mut i: usize = 0;
        while i < self.entries.len()
            invariant
                i <= self.entries.len(),
                vw == mview(*self),
                vw == mview(*old(self)),
                vw.len() == self.entries@.len(),
                forall|j: int| 0 <= j < vw.len() ==> #[trigger] vw[j] == (
                    self.entries@[j].0@,
                    pview(self.entries@[j].1),
                ),
                0 <= pfind(vw, name@) <= vw.len(),
                pfind(vw, name@) < vw.len() ==> vw[pfind(vw, name@)].0 == name@,
                forall|j: int| 0 <= j < pfind(vw, name@) ==> #[trigger] vw[j].0 != name@,
                forall|j: int| 0 <= j < i ==> #[trigger] vw[j].0 != name@,
            decreases self.entries.len() - i,
        {
            if self.entries[i].0.eq(name) {
                proof {
                    assert(vw[i as int].0 == name@);
                    assert(!(pfind(vw, name@) < i as int));
                    assert(!((i as int) < pfind(vw, name@)));
                    assert(pfind(vw, name@) == i as int);
                    assert(vw[i as int].1 == pview(self.entries@[i as int].1));
                }
                let pair = self.entries.remove(i);
                proof {
                    lemma_entries_view_all(self.entries@);
                    assert(mview(*self) =~= vw.remove(i as int));
                }
                return Some(pair.1);
            }
            i = i + 1;
        }
        proof {
            assert(pfind(vw, name@) == vw.len());
        }
        None
    }
}

} // verus!
