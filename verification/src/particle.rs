use vstd::prelude::*;

use crate::property::{lemma_pview_variant, mview, plookup, pview, PropMap, PV, Vec2};
use crate::scalar::{ScalarOps, SimScalar};

verus! {

/// A point particle: a position, a velocity, and an open map of further
/// named properties such as its mass or its name.
pub struct ParticleProto {
    pub position: Vec2,
    pub velocity: Vec2,
    pub additional_properties: PropMap,
}

/// The mathematical value of a [`ParticleProto`].
#[verifier::ext_equal]
pub struct PartView {
    pub position: Vec2,
    pub velocity: Vec2,
    pub props: Seq<(Seq<char>, PV)>,
}

/// The value of a particle.
pub open spec fn part_view(p: ParticleProto) -> PartView {
    PartView {
        position: p.position,
        velocity: p.velocity,
        props: mview(p.additional_properties),
    }
}

/// The mass of a particle: its `mass` property when one is stored as a
/// scalar, the scalar one otherwise.
pub open spec fn mass_s<S: ScalarOps>(props: Seq<(Seq<char>, PV)>) -> SimScalar {
    match plookup(props, "mass"@) {
        Some(PV::F(b)) => b,
        _ => S::from_uint_s(1),
    }
}

/// One stepping of a particle by the accumulated force over the fixed
/// timestep: the velocity moves first by the acceleration, and the
/// position then moves by the new velocity.
pub open spec fn step_part_s<S: ScalarOps>(p: PartView, force: Vec2, delta: SimScalar) -> PartView {
    let m = mass_s::<S>(p.props);
    let vx = S::add_s(p.velocity.x, S::mul_s(S::div_s(force.x, m), delta));
    let vy = S::add_s(p.velocity.y, S::mul_s(S::div_s(force.y, m), delta));
    PartView {
        position: Vec2 {
            x: S::add_s(p.position.x, S::mul_s(vx, delta)),
            y: S::add_s(p.position.y, S::mul_s(vy, delta)),
        },
        velocity: Vec2 { x: vx, y: vy },
        props: p.props,
    }
}

/// The stepping capability: anything with particle-like kinematics may
/// be advanced by the solver's loop.  An implementation fixes, through
/// `step_s`, what one stepping does to it.
pub trait EulerMethodObject<S: ScalarOps>: Sized {
    /// The value after one stepping.
    spec fn step_s(pre: Self, force: Vec2, delta: SimScalar) -> Self;

    /// Advances this object by the accumulated force over one timestep.
    fn step(&mut self, ops: &S, force: Vec2, delta: SimScalar)
        ensures
            *final(self) == Self::step_s(*old(self), force, delta),
    ;
}

impl ParticleProto {
    /// A particle at the origin, at rest, with no further properties.
    pub fn new<S: ScalarOps>(ops: &S) -> (r: ParticleProto)
        ensures
            r.position == (Vec2 { x: S::from_uint_s(0), y: S::from_uint_s(0) }),
            r.velocity == (Vec2 { x: S::from_uint_s(0), y: S::from_uint_s(0) }),
            part_view(r).props =~= Seq::<(Seq<char>, PV)>::empty(),
    {
        let zero = ops.from_uint(0);
        ParticleProto {
            position: Vec2 { x: zero, y: zero },
            velocity: Vec2 { x: zero, y: zero },
            additional_properties: PropMap::new(),
        }
    }

    /// The mass of this particle: its `mass` property when one is
    /// stored as a scalar, the scalar one otherwise.
    pub fn mass<S: ScalarOps>(&self, ops: &S) -> (r: SimScalar)
        ensures
            r == mass_s::<S>(mview(self.additional_properties)),
    {
        match self.additional_properties.get(&("mass".to_owned())) {
            Some(p) => match p.try_float() {
                Some(b) => b,
                None => {
                    proof {
                        lemma_pview_variant(*p);
                    }
                    ops.from_uint(1)
                },
            },
            None => ops.from_uint(1),
        }
    }
}

impl<S: ScalarOps> EulerMethodObject<S> for ParticleProto {
    open spec fn step_s(pre: ParticleProto, force: Vec2, delta: SimScalar) -> ParticleProto {
        let v = step_part_s::<S>(part_view(pre), force, delta);
        ParticleProto {
            position: v.position,
            velocity: v.velocity,
            additional_properties: pre.additional_properties,
        }
    }

    fn step(&mut self, ops: &S, force: Vec2, delta: SimScalar) {
        let m = self.mass(ops);
        let vx = ops.add(self.velocity.x, ops.mul(ops.div(force.x, m), delta));
        let vy = ops.add(self.velocity.y, ops.mul(ops.div(force.y, m), delta));
        self.velocity = Vec2 { x: vx, y: vy };
        self.position = Vec2 {
            x: ops.add(self.position.x, ops.mul(vx, delta)),
            y: ops.add(self.position.y, ops.mul(vy, delta)),
        };
    }
}

/// One stepping leaves the particle's properties unchanged, moves the
/// velocity by the acceleration from the accumulated force, and moves
/// the position by the timestep times the new velocity, not the old
/// one.
pub proof fn lemma_step_order<S: ScalarOps>(pre: ParticleProto, force: Vec2, delta: SimScalar)
    ensures
        ({
            let post = <ParticleProto as EulerMethodObject<S>>::step_s(pre, force, delta);
            let m = mass_s::<S>(mview(pre.additional_properties));
            post.additional_properties == pre.additional_properties && post.velocity.x == S::add_s(
                pre.velocity.x,
                S::mul_s(S::div_s(force.x, m), delta),
            ) && post.velocity.y == S::add_s(
                pre.velocity.y,
                S::mul_s(S::div_s(force.y, m), delta),
            ) && post.position.x == S::add_s(pre.position.x, S::mul_s(post.velocity.x, delta))
                && post.position.y == S::add_s(pre.position.y, S::mul_s(post.velocity.y, delta))
        }),
{
}

} // verus!
