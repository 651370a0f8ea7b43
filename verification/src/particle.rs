//! Per-particle state.
//!
//! The solver's numbers are single-precision. This crate never computes with them: it
//! stores, copies and compares them, so it holds each one by its bit pattern.

use crate::solver::Constraint;
use vstd::prelude::*;

verus! {

/// The bit pattern of the default particle radius, one tenth.
pub const PARTICLE_SIZE: u32 = 0x3DCC_CCCD;

/// The bit pattern of one.
pub const ONE: u32 = 0x3F80_0000;

/// The bit pattern of ten.
pub const TEN: u32 = 0x4120_0000;

/// A single-precision number, held by its IEEE 754 bit pattern. Two scalars are equal
/// when their patterns are.
#[derive(Clone, Copy, Debug, PartialEq, Eq, Structural)]
pub struct Scalar {
    /// The pattern: sign, exponent and fraction.
    pub bits: u32,
}

/// A point or displacement in the plane.
#[derive(Clone, Copy, Debug, PartialEq, Eq, Structural)]
pub struct Vector {
    pub x: Scalar,
    pub y: Scalar,
}

impl Scalar {
    /// The scalar with the pattern `bits`.
    pub fn from_bits(bits: u32) -> (s: Self)
        ensures
            s.bits == bits,
    {
        Scalar { bits }
    }

    /// Positive zero.
    pub open spec fn spec_zero() -> Self {
        Scalar { bits: 0 }
    }

    /// Positive zero.
    #[verifier::when_used_as_spec(spec_zero)]
    pub fn zero() -> (s: Self)
        ensures
            s == Self::zero(),
    {
        Scalar { bits: 0 }
    }
}

impl Vector {
    /// The vector with the components `x` and `y`.
    pub fn new(x: Scalar, y: Scalar) -> (v: Self)
        ensures
            v.x == x,
            v.y == y,
    {
        Vector { x, y }
    }

    /// The origin.
    pub open spec fn spec_zero() -> Self {
        Vector { x: Scalar::zero(), y: Scalar::zero() }
    }

    /// The origin.
    #[verifier::when_used_as_spec(spec_zero)]
    pub fn zero() -> (v: Self)
        ensures
            v == Self::zero(),
    {
        Vector { x: Scalar::zero(), y: Scalar::zero() }
    }
}

impl Vector {
    /// Whether both components are numbers, and the same as those of `other`.
    pub open spec fn spec_same(self, other: Vector) -> bool {
        self.x.same(other.x) && self.y.same(other.y)
    }

    /// Whether both components are numbers, and the same as those of `other`.
    #[verifier::when_used_as_spec(spec_same)]
    pub fn same(self, other: Vector) -> (b: bool)
        ensures
            b == self.same(other),
    {
        self.x.same(other.x) && self.y.same(other.y)
    }

    /// Whether this point lies between `low` and `high` on both axes.
    pub open spec fn within(self, low: Vector, high: Vector) -> bool {
        low.x.le(self.x) && self.x.le(high.x) && low.y.le(self.y) && self.y.le(high.y)
    }
}

/// Where the region lets a particle at `pos` be, if its centre has to keep between
/// `low` and `high`. Each axis is clamped by itself. A cup has no lid: there the
/// height is only raised to `low`, never lowered.
pub open spec fn confined(pos: Vector, constraint: Constraint, low: Vector, high: Vector) -> Vector {
    Vector {
        x: pos.x.clamped(low.x, high.x),
        y: match constraint {
            Constraint::Box(_, _) => pos.y.clamped(low.y, high.y),
            Constraint::Cup(_, _) => pos.y.max(low.y),
        },
    }
}

/// A particle that keeps within the limits stays where it is.
pub proof fn lemma_confined_within(pos: Vector, constraint: Constraint, low: Vector, high: Vector)
    requires
        pos.within(low, high),
    ensures
        confined(pos, constraint, low, high) == pos,
{
}

/// Wherever a particle is, confining it puts it within the limits, if the limits
/// leave any room; and confining it once more changes nothing.
pub proof fn lemma_confined_lands_within(
    pos: Vector,
    constraint: Constraint,
    low: Vector,
    high: Vector,
)
    requires
        low.x.le(high.x),
        low.y.le(high.y),
    ensures
        constraint is Box ==> confined(pos, constraint, low, high).within(low, high),
        constraint is Cup ==> {
            &&& low.x.le(confined(pos, constraint, low, high).x)
            &&& confined(pos, constraint, low, high).x.le(high.x)
            &&& low.y.le(confined(pos, constraint, low, high).y)
        },
        confined(confined(pos, constraint, low, high), constraint, low, high) == confined(
            pos,
            constraint,
            low,
            high,
        ),
{
}

/// One particle. Its velocity is implied: the step from `pos_old` to `pos`.
#[derive(Clone, Copy, Debug, PartialEq, Eq, Structural)]
pub struct Particle {
    /// How far the particle reaches from its centre.
    pub radius: Scalar,
    /// How much it resists being pushed.
    pub mass: Scalar,
    /// Where the particle is.
    pub pos: Vector,
    /// Where it was one integration step ago.
    pub pos_old: Vector,
    /// The acceleration gathered since the last integration step.
    pub acc: Vector,
    /// A tag for the renderer; the solver does not read it.
    pub texture: u32,
}

impl Particle {
    /// A grain at rest at the origin: default radius, unit mass, texture 0.
    pub open spec fn spec_null() -> Self {
        Particle {
            radius: Scalar { bits: PARTICLE_SIZE },
            mass: Scalar { bits: ONE },
            pos: Vector::zero(),
            pos_old: Vector::zero(),
            acc: Vector::zero(),
            texture: 0,
        }
    }

    /// A grain at rest at the origin: default radius, unit mass, texture 0.
    #[verifier::when_used_as_spec(spec_null)]
    pub fn null() -> (p: Self)
        ensures
            p == Self::null(),
    {
        Particle {
            radius: Scalar { bits: PARTICLE_SIZE },
            mass: Scalar { bits: ONE },
            pos: Vector::zero(),
            pos_old: Vector::zero(),
            acc: Vector::zero(),
            texture: 0,
        }
    }

    /// The light material: a grain of unit mass with texture 0.
    pub open spec fn spec_sand() -> Self {
        Self::null()
    }

    /// The light material: a grain of unit mass with texture 0.
    #[verifier::when_used_as_spec(spec_sand)]
    pub fn sand() -> (p: Self)
        ensures
            p == Self::sand(),
    {
        Self::null()
    }

    /// The heavy material: a grain of mass ten with texture 1.
    pub open spec fn spec_metal() -> Self {
        Particle { mass: Scalar { bits: TEN }, texture: 1, ..Self::null() }
    }

    /// The heavy material: a grain of mass ten with texture 1.
    #[verifier::when_used_as_spec(spec_metal)]
    pub fn metal() -> (p: Self)
        ensures
            p == Self::metal(),
    {
        Particle { mass: Scalar { bits: TEN }, texture: 1, ..Self::null() }
    }

    /// This particle set down at rest at `pos`.
    pub open spec fn spec_place(&self, pos: Vector) -> Self {
        Particle { pos, pos_old: pos, ..*self }
    }

    /// This particle set down at rest at `pos`: both positions are `pos`, so that it
    /// has no velocity. The gathered acceleration stays.
    #[verifier::when_used_as_spec(spec_place)]
    pub fn place(&self, pos: Vector) -> (p: Self)
        ensures
            p == self.place(pos),
    {
        Particle { pos, pos_old: pos, ..*self }
    }

    /// A particle at rest at `pos` with nothing gathered.
    pub fn new(radius: Scalar, mass: Scalar, pos: Vector, texture: u32) -> (p: Self)
        ensures
            p == (Particle { radius, mass, pos, pos_old: pos, acc: Vector::zero(), texture }),
    {
        Particle { radius, mass, pos, pos_old: pos, acc: Vector::zero(), texture }
    }

    /// Moves the particle to `pos` without touching its history. The gathered
    /// acceleration is kept if `keep_acc` is set, else cleared.
    pub fn set_position(&mut self, pos: Vector, keep_acc: bool)
        ensures
            *final(self) == (Particle {
                pos,
                acc: if keep_acc {
                    old(self).acc
                } else {
                    Vector::zero()
                },
                ..*old(self)
            }),
    {
        self.pos = pos;
        if !keep_acc {
            self.acc = Vector::zero();
        }
    }

    /// Keeps the particle in the region: its centre between `low` and `high`, the
    /// corners of the region drawn in by the radius. A particle that has to be moved
    /// for that loses its gathered acceleration. Its history is left as it is, so
    /// that the next integration step sees it come to rest at the wall.
    pub fn apply_constraint(&mut self, constraint: Constraint, low: Vector, high: Vector)
        ensures
            *final(self) == if confined(old(self).pos, constraint, low, high).same(old(self).pos) {
                *old(self)
            } else {
                Particle {
                    pos: confined(old(self).pos, constraint, low, high),
                    acc: Vector::zero(),
                    ..*old(self)
                }
            },
    {
        let new_x = self.pos.x.clamped(low.x, high.x);
        let new_y = match constraint {
            Constraint::Box(_, _) => self.pos.y.clamped(low.y, high.y),
            Constraint::Cup(_, _) => self.pos.y.max(low.y),
        };
        let to = Vector { x: new_x, y: new_y };
        if !to.same(self.pos) {
            self.set_position(to, false);
        }
    }

    /// Completes one integration step that leads to `next`: the present position
    /// becomes the old one, `next` the present one, and the gathered acceleration is
    /// spent.
    pub fn update(&mut self, next: Vector)
        ensures
            *final(self) == (Particle {
                pos: next,
                pos_old: old(self).pos,
                acc: Vector::zero(),
                ..*old(self)
            }),
    {
        self.pos_old = self.pos;
        self.set_position(next, false);
    }
}

/// What a renderer gets to see of a particle.
#[derive(Clone, Copy, Debug, PartialEq, Eq, Structural)]
pub struct Raw {
    /// The radius.
    pub size: Scalar,
    /// Where the particle is.
    pub pos: Vector,
    /// The tag that picks its looks.
    pub texture: u32,
}

impl Raw {
    /// What is to be seen of `particle`.
    pub open spec fn spec_from_particle(particle: &Particle) -> Raw {
        Raw { size: particle.radius, pos: particle.pos, texture: particle.texture }
    }

    /// What is to be seen of `particle`.
    #[verifier::when_used_as_spec(spec_from_particle)]
    pub fn from_particle(particle: &Particle) -> (raw: Raw)
        ensures
            raw == Raw::from_particle(particle),
    {
        Raw { size: particle.radius, pos: particle.pos, texture: particle.texture }
    }
}

impl Default for Particle {
    fn default() -> (p: Self)
        ensures
            p == Particle::null(),
    {
        Particle::null()
    }
}

} // verus!
