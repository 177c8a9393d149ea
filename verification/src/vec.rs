//! Three-component vectors over fixed-point scalars.
//!
//! A `Vec3` is used as a point, a direction, or an RGB color.  Its
//! mathematical model is `Vec3i`, the three components as unbounded
//! integers; every operation's contract states the exact resulting model.

use vstd::prelude::*;
use crate::fixed::{
    fadd, fadd_s, fdiv, fdiv_s, fmul, fmul_s, fneg_s, fsqrt, fsqrt_s, fsub, fsub_s, mag, SCALE,
};

verus! {

/// The mathematical model of a vector: its fixed-point components as integers.
pub struct Vec3i {
    pub x: int,
    pub y: int,
    pub z: int,
}

/// Componentwise sum.
pub open spec fn vadd(a: Vec3i, b: Vec3i) -> Vec3i {
    Vec3i { x: fadd_s(a.x, b.x), y: fadd_s(a.y, b.y), z: fadd_s(a.z, b.z) }
}

/// Componentwise difference.
pub open spec fn vsub(a: Vec3i, b: Vec3i) -> Vec3i {
    Vec3i { x: fsub_s(a.x, b.x), y: fsub_s(a.y, b.y), z: fsub_s(a.z, b.z) }
}

/// Componentwise product.
pub open spec fn vmul(a: Vec3i, b: Vec3i) -> Vec3i {
    Vec3i { x: fmul_s(a.x, b.x), y: fmul_s(a.y, b.y), z: fmul_s(a.z, b.z) }
}

/// Componentwise quotient.
pub open spec fn vdiv(a: Vec3i, b: Vec3i) -> Vec3i {
    Vec3i { x: fdiv_s(a.x, b.x), y: fdiv_s(a.y, b.y), z: fdiv_s(a.z, b.z) }
}

/// Product with a scalar.
pub open spec fn vscale(k: int, a: Vec3i) -> Vec3i {
    Vec3i { x: fmul_s(k, a.x), y: fmul_s(k, a.y), z: fmul_s(k, a.z) }
}

/// Quotient by a scalar.
pub open spec fn vscale_inv(a: Vec3i, k: int) -> Vec3i {
    Vec3i { x: fdiv_s(a.x, k), y: fdiv_s(a.y, k), z: fdiv_s(a.z, k) }
}

/// Dot product.
pub open spec fn vdot(a: Vec3i, b: Vec3i) -> int {
    fadd_s(fadd_s(fmul_s(a.x, b.x), fmul_s(a.y, b.y)), fmul_s(a.z, b.z))
}

/// Cross product.
pub open spec fn vcross(a: Vec3i, b: Vec3i) -> Vec3i {
    Vec3i {
        x: fsub_s(fmul_s(a.y, b.z), fmul_s(a.z, b.y)),
        y: fneg_s(fsub_s(fmul_s(a.x, b.z), fmul_s(a.z, b.x))),
        z: fsub_s(fmul_s(a.x, b.y), fmul_s(a.y, b.x)),
    }
}

/// Squared Euclidean length.
pub open spec fn vsqlen(a: Vec3i) -> int {
    fadd_s(fadd_s(fmul_s(a.x, a.x), fmul_s(a.y, a.y)), fmul_s(a.z, a.z))
}

/// Euclidean length.
pub open spec fn vlen(a: Vec3i) -> int {
    fsqrt_s(vsqlen(a))
}

/// The unit vector along `a`; the zero vector is sent to itself.
pub open spec fn vunit(a: Vec3i) -> Vec3i {
    vscale_inv(a, vlen(a))
}

/// The executable vector whose model is `m`; the model of every vector
/// operation is saturated into the `i64` range, so the cast is exact.
pub open spec fn vec3_of(m: Vec3i) -> Vec3 {
    Vec3 { x: m.x as i64, y: m.y as i64, z: m.z as i64 }
}

/// A vector of three fixed-point components, also used as an RGB color.
#[derive(Clone, Copy, Debug, PartialEq)]
pub struct Vec3 {
    pub x: i64,
    pub y: i64,
    pub z: i64,
}

impl View for Vec3 {
    type V = Vec3i;

    open spec fn view(&self) -> Vec3i {
        Vec3i { x: self.x as int, y: self.y as int, z: self.z as int }
    }
}

impl Vec3 {
    /// The origin, which is also black as a color.
    pub fn origin() -> (r: Vec3)
        ensures
            r@ == (Vec3i { x: 0, y: 0, z: 0 }),
    {
        Vec3 { x: 0, y: 0, z: 0 }
    }

    pub fn new(x: i64, y: i64, z: i64) -> (r: Vec3)
        ensures
            r@ == (Vec3i { x: x as int, y: y as int, z: z as int }),
    {
        Vec3 { x, y, z }
    }

    pub fn x(&self) -> (r: i64)
        ensures
            r == self.x,
    {
        self.x
    }

    pub fn y(&self) -> (r: i64)
        ensures
            r == self.y,
    {
        self.y
    }

    pub fn z(&self) -> (r: i64)
        ensures
            r == self.z,
    {
        self.z
    }

    pub fn r(&self) -> (r: i64)
        ensures
            r == self.x,
    {
        self.x
    }

    pub fn g(&self) -> (r: i64)
        ensures
            r == self.y,
    {
        self.y
    }

    pub fn b(&self) -> (r: i64)
        ensures
            r == self.z,
    {
        self.z
    }

    /// Euclidean length.
    pub fn length(&self) -> (r: i64)
        ensures
            r as int == vlen(self@),
            r >= 0,
    {
        fsqrt(self.squared_length())
    }

    /// Squared Euclidean length.
    pub fn squared_length(&self) -> (r: i64)
        ensures
            r as int == vsqlen(self@),
    {
        fadd(fadd(fmul(self.x, self.x), fmul(self.y, self.y)), fmul(self.z, self.z))
    }

    /// Componentwise sum.
    pub fn add(&self, other: &Vec3) -> (r: Vec3)
        ensures
            r@ == vadd(self@, other@),
    {
        Vec3 { x: fadd(self.x, other.x), y: fadd(self.y, other.y), z: fadd(self.z, other.z) }
    }

    /// Componentwise difference.
    pub fn sub(&self, other: &Vec3) -> (r: Vec3)
        ensures
            r@ == vsub(self@, other@),
    {
        Vec3 { x: fsub(self.x, other.x), y: fsub(self.y, other.y), z: fsub(self.z, other.z) }
    }

    /// Componentwise product.
    pub fn mul(&self, other: &Vec3) -> (r: Vec3)
        ensures
            r@ == vmul(self@, other@),
    {
        Vec3 { x: fmul(self.x, other.x), y: fmul(self.y, other.y), z: fmul(self.z, other.z) }
    }

    /// Componentwise quotient.
    pub fn div(&self, other: &Vec3) -> (r: Vec3)
        requires
            other@.x != 0,
            other@.y != 0,
            other@.z != 0,
        ensures
            r@ == vdiv(self@, other@),
    {
        Vec3 { x: fdiv(self.x, other.x), y: fdiv(self.y, other.y), z: fdiv(self.z, other.z) }
    }

    /// Product with a scalar.
    pub fn scale(&self, k: i64) -> (r: Vec3)
        ensures
            r@ == vscale(k as int, self@),
    {
        Vec3 { x: fmul(k, self.x), y: fmul(k, self.y), z: fmul(k, self.z) }
    }

    /// Quotient by a scalar.
    pub fn scale_inv(&self, k: i64) -> (r: Vec3)
        requires
            k != 0,
        ensures
            r@ == vscale_inv(self@, k as int),
    {
        Vec3 { x: fdiv(self.x, k), y: fdiv(self.y, k), z: fdiv(self.z, k) }
    }
}

/// Vector addition is commutative, with no exception.
pub proof fn lemma_add_comm(a: Vec3i, b: Vec3i)
    ensures
        vadd(a, b) == vadd(b, a),
{
}

/// Adding a vector back after subtracting it is the identity, as long as the
/// components are far enough from the saturation bounds that no intermediate
/// value clips.
pub proof fn lemma_sub_then_add(a: Vec3i, b: Vec3i)
    requires
        mag(a.x) <= 0x2000000000000000,
        mag(a.y) <= 0x2000000000000000,
        mag(a.z) <= 0x2000000000000000,
        mag(b.x) <= 0x2000000000000000,
        mag(b.y) <= 0x2000000000000000,
        mag(b.z) <= 0x2000000000000000,
    ensures
        vadd(vsub(a, b), b) == a,
{
}

/// Scalar multiplication distributes over vector addition wherever every
/// scalar product is exact (the scale divides it evenly) and the operands
/// are small enough that nothing saturates.  With rounding the law can
/// fail: for `k` of half a unit and components of one raw step, the left
/// side rounds to one step and the right side to zero.
pub proof fn lemma_scale_distributes(k: int, a: Vec3i, b: Vec3i)
    requires
        mag(k) <= 0x40000000,
        mag(a.x) <= 0x40000000,
        mag(a.y) <= 0x40000000,
        mag(a.z) <= 0x40000000,
        mag(b.x) <= 0x40000000,
        mag(b.y) <= 0x40000000,
        mag(b.z) <= 0x40000000,
        (k * a.x) % (SCALE as int) == 0,
        (k * a.y) % (SCALE as int) == 0,
        (k * a.z) % (SCALE as int) == 0,
        (k * b.x) % (SCALE as int) == 0,
        (k * b.y) % (SCALE as int) == 0,
        (k * b.z) % (SCALE as int) == 0,
    ensures
        vscale(k, vadd(a, b)) == vadd(vscale(k, a), vscale(k, b)),
{
    crate::fixed::lemma_fmul_distributes_exact(k, a.x, b.x);
    crate::fixed::lemma_fmul_distributes_exact(k, a.y, b.y);
    crate::fixed::lemma_fmul_distributes_exact(k, a.z, b.z);
}

/// The dot product of a vector with itself is its squared length.
pub proof fn lemma_dot_self_is_squared_length(a: Vec3i)
    ensures
        vdot(a, a) == vsqlen(a),
{
}

/// The dot product is symmetric, with no exception.
pub proof fn lemma_dot_comm(a: Vec3i, b: Vec3i)
    ensures
        vdot(a, b) == vdot(b, a),
{
    crate::fixed::lemma_fmul_comm(a.x, b.x);
    crate::fixed::lemma_fmul_comm(a.y, b.y);
    crate::fixed::lemma_fmul_comm(a.z, b.z);
}

/// A squared length is never negative.
pub proof fn lemma_vsqlen_nonneg(a: Vec3i)
    ensures
        vsqlen(a) >= 0,
        vdot(a, a) >= 0,
{
    crate::fixed::lemma_fmul_self_nonneg(a.x);
    crate::fixed::lemma_fmul_self_nonneg(a.y);
    crate::fixed::lemma_fmul_self_nonneg(a.z);
}

} // verus!
