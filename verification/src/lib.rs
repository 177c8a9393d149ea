//! A recursive Monte Carlo path tracer over fixed-point arithmetic.
//!
//! The crate renders scenes of spheres with diffuse, reflective and
//! refractive materials.  All geometry and color arithmetic is done on
//! fixed-point scalars (`fixed::SCALE` raw units to one), so every
//! computation has an exact integer specification; random sampling comes
//! from the `rand` crate behind a thin trusted interface.

use vstd::prelude::*;

pub mod camera;
pub mod fixed;
pub mod materials;
pub mod render;
pub mod vec;

use crate::fixed::{
    fadd, fadd_s, fdiv, fdiv_s, fmul, fmul_s, fneg, fneg_s, fsqrt, fsqrt_s, fsub, fsub_s, mag,
    ONE, SCALE,
};
use crate::vec::{
    vadd, vcross, vdot, vec3_of, vscale, vscale_inv, vsqlen, vsub, vunit, Vec3, Vec3i,
};

verus! {

/// Relies on `rand::random`: a draw from the standard uniform distribution
/// of the requested type.  Nothing is assumed of the value drawn.
pub assume_specification<T>[ rand::random::<T> ]() -> (r: T)
    where
        rand::distr::StandardUniform: rand::distr::Distribution<T>,
;

/// A uniformly random fixed-point scalar in `[0, 1)`: a random 16-bit
/// word is exactly a fixed-point fraction of one.
pub fn random_unit() -> (r: i64)
    ensures
        0 <= r < ONE,
{
    let w: u16 = rand::random::<u16>();
    w as i64
}

/// Dot product.
pub fn dot(rhs: &Vec3, lhs: &Vec3) -> (r: i64)
    ensures
        r as int == vdot(rhs@, lhs@),
{
    fadd(fadd(fmul(rhs.x, lhs.x), fmul(rhs.y, lhs.y)), fmul(rhs.z, lhs.z))
}

/// Cross product.
pub fn cross(lhs: &Vec3, rhs: &Vec3) -> (r: Vec3)
    ensures
        r@ == vcross(lhs@, rhs@),
{
    Vec3::new(
        fsub(fmul(lhs.y, rhs.z), fmul(lhs.z, rhs.y)),
        fneg(fsub(fmul(lhs.x, rhs.z), fmul(lhs.z, rhs.x))),
        fsub(fmul(lhs.x, rhs.y), fmul(lhs.y, rhs.x)),
    )
}

/// The unit vector along `vec`; the zero vector is its own unit vector.
pub fn unit_vector(vec: &Vec3) -> (r: Vec3)
    ensures
        r@ == vunit(vec@),
{
    let l: i64 = vec.length();
    if l == 0 {
        Vec3::new(0, 0, 0)
    } else {
        vec.scale_inv(l)
    }
}

/// The model of `reflect`: `v` mirrored about the normal `n`.
pub open spec fn reflect_s(v: Vec3i, n: Vec3i) -> Vec3i {
    vsub(v, vscale(fmul_s(2 * ONE, vdot(v, n)), n))
}

/// Mirror `v` about the normal `n`: `v - 2 * dot(v, n) * n`.
pub fn reflect(v: &Vec3, n: &Vec3) -> (r: Vec3)
    ensures
        r@ == reflect_s(v@, n@),
{
    let two: i64 = 2 * ONE;
    let k: i64 = fmul(two, dot(v, n));
    v.sub(&n.scale(k))
}

/// An exactly representable unit normal: one of the six axis directions.
pub open spec fn axis_unit(n: Vec3i) -> bool {
    ||| (mag(n.x) == ONE as int && n.y == 0 && n.z == 0)
    ||| (n.x == 0 && mag(n.y) == ONE as int && n.z == 0)
    ||| (n.x == 0 && n.y == 0 && mag(n.z) == ONE as int)
}

/// All three components stay well clear of the saturation bounds.
pub open spec fn small3(v: Vec3i) -> bool {
    &&& mag(v.x) <= 0x1000000000000000
    &&& mag(v.y) <= 0x1000000000000000
    &&& mag(v.z) <= 0x1000000000000000
}

/// Reflecting about an axis unit normal flips exactly that axis.
proof fn lemma_reflect_axis(v: Vec3i, n: Vec3i)
    requires
        axis_unit(n),
        small3(v),
    ensures
        n.x != 0 ==> reflect_s(v, n) == (Vec3i { x: -v.x, y: v.y, z: v.z }),
        n.y != 0 ==> reflect_s(v, n) == (Vec3i { x: v.x, y: -v.y, z: v.z }),
        n.z != 0 ==> reflect_s(v, n) == (Vec3i { x: v.x, y: v.y, z: -v.z }),
{
    let s = SCALE as int;
    crate::fixed::lemma_fmul_zero(v.x);
    crate::fixed::lemma_fmul_zero(v.y);
    crate::fixed::lemma_fmul_zero(v.z);
    if n.x != 0 {
        crate::fixed::lemma_fmul_comm(v.x, n.x);
        if n.x > 0 {
            assert(n.x == 1 * s);
            crate::fixed::lemma_fmul_multiple(1, v.x);
        } else {
            assert(n.x == (-1) * s);
            crate::fixed::lemma_fmul_multiple(-1, v.x);
        }
        let d = vdot(v, n);
        assert(2 * (ONE as int) == 2 * s);
        crate::fixed::lemma_fmul_multiple(2, d);
        let k = fmul_s(2 * (ONE as int), d);
        crate::fixed::lemma_fmul_comm(k, n.x);
        crate::fixed::lemma_fmul_zero(k);
        if n.x > 0 {
            crate::fixed::lemma_fmul_multiple(1, k);
        } else {
            crate::fixed::lemma_fmul_multiple(-1, k);
        }
    } else if n.y != 0 {
        crate::fixed::lemma_fmul_comm(v.y, n.y);
        if n.y > 0 {
            assert(n.y == 1 * s);
            crate::fixed::lemma_fmul_multiple(1, v.y);
        } else {
            assert(n.y == (-1) * s);
            crate::fixed::lemma_fmul_multiple(-1, v.y);
        }
        let d = vdot(v, n);
        crate::fixed::lemma_fmul_multiple(2, d);
        let k = fmul_s(2 * (ONE as int), d);
        crate::fixed::lemma_fmul_comm(k, n.y);
        crate::fixed::lemma_fmul_zero(k);
        if n.y > 0 {
            crate::fixed::lemma_fmul_multiple(1, k);
        } else {
            crate::fixed::lemma_fmul_multiple(-1, k);
        }
    } else {
        crate::fixed::lemma_fmul_comm(v.z, n.z);
        if n.z > 0 {
            assert(n.z == 1 * s);
            crate::fixed::lemma_fmul_multiple(1, v.z);
        } else {
            assert(n.z == (-1) * s);
            crate::fixed::lemma_fmul_multiple(-1, v.z);
        }
        let d = vdot(v, n);
        crate::fixed::lemma_fmul_multiple(2, d);
        let k = fmul_s(2 * (ONE as int), d);
        crate::fixed::lemma_fmul_comm(k, n.z);
        crate::fixed::lemma_fmul_zero(k);
        if n.z > 0 {
            crate::fixed::lemma_fmul_multiple(1, k);
        } else {
            crate::fixed::lemma_fmul_multiple(-1, k);
        }
    }
}

/// Reflecting twice about the same exactly representable unit normal is
/// the identity, as long as the vector stays clear of the saturation
/// bounds.  For unit normals that the fixed-point grid can only
/// approximate the law can fail by a rounding step.
pub proof fn lemma_reflect_involution(v: Vec3i, n: Vec3i)
    requires
        axis_unit(n),
        small3(v),
    ensures
        reflect_s(reflect_s(v, n), n) == v,
{
    lemma_reflect_axis(v, n);
    lemma_reflect_axis(reflect_s(v, n), n);
}

/// The discriminant of Snell's law for incoming direction `v`, outward
/// normal `n` and index ratio `ni_nt`; refraction exists only if positive.
pub open spec fn refract_disc_s(v: Vec3i, n: Vec3i, ni_nt: int) -> int {
    let dt = vdot(vunit(v), n);
    fsub_s(ONE as int, fmul_s(fmul_s(ni_nt, ni_nt), fsub_s(ONE as int, fmul_s(dt, dt))))
}

/// The refracted direction, meaningful when the discriminant is positive.
pub open spec fn refract_dir_s(v: Vec3i, n: Vec3i, ni_nt: int) -> Vec3i {
    let uv = vunit(v);
    let dt = vdot(uv, n);
    vsub(
        vscale(ni_nt, vsub(uv, vscale(dt, n))),
        vscale(fsqrt_s(refract_disc_s(v, n, ni_nt)), n),
    )
}

/// Refract `v` through a surface with outward normal `n` and refractive
/// index ratio `ni_nt`.  Returns true and writes the refracted direction
/// exactly when the discriminant is positive; a non-positive discriminant
/// is total internal reflection and leaves `refracted` untouched.
pub fn refract(v: &Vec3, n: &Vec3, ni_nt: i64, refracted: &mut Vec3) -> (b: bool)
    ensures
        b == (refract_disc_s(v@, n@, ni_nt as int) > 0),
        b ==> final(refracted)@ == refract_dir_s(v@, n@, ni_nt as int),
        !b ==> *final(refracted) == *old(refracted),
{
    let uv: Vec3 = unit_vector(v);
    let dt: i64 = dot(&uv, n);
    let discriminant: i64 = fsub(ONE, fmul(fmul(ni_nt, ni_nt), fsub(ONE, fmul(dt, dt))));
    if discriminant > 0 {
        *refracted = uv.sub(&n.scale(dt)).scale(ni_nt).sub(&n.scale(fsqrt(discriminant)));
        true
    } else {
        false
    }
}

/// The model of `shlick`: Schlick's approximation of Fresnel reflectance
/// for cosine `cos` and refractive index `idx`.
pub open spec fn shlick_s(cos: int, idx: int) -> int {
    let r0 = fmul_s(
        fdiv_s(fsub_s(ONE as int, idx), fadd_s(ONE as int, idx)),
        fdiv_s(fsub_s(ONE as int, idx), fadd_s(ONE as int, idx)),
    );
    let x = fsub_s(ONE as int, cos);
    fadd_s(r0, fmul_s(fsub_s(ONE as int, r0), fmul_s(fmul_s(fmul_s(fmul_s(x, x), x), x), x)))
}

/// Schlick's approximation of Fresnel reflectance.  An index of exactly
/// minus one degenerates the base reflectance to zero.
pub fn shlick(cos: i64, idx: i64) -> (r: i64)
    ensures
        r as int == shlick_s(cos as int, idx as int),
{
    let den: i64 = fadd(ONE, idx);
    let mut r0: i64 = if den == 0 {
        0
    } else {
        fdiv(fsub(ONE, idx), den)
    };
    r0 = fmul(r0, r0);
    let x: i64 = fsub(ONE, cos);
    let x5: i64 = fmul(fmul(fmul(fmul(x, x), x), x), x);
    fadd(r0, fmul(fsub(ONE, r0), x5))
}

/// A random point strictly inside the unit sphere, by rejection sampling
/// over the cube `[-1, 1)^3`.  After a bounded number of rejections the
/// center is returned, so the function always terminates.
pub fn rand_in_unit_sphere() -> (p: Vec3)
    ensures
        vsqlen(p@) < ONE,
{
    let mut tries: usize = 0;
    loop
        invariant
            tries <= 64,
        decreases 64 - tries,
    {
        if tries >= 64 {
            let center: Vec3 = Vec3::new(0, 0, 0);
            proof {
                vstd::arithmetic::div_mod::lemma_div_of0(SCALE as int);
                assert(mag(0) == 0);
                assert(mag(0) * mag(0) == 0);
                assert(fmul_s(0, 0) == 0);
                assert(vsqlen(center@) == 0);
            }
            return center;
        }
        tries = tries + 1;
        let two: i64 = 2 * ONE;
        let p: Vec3 = Vec3::new(random_unit(), random_unit(), random_unit())
            .scale(two)
            .sub(&Vec3::new(ONE, ONE, ONE));
        if p.squared_length() < ONE {
            return p;
        }
    }
}

/// A ray: all points `a + t * b` for a parameter `t`.
#[derive(Clone, Copy, Debug, PartialEq)]
pub struct Ray {
    pub a: Vec3,
    pub b: Vec3,
}

/// The model of `Ray::point_at_param`.
pub open spec fn ray_at_s(r: Ray, t: int) -> Vec3i {
    vadd(r.a@, vscale(t, r.b@))
}

impl Ray {
    pub fn new(a: Vec3, b: Vec3) -> (r: Ray)
        ensures
            r.a == a,
            r.b == b,
    {
        Ray { a, b }
    }

    pub fn origin(&self) -> (r: Vec3)
        ensures
            r == self.a,
    {
        self.a
    }

    pub fn direction(&self) -> (r: Vec3)
        ensures
            r == self.b,
    {
        self.b
    }

    /// The point at parameter `t` along the ray.
    pub fn point_at_param(&self, t: i64) -> (p: Vec3)
        ensures
            p@ == ray_at_s(*self, t as int),
    {
        self.a.add(&self.b.scale(t))
    }
}

/// The result of an intersection query: parametric distance, hit point,
/// outward surface normal, and the material at the hit point.
#[derive(Clone, Copy, Debug, PartialEq)]
pub struct HitRecord {
    pub t: i64,
    pub p: Vec3,
    pub normal: Vec3,
    pub mat: Option<crate::materials::Material>,
}

impl HitRecord {
    pub fn new() -> (r: HitRecord)
        ensures
            r.t == 0,
            r.p@ == (Vec3i { x: 0, y: 0, z: 0 }),
            r.normal@ == (Vec3i { x: 0, y: 0, z: 0 }),
            r.mat is None,
    {
        HitRecord { t: 0, p: Vec3::new(0, 0, 0), normal: Vec3::new(0, 0, 0), mat: None }
    }
}

/// Anything a ray can intersect.  `hit_s` is the mathematical answer of an
/// intersection query over the open parameter range `(t_min, t_max)`; the
/// proof obligations pin down its closest-hit discipline, and `hit` is the
/// executable query, which returns exactly `hit_s`.
pub trait Hit: Sized {
    /// The hit reported for `ray` within the open range `(t_min, t_max)`,
    /// if any.
    spec fn hit_s(&self, ray: Ray, t_min: i64, t_max: i64) -> Option<HitRecord>;

    /// A reported hit lies inside the queried range, carries a material,
    /// and nothing of this primitive is hit strictly closer.
    proof fn lemma_hit_closest(&self, ray: Ray, t_min: i64, t_max: i64)
        requires
            self.hit_s(ray, t_min, t_max) is Some,
        ensures
            ({
                let rec = self.hit_s(ray, t_min, t_max)->Some_0;
                &&& t_min < rec.t < t_max
                &&& rec.mat is Some
                &&& self.hit_s(ray, t_min, rec.t) is None
            }),
    ;

    /// Shrinking the range around a miss keeps it a miss.
    proof fn lemma_hit_shrink(&self, ray: Ray, t_min: i64, tm1: i64, tm2: i64)
        requires
            self.hit_s(ray, t_min, tm2) is None,
            tm1 <= tm2,
        ensures
            self.hit_s(ray, t_min, tm1) is None,
    ;

    /// Intersect `ray` with this primitive over the open range
    /// `(t_min, t_max)`; on a hit the record is overwritten, on a miss it
    /// is left untouched.
    fn hit(&self, ray: &Ray, t_min: i64, t_max: i64, hit_record: &mut HitRecord) -> (res: bool)
        ensures
            match self.hit_s(*ray, t_min, t_max) {
                Some(rec) => res && *final(hit_record) == rec,
                None => !res && *final(hit_record) == *old(hit_record),
            },
    ;
}

/// A sphere with a center, a radius and a surface material.
#[derive(Clone, Copy, Debug, PartialEq)]
pub struct Sphere {
    pub center: Vec3,
    pub radius: i64,
    pub material: crate::materials::Material,
}

impl Sphere {
    pub fn new(center: Vec3, radius: i64, mat: crate::materials::Material) -> (s: Sphere)
        requires
            radius > 0,
        ensures
            s.center == center,
            s.radius == radius,
            s.material == mat,
    {
        Sphere { center, radius, material: mat }
    }

    /// The quadratic coefficient `a = dot(direction, direction)`.
    pub open spec fn qa(self, ray: Ray) -> int {
        vdot(ray.b@, ray.b@)
    }

    /// The half quadratic coefficient `b = dot(origin - center, direction)`.
    pub open spec fn qb(self, ray: Ray) -> int {
        vdot(vsub(ray.a@, self.center@), ray.b@)
    }

    /// The quadratic coefficient `c = dot(oc, oc) - radius^2`.
    pub open spec fn qc(self, ray: Ray) -> int {
        fsub_s(
            vdot(vsub(ray.a@, self.center@), vsub(ray.a@, self.center@)),
            fmul_s(self.radius as int, self.radius as int),
        )
    }

    /// The discriminant `b^2 - a * c`; the ray meets the sphere only if it
    /// is positive.
    pub open spec fn disc(self, ray: Ray) -> int {
        fsub_s(fmul_s(self.qb(ray), self.qb(ray)), fmul_s(self.qa(ray), self.qc(ray)))
    }

    /// The smaller quadratic root `(-b - sqrt(disc)) / a`.
    pub open spec fn root1(self, ray: Ray) -> int {
        fdiv_s(fsub_s(fneg_s(self.qb(ray)), fsqrt_s(self.disc(ray))), self.qa(ray))
    }

    /// The larger quadratic root `(-b + sqrt(disc)) / a`.
    pub open spec fn root2(self, ray: Ray) -> int {
        fdiv_s(fadd_s(fneg_s(self.qb(ray)), fsqrt_s(self.disc(ray))), self.qa(ray))
    }

    /// The record reported for a hit at parameter `t`: the point along the
    /// ray, the outward normal `(p - center) / radius`, and the material.
    pub open spec fn rec_at(self, ray: Ray, t: int) -> HitRecord {
        HitRecord {
            t: t as i64,
            p: vec3_of(ray_at_s(ray, t)),
            normal: vec3_of(
                vscale_inv(vsub(ray_at_s(ray, t), self.center@), self.radius as int),
            ),
            mat: Some(self.material),
        }
    }

    /// The smaller root never exceeds the larger one when the quadratic is
    /// proper.
    proof fn lemma_roots_ordered(self, ray: Ray)
        requires
            self.qa(ray) != 0,
        ensures
            self.root1(ray) <= self.root2(ray),
    {
        crate::vec::lemma_vsqlen_nonneg(ray.b@);
        let b = self.qb(ray);
        let sq = fsqrt_s(self.disc(ray));
        assert(sq >= 0);
        crate::fixed::lemma_clip_mono(fneg_s(b) - sq, fneg_s(b) + sq);
        crate::fixed::lemma_fdiv_mono(fsub_s(fneg_s(b), sq), fadd_s(fneg_s(b), sq), self.qa(ray));
    }
}

impl Hit for Sphere {
    /// A degenerate sphere (zero radius) or a degenerate ray (zero
    /// direction) reports no hit; otherwise the smaller root is tried
    /// first and the larger one second, each against the open range.
    open spec fn hit_s(&self, ray: Ray, t_min: i64, t_max: i64) -> Option<HitRecord> {
        if self.disc(ray) <= 0 || self.qa(ray) == 0 || self.radius == 0 {
            None
        } else if t_min < self.root1(ray) < t_max {
            Some(self.rec_at(ray, self.root1(ray)))
        } else if t_min < self.root2(ray) < t_max {
            Some(self.rec_at(ray, self.root2(ray)))
        } else {
            None
        }
    }

    proof fn lemma_hit_closest(&self, ray: Ray, t_min: i64, t_max: i64) {
        self.lemma_roots_ordered(ray);
        let r1 = self.root1(ray);
        let r2 = self.root2(ray);
        crate::fixed::lemma_fdiv_in_range(
            fsub_s(fneg_s(self.qb(ray)), fsqrt_s(self.disc(ray))),
            self.qa(ray),
        );
        crate::fixed::lemma_fdiv_in_range(
            fadd_s(fneg_s(self.qb(ray)), fsqrt_s(self.disc(ray))),
            self.qa(ray),
        );
        assert(r1 == fdiv_s(fsub_s(fneg_s(self.qb(ray)), fsqrt_s(self.disc(ray))), self.qa(ray)));
        assert(r2 == fdiv_s(fadd_s(fneg_s(self.qb(ray)), fsqrt_s(self.disc(ray))), self.qa(ray)));
    }

    proof fn lemma_hit_shrink(&self, ray: Ray, t_min: i64, tm1: i64, tm2: i64) {
    }

    fn hit(&self, ray: &Ray, t_min: i64, t_max: i64, hit_record: &mut HitRecord) -> (res: bool) {
        let oc: Vec3 = ray.origin().sub(&self.center);
        let a: i64 = dot(&ray.direction(), &ray.direction());
        let b: i64 = dot(&oc, &ray.direction());
        let c: i64 = fsub(dot(&oc, &oc), fmul(self.radius, self.radius));
        let discriminant: i64 = fsub(fmul(b, b), fmul(a, c));
        if discriminant > 0 && a != 0 && self.radius != 0 {
            let sq: i64 = fsqrt(discriminant);
            let temp: i64 = fdiv(fsub(fneg(b), sq), a);
            if temp < t_max && temp > t_min {
                hit_record.t = temp;
                hit_record.p = ray.point_at_param(temp);
                hit_record.normal = hit_record.p.sub(&self.center).scale_inv(self.radius);
                hit_record.mat = Some(self.material);
                return true;
            }
            let temp2: i64 = fdiv(fadd(fneg(b), sq), a);
            if temp2 < t_max && temp2 > t_min {
                hit_record.t = temp2;
                hit_record.p = ray.point_at_param(temp2);
                hit_record.normal = hit_record.p.sub(&self.center).scale_inv(self.radius);
                hit_record.mat = Some(self.material);
                return true;
            }
        }
        false
    }
}

/// The mathematical run of the scene query: primitives are visited left to
/// right, each against a range shrunk to the best hit found so far.
pub open spec fn fold_hit<T: Hit>(
    items: Seq<T>,
    ray: Ray,
    t_min: i64,
    t_max: i64,
    acc: Option<HitRecord>,
) -> Option<HitRecord>
    decreases items.len(),
{
    if items.len() == 0 {
        acc
    } else {
        let bound = match acc {
            Some(r) => r.t,
            None => t_max,
        };
        let next = match items[0].hit_s(ray, t_min, bound) {
            Some(r) => Some(r),
            None => acc,
        };
        fold_hit(items.skip(1), ray, t_min, t_max, next)
    }
}

/// A fold that comes back empty started empty and had every primitive miss
/// the full range.
proof fn lemma_fold_none<T: Hit>(
    items: Seq<T>,
    ray: Ray,
    t_min: i64,
    t_max: i64,
    acc: Option<HitRecord>,
)
    requires
        fold_hit(items, ray, t_min, t_max, acc) is None,
    ensures
        acc is None,
        forall|i: int|
            0 <= i < items.len() ==> (#[trigger] items[i].hit_s(ray, t_min, t_max)) is None,
    decreases items.len(),
{
    if items.len() > 0 {
        let bound = match acc {
            Some(r) => r.t,
            None => t_max,
        };
        let next = match items[0].hit_s(ray, t_min, bound) {
            Some(r) => Some(r),
            None => acc,
        };
        lemma_fold_none(items.skip(1), ray, t_min, t_max, next);
        assert(items[0].hit_s(ray, t_min, bound) is None);
        assert(bound == t_max);
        assert forall|i: int|
            0 <= i < items.len() implies (#[trigger] items[i].hit_s(ray, t_min, t_max)) is None by {
            if i > 0 {
                assert(items.skip(1)[i - 1] == items[i]);
            }
        }
    }
}

/// If every primitive misses the range, the fold of the whole scene misses
/// it too.
proof fn lemma_fold_of_all_none<T: Hit>(items: Seq<T>, ray: Ray, t_min: i64, t_max: i64)
    requires
        forall|i: int|
            0 <= i < items.len() ==> (#[trigger] items[i].hit_s(ray, t_min, t_max)) is None,
    ensures
        fold_hit(items, ray, t_min, t_max, None) is None,
    decreases items.len(),
{
    if items.len() > 0 {
        assert(items[0].hit_s(ray, t_min, t_max) is None);
        assert forall|i: int|
            0 <= i < items.skip(1).len() implies (#[trigger] items.skip(1)[i].hit_s(
            ray,
            t_min,
            t_max,
        )) is None by {
            assert(items.skip(1)[i] == items[i + 1]);
        }
        lemma_fold_of_all_none(items.skip(1), ray, t_min, t_max);
    }
}

/// The hit a fold reports lies in the queried range, carries a material,
/// beats whatever the fold started from, and is hit by no primitive
/// strictly closer.
proof fn lemma_fold_closest<T: Hit>(
    items: Seq<T>,
    ray: Ray,
    t_min: i64,
    t_max: i64,
    acc: Option<HitRecord>,
)
    requires
        fold_hit(items, ray, t_min, t_max, acc) is Some,
        acc matches Some(a) ==> t_min < a.t < t_max && a.mat is Some,
    ensures
        ({
            let rec = fold_hit(items, ray, t_min, t_max, acc)->Some_0;
            &&& t_min < rec.t < t_max
            &&& rec.mat is Some
            &&& forall|i: int|
                0 <= i < items.len() ==> (#[trigger] items[i].hit_s(ray, t_min, rec.t)) is None
            &&& acc matches Some(a) ==> rec.t <= a.t
        }),
    decreases items.len(),
{
    let rec = fold_hit(items, ray, t_min, t_max, acc)->Some_0;
    if items.len() > 0 {
        let bound = match acc {
            Some(r) => r.t,
            None => t_max,
        };
        let first = items[0].hit_s(ray, t_min, bound);
        let next = match first {
            Some(r) => Some(r),
            None => acc,
        };
        if first is Some {
            items[0].lemma_hit_closest(ray, t_min, bound);
        }
        lemma_fold_closest(items.skip(1), ray, t_min, t_max, next);
        assert forall|i: int|
            0 <= i < items.len() implies (#[trigger] items[i].hit_s(ray, t_min, rec.t)) is None by {
            if i == 0 {
                match first {
                    Some(r) => {
                        assert(items[0].hit_s(ray, t_min, r.t) is None);
                        assert(rec.t <= r.t);
                        items[0].lemma_hit_shrink(ray, t_min, rec.t, r.t);
                    },
                    None => {
                        assert(rec.t <= bound);
                        items[0].lemma_hit_shrink(ray, t_min, rec.t, bound);
                    },
                }
            } else {
                assert(items.skip(1)[i - 1] == items[i]);
            }
        }
    }
}

/// An ordered collection of primitives, answering intersection queries
/// with the closest hit among all of them.
pub struct HitList<T: Hit> {
    pub list: Vec<T>,
}

impl<T: Hit> HitList<T> {
    pub fn new(size: usize) -> (r: HitList<T>)
        ensures
            r.list@.len() == 0,
    {
        HitList { list: Vec::with_capacity(size) }
    }

    /// The closest-hit law of the aggregate: whatever hit the scene
    /// reports, no primitive of the scene is hit strictly closer, so the
    /// nearer of two overlapping primitives always wins.
    pub proof fn lemma_scene_closest(&self, ray: Ray, t_min: i64, t_max: i64)
        requires
            self.hit_s(ray, t_min, t_max) is Some,
        ensures
            ({
                let rec = self.hit_s(ray, t_min, t_max)->Some_0;
                forall|i: int|
                    0 <= i < self.list@.len() ==> (#[trigger] self.list@[i].hit_s(
                        ray,
                        t_min,
                        rec.t,
                    )) is None
            }),
    {
        lemma_fold_closest(self.list@, ray, t_min, t_max, None);
    }
}

impl<T: Hit> Hit for HitList<T> {
    open spec fn hit_s(&self, ray: Ray, t_min: i64, t_max: i64) -> Option<HitRecord> {
        fold_hit(self.list@, ray, t_min, t_max, None)
    }

    proof fn lemma_hit_closest(&self, ray: Ray, t_min: i64, t_max: i64) {
        let rec = self.hit_s(ray, t_min, t_max)->Some_0;
        lemma_fold_closest(self.list@, ray, t_min, t_max, None);
        lemma_fold_of_all_none(self.list@, ray, t_min, rec.t);
    }

    proof fn lemma_hit_shrink(&self, ray: Ray, t_min: i64, tm1: i64, tm2: i64) {
        lemma_fold_none(self.list@, ray, t_min, tm2, None);
        assert forall|i: int|
            0 <= i < self.list@.len() implies (#[trigger] self.list@[i].hit_s(
            ray,
            t_min,
            tm1,
        )) is None by {
            self.list@[i].lemma_hit_shrink(ray, t_min, tm1, tm2);
        }
        lemma_fold_of_all_none(self.list@, ray, t_min, tm1);
    }

    fn hit(&self, ray: &Ray, t_min: i64, t_max: i64, hit_record: &mut HitRecord) -> (res: bool) {
        let ghost all = self.list@;
        let mut hit_anything: bool = false;
        let mut closest: i64 = t_max;
        let mut i: usize = 0;
        proof {
            assert(all.skip(0) =~= all);
        }
        while i < self.list.len()
            invariant
                i <= all.len(),
                self.list@ == all,
                closest == (if hit_anything {
                    (*hit_record).t
                } else {
                    t_max
                }),
                !hit_anything ==> *hit_record == *old(hit_record),
                fold_hit(all, *ray, t_min, t_max, None) == fold_hit(
                    all.skip(i as int),
                    *ray,
                    t_min,
                    t_max,
                    if hit_anything {
                        Some(*hit_record)
                    } else {
                        None
                    },
                ),
            decreases all.len() - i,
        {
            let item: &T = &self.list[i];
            let result: bool = item.hit(ray, t_min, closest, hit_record);
            proof {
                assert(all.skip(i as int)[0] == all[i as int]);
                assert(all.skip(i as int).skip(1) =~= all.skip(i as int + 1));
            }
            if result {
                hit_anything = true;
                closest = hit_record.t;
            }
            i = i + 1;
        }
        proof {
            assert(all.skip(all.len() as int).len() == 0);
        }
        hit_anything
    }
}

} // verus!
