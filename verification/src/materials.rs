//! Surface materials and their light-scattering behaviour.
//!
//! A material takes an incoming ray and a hit record and produces an
//! attenuation color together with a scattered ray, or absorbs the ray.
//! The three kinds — diffuse, reflective and refractive — are the variants
//! of the `Material` sum type, dispatched by tag.  `scatter_writes` is the
//! exact relation every scatter call establishes between its inputs and
//! outputs, and `scatter_succeeds` says when the ray survives.

use vstd::prelude::*;
use crate::fixed::{fdiv, fdiv_s, fneg, ONE};
use crate::vec::{vadd, vdot, vscale, vsqlen, vsub, vunit, Vec3, Vec3i};
use crate::{
    dot, rand_in_unit_sphere, random_unit, reflect, reflect_s, refract, refract_dir_s,
    refract_disc_s, shlick, unit_vector, HitRecord, Ray,
};

verus! {

/// A diffuse surface with a base color.
#[derive(Clone, Copy, Debug, PartialEq)]
pub struct Lambertian {
    pub albedo: Vec3,
}

impl Lambertian {
    pub fn new(vec: Vec3) -> (r: Lambertian)
        ensures
            r.albedo == vec,
    {
        Lambertian { albedo: vec }
    }
}

/// A specular surface with a base color and a roughness scalar.
#[derive(Clone, Copy, Debug, PartialEq)]
pub struct Metal {
    pub albedo: Vec3,
    pub fuzz: i64,
}

impl Metal {
    pub fn new(vec: Vec3, fuzz: i64) -> (r: Metal)
        ensures
            r.albedo == vec,
            r.fuzz == fuzz,
    {
        Metal { albedo: vec, fuzz }
    }
}

/// A transparent refractive surface with a refractive index.
#[derive(Clone, Copy, Debug, PartialEq)]
pub struct Dielectric {
    pub index: i64,
}

impl Dielectric {
    pub fn new(idx: i64) -> (r: Dielectric)
        ensures
            r.index == idx,
    {
        Dielectric { index: idx }
    }
}

/// A surface material: one of the three scattering behaviours.
#[derive(Clone, Copy, Debug, PartialEq)]
pub enum Material {
    Lambertian(Lambertian),
    Metal(Metal),
    Dielectric(Dielectric),
}

/// The outward normal a dielectric refracts against: flipped when the ray
/// leaves the medium (its direction and the surface normal agree).
pub open spec fn dielectric_outward(ray: Ray, rec: HitRecord) -> Vec3i {
    if vdot(ray.b@, rec.normal@) > 0 {
        vscale(-(ONE as int), rec.normal@)
    } else {
        rec.normal@
    }
}

/// The refractive-index ratio a dielectric refracts with: the index when
/// the ray leaves the medium, its reciprocal when it enters.
pub open spec fn dielectric_ratio(d: Dielectric, ray: Ray, rec: HitRecord) -> int {
    if vdot(ray.b@, rec.normal@) > 0 {
        d.index as int
    } else {
        fdiv_s(ONE as int, d.index as int)
    }
}

/// The directions a dielectric can scatter into.  When refraction is
/// geometrically impossible (total internal reflection) the direction is
/// the pure reflection, with no alternative; otherwise the material
/// chooses between reflection and refraction.
pub open spec fn dielectric_dir_ok(d: Dielectric, ray: Ray, rec: HitRecord, dir: Vec3i) -> bool {
    let outward = dielectric_outward(ray, rec);
    let ni_nt = dielectric_ratio(d, ray, rec);
    let refl = reflect_s(ray.b@, rec.normal@);
    if refract_disc_s(ray.b@, outward, ni_nt) > 0 {
        dir == refl || dir == refract_dir_s(ray.b@, outward, ni_nt)
    } else {
        dir == refl
    }
}

/// What every scatter call writes: the scattered ray starts at the hit
/// point, and attenuation and direction are fixed by the material (up to
/// the random sample drawn inside the unit sphere).
pub open spec fn scatter_writes(
    m: Material,
    ray: Ray,
    rec: HitRecord,
    att: Vec3,
    sc: Ray,
) -> bool {
    &&& sc.a == rec.p
    &&& match m {
        Material::Lambertian(l) => {
            &&& att == l.albedo
            &&& exists|s: Vec3|
                vsqlen(s@) < ONE as int && sc.b@ == vsub(
                    vadd(vadd(rec.p@, rec.normal@), s@),
                    rec.p@,
                )
        },
        Material::Metal(mm) => {
            &&& att == mm.albedo
            &&& exists|s: Vec3|
                vsqlen(s@) < ONE as int && sc.b@ == vadd(
                    reflect_s(vunit(ray.b@), rec.normal@),
                    vscale(mm.fuzz as int, s@),
                )
        },
        Material::Dielectric(d) => {
            &&& att@ == (Vec3i { x: ONE as int, y: ONE as int, z: ONE as int })
            &&& dielectric_dir_ok(d, ray, rec, sc.b@)
        },
    }
}

/// When a scatter call reports that the ray survives: always, except that
/// a metal absorbs a perturbed reflection bent into the surface.
pub open spec fn scatter_succeeds(m: Material, rec: HitRecord, sc: Ray) -> bool {
    match m {
        Material::Metal(_) => vdot(sc.b@, rec.normal@) > 0,
        _ => true,
    }
}

/// Under total internal reflection a dielectric scatters by pure
/// reflection with probability one: no other direction satisfies its
/// scatter relation.
pub proof fn lemma_dielectric_tir(d: Dielectric, ray: Ray, rec: HitRecord, att: Vec3, sc: Ray)
    requires
        refract_disc_s(ray.b@, dielectric_outward(ray, rec), dielectric_ratio(d, ray, rec)) <= 0,
        scatter_writes(Material::Dielectric(d), ray, rec, att, sc),
    ensures
        sc.b@ == reflect_s(ray.b@, rec.normal@),
{
}

impl Lambertian {
    /// Diffuse scattering: a new ray from the hit point toward the normal
    /// jittered inside the unit sphere; the ray always survives.
    pub fn scatter(
        &self,
        _ray: &Ray,
        hit_record: &HitRecord,
        attenuation: &mut Vec3,
        scattered: &mut Ray,
    ) -> (b: bool)
        ensures
            b,
            scatter_writes(
                Material::Lambertian(*self),
                *_ray,
                *hit_record,
                *final(attenuation),
                *final(scattered),
            ),
    {
        let rnd: Vec3 = rand_in_unit_sphere();
        let target: Vec3 = hit_record.p.add(&hit_record.normal).add(&rnd);
        *scattered = Ray::new(hit_record.p, target.sub(&hit_record.p));
        *attenuation = self.albedo;
        proof {
            assert(vsqlen(rnd@) < ONE as int && (*scattered).b@ == vsub(
                vadd(vadd(hit_record.p@, hit_record.normal@), rnd@),
                hit_record.p@,
            ));
        }
        true
    }
}

impl Metal {
    /// Specular scattering: the reflected direction perturbed by the
    /// roughness; the ray survives only while it still leaves the surface.
    pub fn scatter(
        &self,
        ray: &Ray,
        hit_record: &HitRecord,
        attenuation: &mut Vec3,
        scattered: &mut Ray,
    ) -> (b: bool)
        ensures
            scatter_writes(
                Material::Metal(*self),
                *ray,
                *hit_record,
                *final(attenuation),
                *final(scattered),
            ),
            b == scatter_succeeds(Material::Metal(*self), *hit_record, *final(scattered)),
    {
        let refl: Vec3 = reflect(&unit_vector(&ray.direction()), &hit_record.normal);
        let rnd: Vec3 = rand_in_unit_sphere();
        *scattered = Ray::new(hit_record.p, refl.add(&rnd.scale(self.fuzz)));
        *attenuation = self.albedo;
        proof {
            assert(vsqlen(rnd@) < ONE as int && (*scattered).b@ == vadd(
                reflect_s(vunit(ray.b@), hit_record.normal@),
                vscale(self.fuzz as int, rnd@),
            ));
        }
        dot(&scattered.direction(), &hit_record.normal) > 0
    }
}

impl Dielectric {
    /// Refractive scattering: the ray always survives and goes either to
    /// the reflection or, where Snell's law admits one, to the refraction,
    /// chosen by comparing a uniform draw against Schlick's reflectance.
    /// The reflectance uses the standard cosine of incidence,
    /// `-dot(direction, normal) / length(direction)` on entry and its
    /// negation on exit.
    pub fn scatter(
        &self,
        ray: &Ray,
        hit_record: &HitRecord,
        attenuation: &mut Vec3,
        scattered: &mut Ray,
    ) -> (b: bool)
        ensures
            b,
            scatter_writes(
                Material::Dielectric(*self),
                *ray,
                *hit_record,
                *final(attenuation),
                *final(scattered),
            ),
    {
        let outward_normal: Vec3;
        let reflected: Vec3 = reflect(&ray.direction(), &hit_record.normal);
        let ni_nt: i64;
        *attenuation = Vec3::new(ONE, ONE, ONE);
        let mut refracted: Vec3 = Vec3::new(0, 0, 0);
        let reflect_prob: i64;
        let cos: i64;
        let d: i64 = dot(&ray.direction(), &hit_record.normal);
        let len: i64 = ray.direction().length();
        if d > 0 {
            outward_normal = hit_record.normal.scale(-ONE);
            ni_nt = self.index;
            cos = if len == 0 {
                0
            } else {
                fdiv(d, len)
            };
        } else {
            outward_normal = hit_record.normal;
            ni_nt = if self.index == 0 {
                0
            } else {
                fdiv(ONE, self.index)
            };
            cos = if len == 0 {
                0
            } else {
                fdiv(fneg(d), len)
            };
        }
        if refract(&ray.direction(), &outward_normal, ni_nt, &mut refracted) {
            reflect_prob = shlick(cos, self.index);
        } else {
            *scattered = Ray::new(hit_record.p, reflected);
            reflect_prob = ONE;
        }
        if random_unit() < reflect_prob {
            *scattered = Ray::new(hit_record.p, reflected);
        } else {
            *scattered = Ray::new(hit_record.p, refracted);
        }
        true
    }
}

impl Material {
    /// Scatter the incoming ray with the behaviour of this material.
    pub fn scatter(
        &self,
        ray: &Ray,
        hit_record: &HitRecord,
        attenuation: &mut Vec3,
        scattered: &mut Ray,
    ) -> (b: bool)
        ensures
            scatter_writes(*self, *ray, *hit_record, *final(attenuation), *final(scattered)),
            b == scatter_succeeds(*self, *hit_record, *final(scattered)),
    {
        match self {
            Material::Lambertian(l) => l.scatter(ray, hit_record, attenuation, scattered),
            Material::Metal(m) => m.scatter(ray, hit_record, attenuation, scattered),
            Material::Dielectric(d) => d.scatter(ray, hit_record, attenuation, scattered),
        }
    }
}

} // verus!
