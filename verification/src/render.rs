//! The radiance integrator and the per-pixel estimator.
//!
//! `radiance` follows a ray through the scene: on a miss it returns the
//! sky gradient, on a hit it asks the material to scatter and recurses,
//! multiplying the attenuations, and it terminates on absorption or at the
//! bounce limit.  `pixel_color` averages many jittered samples and
//! quantizes the result to 8-bit channels through `quantize_channel`; its
//! contract names the sequence of samples, each one an admissible
//! radiance value for a jittered camera ray of the pixel.

use vstd::prelude::*;
use crate::camera::Camera;
use crate::fixed::{
    fadd, fadd_s, fdiv_s, fmul, fmul_s, fsqrt, fsqrt_s, fsub, fsub_s, mag, ONE, SCALE,
};
use crate::materials::{scatter_writes, Material};
use crate::vec::{vadd, vdot, vmul, vscale, vscale_inv, vunit, Vec3, Vec3i};
use crate::{random_unit, unit_vector, Hit, HitRecord, Ray};

verus! {

/// The lower bound of the hit range: a little above zero, so that a ray
/// scattered off a surface does not immediately hit it again.
pub const HIT_EPS: i64 = 66;

/// The bounce limit of the integrator.
pub const DEPTH_LIMIT: i32 = 50;

/// 255.99 in fixed point: the quantization scale of an 8-bit channel.
pub const CHANNEL_SCALE: i64 = 16776560;

/// Black: the color of an absorbed ray.
pub open spec fn black_s() -> Vec3i {
    Vec3i { x: 0, y: 0, z: 0 }
}

/// A color whose components all lie between zero and one.
pub open spec fn within_gamut(c: Vec3i) -> bool {
    &&& 0 <= c.x <= ONE as int
    &&& 0 <= c.y <= ONE as int
    &&& 0 <= c.z <= ONE as int
}

/// The sky gradient a missing ray sees: white blended toward sky blue by
/// the vertical component of the unit direction.
pub open spec fn background_s(dir: Vec3i) -> Vec3i {
    let t = fmul_s(32768, fadd_s(vunit(dir).y, ONE as int));
    vadd(
        vscale(fsub_s(ONE as int, t), Vec3i { x: ONE as int, y: ONE as int, z: ONE as int }),
        vscale(t, Vec3i { x: 32768, y: 45875, z: ONE as int }),
    )
}

/// The sky gradient is a color within the unit gamut whenever the unit
/// direction's vertical component is itself within one of zero.  (The
/// truncated unit vector of a direction shorter than a handful of raw
/// steps can leave that band, and the gradient then overshoots.)
pub proof fn lemma_background_within_gamut(dir: Vec3i)
    requires
        mag(vunit(dir).y) <= ONE as int,
    ensures
        within_gamut(background_s(dir)),
{
    let one = ONE as int;
    let u = vunit(dir).y;
    let a = fadd_s(u, one);
    assert(a == u + one);
    assert(32768 * a >= 0) by (nonlinear_arith)
        requires
            a >= 0,
    ;
    assert(32768 * a <= 65536int * 65536) by (nonlinear_arith)
        requires
            a <= 131072,
    ;
    vstd::arithmetic::div_mod::lemma_div_is_ordered(32768 * a, 65536int * 65536, 65536);
    vstd::arithmetic::div_mod::lemma_div_by_multiple(65536, 65536);
    vstd::arithmetic::div_mod::lemma_div_pos_is_pos(32768 * a, 65536);
    let t = fmul_s(32768, a);
    assert(0 <= t <= one);
    let s1 = fsub_s(one, t);
    assert(s1 == one - t);
    crate::fixed::lemma_fmul_unit_factor(s1, one);
    crate::fixed::lemma_fmul_unit_factor(s1, 32768);
    crate::fixed::lemma_fmul_unit_factor(s1, 45875);
    crate::fixed::lemma_fmul_unit_factor(t, one);
    crate::fixed::lemma_fmul_unit_factor(t, 32768);
    crate::fixed::lemma_fmul_unit_factor(t, 45875);
}

/// Attenuating one gamut color by another stays within the gamut, so a
/// scatter with a gamut albedo keeps whatever bound the gathered radiance
/// has.
pub proof fn lemma_vmul_within_gamut(a: Vec3i, b: Vec3i)
    requires
        within_gamut(a),
        within_gamut(b),
    ensures
        within_gamut(vmul(a, b)),
{
    crate::fixed::lemma_fmul_unit_factor(a.x, b.x);
    crate::fixed::lemma_fmul_unit_factor(a.y, b.y);
    crate::fixed::lemma_fmul_unit_factor(a.z, b.z);
}

/// What the integrator promises of a returned color `c` for a query ray
/// at a given recursion depth: a miss is exactly the sky gradient (a
/// gamut color for any well-scaled direction), a hit at the bounce limit
/// is exactly black, and below the limit a hit is either absorbed or an
/// admissible scatter attenuation times some recursively gathered color.
pub open spec fn radiance_ok<T: Hit>(ray: Ray, world: T, depth: int, c: Vec3) -> bool {
    &&& (world.hit_s(ray, HIT_EPS, i64::MAX) is None ==> c@ == background_s(ray.b@))
    &&& (world.hit_s(ray, HIT_EPS, i64::MAX) is None && mag(vunit(ray.b@).y) <= ONE as int
        ==> within_gamut(c@))
    &&& (world.hit_s(ray, HIT_EPS, i64::MAX) is Some && depth >= DEPTH_LIMIT as int ==> c@
        == black_s())
    &&& (depth < DEPTH_LIMIT as int ==> (world.hit_s(ray, HIT_EPS, i64::MAX) matches Some(rec)
        ==> (c@ == black_s() || exists|att: Vec3, sc: Ray, rest: Vec3|
            scatter_writes(rec.mat->Some_0, ray, rec, att, sc) && c@ == vmul(att@, rest@))))
}

/// The radiance along `ray` through the scene `world` at recursion depth
/// `depth`.  A miss sees the sky gradient; a hit at the bounce limit, or
/// one whose material absorbs the ray, is black; otherwise the scattered
/// radiance is attenuated by the material's color.
pub fn radiance<T: Hit>(ray: &Ray, world: &T, depth: i32) -> (c: Vec3)
    ensures
        radiance_ok(*ray, *world, depth as int, c),
    decreases DEPTH_LIMIT - depth,
{
    let mut hit_record: HitRecord = HitRecord::new();
    if world.hit(ray, HIT_EPS, i64::MAX, &mut hit_record) {
        if depth < DEPTH_LIMIT {
            let mut scattered: Ray = Ray::new(Vec3::new(0, 0, 0), Vec3::new(0, 0, 0));
            let mut attenuation: Vec3 = Vec3::new(0, 0, 0);
            if let Some(m) = hit_record.mat {
                if m.scatter(ray, &hit_record, &mut attenuation, &mut scattered) {
                    let rest: Vec3 = radiance(&scattered, world, depth + 1);
                    let c: Vec3 = attenuation.mul(&rest);
                    proof {
                        assert(scatter_writes(m, *ray, hit_record, attenuation, scattered)
                            && c@ == vmul(attenuation@, rest@));
                    }
                    return c;
                }
            }
        }
        Vec3::new(0, 0, 0)
    } else {
        let unit_direction: Vec3 = unit_vector(&ray.direction());
        let t: i64 = fmul(32768, fadd(unit_direction.y(), ONE));
        let c: Vec3 = Vec3::new(ONE, ONE, ONE).scale(fsub(ONE, t)).add(
            &Vec3::new(32768, 45875, ONE).scale(t),
        );
        proof {
            if mag(vunit(ray.b@).y) <= ONE as int {
                lemma_background_within_gamut(ray.b@);
            }
        }
        c
    }
}

/// The 8-bit value of one linear color channel: negatives clamp to zero,
/// the rest is gamma-corrected by square root, scaled by 255.99,
/// truncated, and capped at 255.
pub open spec fn quantize_s(c: int) -> int {
    if c <= 0 {
        0
    } else {
        let q = fmul_s(fsqrt_s(c), CHANNEL_SCALE as int) / (SCALE as int);
        if q > 255 {
            255
        } else {
            q
        }
    }
}

/// Quantize one linear color channel to an 8-bit value.
pub fn quantize_channel(c: i64) -> (r: i32)
    ensures
        r as int == quantize_s(c as int),
        0 <= r <= 255,
{
    if c <= 0 {
        0
    } else {
        let s: i64 = fsqrt(c);
        let v: i64 = fmul(s, CHANNEL_SCALE);
        proof {
            crate::fixed::lemma_fmul_nonneg(s as int, CHANNEL_SCALE as int);
        }
        let q: u64 = (v as u64) / 65536u64;
        if q > 255 {
            255
        } else {
            q as i32
        }
    }
}

/// The sum of a sequence of sample colors, accumulated left to right.
pub open spec fn sum_colors(samples: Seq<Vec3>) -> Vec3i
    decreases samples.len(),
{
    if samples.len() == 0 {
        Vec3i { x: 0, y: 0, z: 0 }
    } else {
        vadd(sum_colors(samples.drop_last()), samples.last()@)
    }
}

/// An admissible radiance sample for pixel `(i, j)` of an `nx` by `ny`
/// image: the radiance of a camera ray cast at image coordinates jittered
/// within the pixel, with some lens-disk sample.
pub open spec fn sample_ok<T: Hit>(
    camera: Camera,
    world: T,
    i: int,
    j: int,
    nx: int,
    ny: int,
    c: Vec3,
) -> bool {
    exists|ru: int, rv: int, dsk: Vec3|
        {
            &&& 0 <= ru < ONE as int
            &&& 0 <= rv < ONE as int
            &&& vdot(dsk@, dsk@) < ONE as int
            &&& dsk@.z == 0
            &&& (#[trigger] radiance_ok(
                camera.ray_for(
                    fdiv_s(i * (ONE as int) + ru, nx * (ONE as int)),
                    fdiv_s(j * (ONE as int) + rv, ny * (ONE as int)),
                    dsk@,
                ),
                world,
                0,
                c,
            ))
        }
}

/// The color of one pixel: the average of `ns` independent jittered
/// samples through the camera, gamma-corrected and quantized per channel.
/// Pixel `(i, j)` lies in an image of `nx` columns and `ny` rows.  The
/// result is the per-channel quantization of the average of `ns` sample
/// colors, each an admissible radiance sample of this pixel.
pub fn pixel_color<T: Hit>(
    camera: &Camera,
    world: &T,
    i: usize,
    j: usize,
    nx: usize,
    ny: usize,
    ns: usize,
) -> (rgb: (i32, i32, i32))
    requires
        1 <= ns <= 65536,
        1 <= nx <= 1048576,
        1 <= ny <= 1048576,
        i <= nx,
        j <= ny,
    ensures
        0 <= rgb.0 <= 255,
        0 <= rgb.1 <= 255,
        0 <= rgb.2 <= 255,
        exists|samples: Seq<Vec3>|
            {
                &&& samples.len() == ns
                &&& (forall|k: int|
                    0 <= k < samples.len() ==> sample_ok(
                        *camera,
                        *world,
                        i as int,
                        j as int,
                        nx as int,
                        ny as int,
                        #[trigger] samples[k],
                    ))
                &&& rgb.0 as int == quantize_s(
                    vscale_inv(sum_colors(samples), ns * (ONE as int)).x,
                )
                &&& rgb.1 as int == quantize_s(
                    vscale_inv(sum_colors(samples), ns * (ONE as int)).y,
                )
                &&& rgb.2 as int == quantize_s(
                    vscale_inv(sum_colors(samples), ns * (ONE as int)).z,
                )
            },
{
    let mut col: Vec3 = Vec3::new(0, 0, 0);
    let ghost mut samples: Seq<Vec3> = Seq::empty();
    let mut s: usize = 0;
    while s < ns
        invariant
            s <= ns,
            ns <= 65536,
            1 <= nx <= 1048576,
            1 <= ny <= 1048576,
            i <= nx,
            j <= ny,
            samples.len() == s,
            col@ == sum_colors(samples),
            forall|k: int|
                0 <= k < samples.len() ==> sample_ok(
                    *camera,
                    *world,
                    i as int,
                    j as int,
                    nx as int,
                    ny as int,
                    #[trigger] samples[k],
                ),
        decreases ns - s,
    {
        let ru: i64 = random_unit();
        let rv: i64 = random_unit();
        let u: i64 = crate::fixed::fdiv(fadd((i as i64) * ONE, ru), (nx as i64) * ONE);
        let v: i64 = crate::fixed::fdiv(fadd((j as i64) * ONE, rv), (ny as i64) * ONE);
        let ray: Ray = camera.ray(u, v);
        let sample: Vec3 = radiance(&ray, world, 0);
        col = col.add(&sample);
        proof {
            let dsk = choose|dsk: Vec3|
                vdot(dsk@, dsk@) < ONE as int && dsk@.z == 0 && ray == camera.ray_for(
                    u as int,
                    v as int,
                    dsk@,
                );
            assert(u as int == fdiv_s(i as int * (ONE as int) + ru, nx as int * (ONE as int)));
            assert(v as int == fdiv_s(j as int * (ONE as int) + rv, ny as int * (ONE as int)));
            assert(radiance_ok(
                camera.ray_for(
                    fdiv_s(i as int * (ONE as int) + ru, nx as int * (ONE as int)),
                    fdiv_s(j as int * (ONE as int) + rv, ny as int * (ONE as int)),
                    dsk@,
                ),
                *world,
                0,
                sample,
            ));
            assert(sample_ok(
                *camera,
                *world,
                i as int,
                j as int,
                nx as int,
                ny as int,
                sample,
            ));
            let old_samples = samples;
            samples = samples.push(sample);
            assert(samples.drop_last() =~= old_samples);
            assert(samples.last() == sample);
            assert forall|k: int|
                0 <= k < samples.len() implies sample_ok(
                *camera,
                *world,
                i as int,
                j as int,
                nx as int,
                ny as int,
                #[trigger] samples[k],
            ) by {
                if k < samples.len() - 1 {
                    assert(samples[k] == old_samples[k]);
                } else {
                    assert(samples[k] == sample);
                }
            }
        }
        s = s + 1;
    }
    let col_avg: Vec3 = col.scale_inv((ns as i64) * ONE);
    let q0: i32 = quantize_channel(col_avg.x());
    let q1: i32 = quantize_channel(col_avg.y());
    let q2: i32 = quantize_channel(col_avg.z());
    proof {
        assert(col_avg@ == vscale_inv(sum_colors(samples), ns * (ONE as int)));
        assert(samples.len() == ns && q0 as int == quantize_s(
            vscale_inv(sum_colors(samples), ns * (ONE as int)).x,
        ) && q1 as int == quantize_s(vscale_inv(sum_colors(samples), ns * (ONE as int)).y)
            && q2 as int == quantize_s(vscale_inv(sum_colors(samples), ns * (ONE as int)).z));
    }
    (q0, q1, q2)
}

} // verus!
