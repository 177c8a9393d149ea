//! The thin-lens camera.
//!
//! From eye position, target, up vector, viewport shape and lens
//! parameters the camera derives an orthonormal basis and the viewport
//! geometry, and then maps normalized image coordinates to primary rays,
//! jittering the ray origin inside the lens disk for depth of field.
//!
//! The vertical field of view enters as the tangent of half the view
//! angle, a plain fixed-point scalar; turning an angle in degrees into
//! that tangent is trigonometry and is left to the caller.

use vstd::prelude::*;
use crate::fixed::{fmul, fmul_s, ONE};
use crate::vec::{vadd, vcross, vdot, vec3_of, vscale, vsub, vunit, Vec3, Vec3i};
use crate::{cross, dot, random_unit, unit_vector, Ray};

verus! {

/// A camera: precomputed viewport geometry, an orthonormal basis and the
/// lens radius.
#[derive(Clone, Copy, Debug, PartialEq)]
pub struct Camera {
    pub lower_left: Vec3,
    pub horizontal: Vec3,
    pub vertical: Vec3,
    pub origin: Vec3,
    pub u: Vec3,
    pub v: Vec3,
    pub w: Vec3,
    pub lens_radius: i64,
}

impl Default for Camera {
    /// A camera with everything at zero, to be filled by `Camera::new`.
    fn default() -> (c: Camera)
        ensures
            c.lower_left@ == (Vec3i { x: 0, y: 0, z: 0 }),
            c.horizontal@ == (Vec3i { x: 0, y: 0, z: 0 }),
            c.vertical@ == (Vec3i { x: 0, y: 0, z: 0 }),
            c.origin@ == (Vec3i { x: 0, y: 0, z: 0 }),
            c.u@ == (Vec3i { x: 0, y: 0, z: 0 }),
            c.v@ == (Vec3i { x: 0, y: 0, z: 0 }),
            c.w@ == (Vec3i { x: 0, y: 0, z: 0 }),
            c.lens_radius == 0,
    {
        Camera {
            lower_left: Vec3::origin(),
            horizontal: Vec3::origin(),
            vertical: Vec3::origin(),
            origin: Vec3::origin(),
            u: Vec3::origin(),
            v: Vec3::origin(),
            w: Vec3::origin(),
            lens_radius: 0,
        }
    }
}

/// A random point strictly inside the unit disk of the lens plane, by
/// rejection sampling; after a bounded number of rejections the center is
/// returned, so the function always terminates.
fn random_unit_in_disk() -> (p: Vec3)
    ensures
        vdot(p@, p@) < ONE as int,
        p@.z == 0,
{
    let mut tries: usize = 0;
    loop
        invariant
            tries <= 64,
        decreases 64 - tries,
    {
        if tries >= 64 {
            let center: Vec3 = Vec3::new(0, 0, 0);
            proof {
                crate::fixed::lemma_fmul_zero(0);
                assert(vdot(center@, center@) == 0);
            }
            return center;
        }
        tries = tries + 1;
        let two: i64 = 2 * ONE;
        let p: Vec3 = Vec3::new(random_unit(), random_unit(), 0)
            .scale(two)
            .sub(&Vec3::new(ONE, ONE, 0));
        proof {
            crate::fixed::lemma_fmul_zero(2 * ONE);
            assert(p@.z == 0);
        }
        if dot(&p, &p) < ONE {
            return p;
        }
    }
}

impl Camera {
    /// Build a camera looking from `look_from` toward `look_at`.
    /// `half_height` is the tangent of half the vertical field of view;
    /// `aspect` is width over height; `aperture` is the lens diameter;
    /// `focus` is the distance to the plane in focus.
    pub fn new(
        look_from: Vec3,
        look_at: Vec3,
        vup: Vec3,
        half_height: i64,
        aspect: i64,
        aperture: i64,
        focus: i64,
    ) -> (c: Camera)
        ensures
            c.origin == look_from,
            c.w@ == vunit(vsub(look_from@, look_at@)),
            c.u@ == vunit(vcross(vup@, vunit(vsub(look_from@, look_at@)))),
            c.v@ == vcross(c.w@, c.u@),
            c.lens_radius as int == fdiv2_s(aperture as int),
            c.lower_left@ == vsub(
                vsub(
                    vsub(
                        look_from@,
                        vscale(
                            fmul_s(fmul_s(aspect as int, half_height as int), focus as int),
                            c.u@,
                        ),
                    ),
                    vscale(fmul_s(half_height as int, focus as int), c.v@),
                ),
                vscale(focus as int, c.w@),
            ),
            c.horizontal@ == vscale(
                fmul_s(fmul_s(2 * ONE, fmul_s(aspect as int, half_height as int)), focus as int),
                c.u@,
            ),
            c.vertical@ == vscale(
                fmul_s(fmul_s(2 * ONE, half_height as int), focus as int),
                c.v@,
            ),
    {
        let half_width: i64 = fmul(aspect, half_height);
        let two: i64 = 2 * ONE;
        let w: Vec3 = unit_vector(&look_from.sub(&look_at));
        let u: Vec3 = unit_vector(&cross(&vup, &w));
        let v: Vec3 = cross(&w, &u);
        let lower_left: Vec3 = look_from
            .sub(&u.scale(fmul(half_width, focus)))
            .sub(&v.scale(fmul(half_height, focus)))
            .sub(&w.scale(focus));
        Camera {
            lower_left,
            horizontal: u.scale(fmul(fmul(two, half_width), focus)),
            vertical: v.scale(fmul(fmul(two, half_height), focus)),
            origin: look_from,
            u,
            v,
            w,
            lens_radius: half_of(aperture),
        }
    }

    /// The ray this camera casts toward the normalized image coordinates
    /// `(s, t)`, its origin offset by the sample `dsk` in the lens disk.
    pub open spec fn ray_for(self, s: int, t: int, dsk: Vec3i) -> Ray {
        let rd = vscale(self.lens_radius as int, dsk);
        let offset = vadd(vscale(rd.x, self.u@), vscale(rd.y, self.v@));
        Ray {
            a: vec3_of(vadd(self.origin@, offset)),
            b: vec3_of(
                vsub(
                    vsub(
                        vadd(
                            vadd(self.lower_left@, vscale(s, self.horizontal@)),
                            vscale(t, self.vertical@),
                        ),
                        self.origin@,
                    ),
                    offset,
                ),
            ),
        }
    }

    /// The primary ray for the normalized image coordinates `(s, t)`, with
    /// the origin jittered inside the lens disk.
    pub fn ray(&self, s: i64, t: i64) -> (r: Ray)
        ensures
            exists|dsk: Vec3|
                vdot(dsk@, dsk@) < ONE as int && dsk@.z == 0 && r == self.ray_for(
                    s as int,
                    t as int,
                    dsk@,
                ),
    {
        let dsk: Vec3 = random_unit_in_disk();
        let rd: Vec3 = dsk.scale(self.lens_radius);
        let offset: Vec3 = self.u.scale(rd.x()).add(&self.v.scale(rd.y()));
        let r: Ray = Ray::new(
            self.origin.add(&offset),
            self
                .lower_left
                .add(&self.horizontal.scale(s))
                .add(&self.vertical.scale(t))
                .sub(&self.origin)
                .sub(&offset),
        );
        proof {
            assert(vdot(dsk@, dsk@) < ONE as int && dsk@.z == 0 && r == self.ray_for(
                s as int,
                t as int,
                dsk@,
            ));
        }
        r
    }
}

/// Half of a fixed-point scalar: the product with one half.
pub open spec fn fdiv2_s(a: int) -> int {
    fmul_s(a, 32768)
}

/// Half of a fixed-point scalar: the product with one half.
fn half_of(a: i64) -> (r: i64)
    ensures
        r as int == fdiv2_s(a as int),
{
    fmul(a, 32768)
}

} // verus!
