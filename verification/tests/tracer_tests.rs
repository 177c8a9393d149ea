use tracer::camera::Camera;
use tracer::fixed::ONE;
use tracer::materials::{Dielectric, Lambertian, Material, Metal};
use tracer::render::{pixel_color, quantize_channel, radiance};
use tracer::vec::Vec3;
use tracer::{
    cross, dot, rand_in_unit_sphere, reflect, refract, shlick, unit_vector, Hit, HitList,
    HitRecord, Ray, Sphere,
};

fn grey(level: i64) -> Material {
    Material::Lambertian(Lambertian::new(Vec3::new(level, level, level)))
}

#[test]
fn vec3_vec3_div() {
    let rhs = Vec3::new(4 * ONE, ONE, ONE);
    let lhs = Vec3::new(2 * ONE, ONE, ONE);
    let new = rhs.div(&lhs);
    assert_eq!(new, Vec3::new(2 * ONE, ONE, ONE));
}

#[test]
fn vec3_vec3_mul() {
    let rhs = Vec3::new(4 * ONE, ONE, ONE);
    let lhs = Vec3::new(2 * ONE, ONE, ONE);
    let new = rhs.mul(&lhs);
    assert_eq!(new, Vec3::new(8 * ONE, ONE, ONE));
}

#[test]
fn vec_add_commutes_and_sub_undoes() {
    let a = Vec3::new(3 * ONE, -7 * ONE, ONE / 2);
    let b = Vec3::new(-ONE, 5 * ONE, 9 * ONE);
    assert_eq!(a.add(&b), b.add(&a));
    assert_eq!(a.sub(&b).add(&b), a);
}

#[test]
fn vec_scale_distributes_on_whole_units() {
    let k: i64 = 3 * ONE;
    let a = Vec3::new(2 * ONE, -4 * ONE, 5 * ONE);
    let b = Vec3::new(7 * ONE, ONE, -2 * ONE);
    assert_eq!(a.add(&b).scale(k), a.scale(k).add(&b.scale(k)));
}

#[test]
fn dot_of_self_is_squared_length() {
    let a = Vec3::new(3 * ONE, 4 * ONE, -12 * ONE);
    assert_eq!(dot(&a, &a), a.squared_length());
    assert_eq!(a.squared_length(), 169 * ONE);
    let b = Vec3::new(-7 * ONE, ONE / 2, 5 * ONE);
    assert_eq!(dot(&a, &b), dot(&b, &a));
}

#[test]
fn unit_vector_has_unit_length() {
    let a = Vec3::new(3 * ONE, 4 * ONE, 0);
    assert_eq!(a.length(), 5 * ONE);
    let u = unit_vector(&a);
    assert_eq!(u, Vec3::new(39321, 52428, 0));
    // Unit length up to the truncation of a few raw steps.
    assert!(u.length() <= ONE && u.length() >= ONE - 4);
}

#[test]
fn cross_of_axes() {
    let x = Vec3::new(ONE, 0, 0);
    let y = Vec3::new(0, ONE, 0);
    assert_eq!(cross(&x, &y), Vec3::new(0, 0, ONE));
}

#[test]
fn sphere_hit_straight_on() {
    let sphere = Sphere::new(Vec3::new(0, 0, -5 * ONE), ONE, grey(ONE / 2));
    let ray = Ray::new(Vec3::new(0, 0, 0), Vec3::new(0, 0, -ONE));
    let mut rec = HitRecord::new();
    let hit = sphere.hit(&ray, 0, 1000 * ONE, &mut rec);
    assert!(hit);
    assert_eq!(rec.t, 4 * ONE);
    assert_eq!(rec.p, Vec3::new(0, 0, -4 * ONE));
    assert_eq!(rec.normal, Vec3::new(0, 0, ONE));
}

#[test]
fn sphere_missed_sideways() {
    let sphere = Sphere::new(Vec3::new(0, 0, -5 * ONE), ONE, grey(ONE / 2));
    let ray = Ray::new(Vec3::new(0, 0, 0), Vec3::new(ONE, 0, 0));
    let mut rec = HitRecord::new();
    assert!(!sphere.hit(&ray, 0, 1000 * ONE, &mut rec));
    assert!(rec.mat.is_none());
}

#[test]
fn sphere_hit_from_inside() {
    let sphere = Sphere::new(Vec3::new(0, 0, -5 * ONE), ONE, grey(ONE / 2));
    let ray = Ray::new(Vec3::new(0, 0, -5 * ONE), Vec3::new(0, 0, -ONE));
    let mut rec = HitRecord::new();
    let hit = sphere.hit(&ray, 0, 1000 * ONE, &mut rec);
    assert!(hit);
    assert_eq!(rec.t, ONE);
}

#[test]
fn closest_hit_wins() {
    let near_albedo = Vec3::new(ONE / 4, ONE / 4, ONE / 4);
    let far_albedo = Vec3::new(ONE / 2, ONE / 2, ONE / 2);
    let mut scene: HitList<Sphere> = HitList::new(2);
    scene.list.push(Sphere::new(
        Vec3::new(0, 0, -5 * ONE),
        ONE,
        Material::Lambertian(Lambertian::new(far_albedo)),
    ));
    scene.list.push(Sphere::new(
        Vec3::new(0, 0, -3 * ONE),
        ONE,
        Material::Lambertian(Lambertian::new(near_albedo)),
    ));
    let ray = Ray::new(Vec3::new(0, 0, 0), Vec3::new(0, 0, -ONE));
    let mut rec = HitRecord::new();
    assert!(scene.hit(&ray, 0, 1000 * ONE, &mut rec));
    assert_eq!(rec.t, 2 * ONE);
    match rec.mat {
        Some(Material::Lambertian(l)) => assert_eq!(l.albedo, near_albedo),
        _ => panic!("wrong material"),
    }
}

#[test]
fn closest_hit_independent_of_order() {
    let near_albedo = Vec3::new(ONE / 4, ONE / 4, ONE / 4);
    let far_albedo = Vec3::new(ONE / 2, ONE / 2, ONE / 2);
    let mut scene: HitList<Sphere> = HitList::new(2);
    scene.list.push(Sphere::new(
        Vec3::new(0, 0, -3 * ONE),
        ONE,
        Material::Lambertian(Lambertian::new(near_albedo)),
    ));
    scene.list.push(Sphere::new(
        Vec3::new(0, 0, -5 * ONE),
        ONE,
        Material::Lambertian(Lambertian::new(far_albedo)),
    ));
    let ray = Ray::new(Vec3::new(0, 0, 0), Vec3::new(0, 0, -ONE));
    let mut rec = HitRecord::new();
    assert!(scene.hit(&ray, 0, 1000 * ONE, &mut rec));
    assert_eq!(rec.t, 2 * ONE);
    match rec.mat {
        Some(Material::Lambertian(l)) => assert_eq!(l.albedo, near_albedo),
        _ => panic!("wrong material"),
    }
}

#[test]
fn reflect_twice_is_identity() {
    let d = Vec3::new(ONE, -2 * ONE, 3 * ONE);
    let n = Vec3::new(0, ONE, 0);
    let once = reflect(&d, &n);
    assert_eq!(once, Vec3::new(ONE, 2 * ONE, 3 * ONE));
    assert_eq!(reflect(&once, &n), d);
}

#[test]
fn refract_reports_total_internal_reflection() {
    // A ray well past the critical angle of a dense-to-sparse boundary:
    // the discriminant goes non-positive and no refraction exists.
    let v = Vec3::new(4 * ONE, 0, 6554);
    let n = Vec3::new(0, 0, ONE);
    let ni_nt: i64 = 98304;  // 1.5 in fixed point
    let mut refracted = Vec3::new(7, 7, 7);
    assert!(!refract(&v, &n, ni_nt, &mut refracted));
    assert_eq!(refracted, Vec3::new(7, 7, 7));
}

#[test]
fn refract_bends_at_a_sparse_boundary() {
    let v = Vec3::new(0, 0, -ONE);
    let n = Vec3::new(0, 0, ONE);
    let ni_nt: i64 = 43690;  // 1 / 1.5 in fixed point
    let mut refracted = Vec3::new(0, 0, 0);
    assert!(refract(&v, &n, ni_nt, &mut refracted));
    assert!(refracted.z() < 0);
}

#[test]
fn dielectric_reflects_under_total_internal_reflection() {
    let mat = Dielectric::new(98304);
    let ray = Ray::new(Vec3::new(0, 0, -ONE), Vec3::new(4 * ONE, 0, 6554));
    let mut rec = HitRecord::new();
    rec.t = ONE;
    rec.p = Vec3::new(0, 0, 0);
    rec.normal = Vec3::new(0, 0, ONE);
    rec.mat = Some(Material::Dielectric(mat));
    let expected = reflect(&ray.direction(), &rec.normal);
    let mut attenuation = Vec3::new(0, 0, 0);
    let mut scattered = Ray::new(Vec3::new(0, 0, 0), Vec3::new(0, 0, 0));
    assert!(mat.scatter(&ray, &rec, &mut attenuation, &mut scattered));
    assert_eq!(attenuation, Vec3::new(ONE, ONE, ONE));
    assert_eq!(scattered.origin(), rec.p);
    assert_eq!(scattered.direction(), expected);
}

#[test]
fn metal_absorbs_a_reflection_into_the_surface() {
    let mat = Metal::new(Vec3::new(ONE / 2, ONE / 2, ONE / 2), 0);
    let ray = Ray::new(Vec3::new(0, 0, -ONE), Vec3::new(0, 0, ONE));
    let mut rec = HitRecord::new();
    rec.t = ONE;
    rec.p = Vec3::new(0, 0, 0);
    rec.normal = Vec3::new(0, 0, ONE);
    rec.mat = Some(Material::Metal(mat));
    let mut attenuation = Vec3::new(0, 0, 0);
    let mut scattered = Ray::new(Vec3::new(0, 0, 0), Vec3::new(0, 0, 0));
    assert!(!mat.scatter(&ray, &rec, &mut attenuation, &mut scattered));
    assert_eq!(attenuation, Vec3::new(ONE / 2, ONE / 2, ONE / 2));
    assert_eq!(scattered.direction(), Vec3::new(0, 0, -ONE));
}

#[test]
fn lambertian_always_scatters_from_the_hit_point() {
    let mat = Lambertian::new(Vec3::new(ONE / 2, ONE / 4, ONE / 8));
    let ray = Ray::new(Vec3::new(0, 0, 0), Vec3::new(0, 0, -ONE));
    let mut rec = HitRecord::new();
    rec.t = ONE;
    rec.p = Vec3::new(0, 0, -ONE);
    rec.normal = Vec3::new(0, 0, ONE);
    rec.mat = Some(Material::Lambertian(mat));
    let mut attenuation = Vec3::new(0, 0, 0);
    let mut scattered = Ray::new(Vec3::new(0, 0, 0), Vec3::new(0, 0, 0));
    assert!(mat.scatter(&ray, &rec, &mut attenuation, &mut scattered));
    assert_eq!(attenuation, Vec3::new(ONE / 2, ONE / 4, ONE / 8));
    assert_eq!(scattered.origin(), rec.p);
}

#[test]
fn shlick_at_head_on_incidence() {
    // r0 = ((1 - 1.5) / (1 + 1.5))^2 = 0.04 and the angular term vanishes.
    let r: i64 = shlick(ONE, 98304);
    assert_eq!(r, 2621);
}

#[test]
fn rand_in_unit_sphere_stays_inside() {
    for _ in 0..200 {
        let p = rand_in_unit_sphere();
        assert!(p.squared_length() < ONE);
    }
}

#[test]
fn radiance_terminates_at_the_depth_limit() {
    let mut scene: HitList<Sphere> = HitList::new(1);
    scene.list.push(Sphere::new(Vec3::new(0, 0, -5 * ONE), ONE, grey(ONE / 2)));
    let ray = Ray::new(Vec3::new(0, 0, 0), Vec3::new(0, 0, -ONE));
    let c = radiance(&ray, &scene, 50);
    assert_eq!(c, Vec3::new(0, 0, 0));
    let deeper = radiance(&ray, &scene, 51);
    assert_eq!(deeper, Vec3::new(0, 0, 0));
}

#[test]
fn radiance_of_a_miss_is_the_sky_gradient() {
    let scene: HitList<Sphere> = HitList::new(0);
    let ray = Ray::new(Vec3::new(0, 0, 0), Vec3::new(0, 0, -ONE));
    let c = radiance(&ray, &scene, 0);
    assert_eq!(c, Vec3::new(49152, 55705, ONE));
    let up = Ray::new(Vec3::new(0, 0, 0), Vec3::new(0, ONE, 0));
    assert_eq!(radiance(&up, &scene, 0), Vec3::new(32768, 45875, ONE));
}

#[test]
fn quantize_channel_maps_the_endpoints() {
    assert_eq!(quantize_channel(0), 0);
    assert_eq!(quantize_channel(-5 * ONE), 0);
    assert_eq!(quantize_channel(ONE), 255);
    assert_eq!(quantize_channel(100 * ONE), 255);
    assert_eq!(quantize_channel(ONE / 4), 127);
}

#[test]
fn camera_aims_between_its_corners() {
    let camera = Camera::new(
        Vec3::new(0, 0, 0),
        Vec3::new(0, 0, -5 * ONE),
        Vec3::new(0, ONE, 0),
        ONE,
        ONE,
        0,
        ONE,
    );
    // With a closed aperture the lens jitter vanishes and the center ray
    // points straight down the view axis.
    let center = camera.ray(ONE / 2, ONE / 2);
    assert_eq!(center.origin(), Vec3::new(0, 0, 0));
    assert_eq!(center.direction(), Vec3::new(0, 0, -ONE));
    let corner = camera.ray(0, 0);
    assert_eq!(corner.direction(), Vec3::new(-ONE, -ONE, -ONE));
}

#[test]
fn vec3_accessors_and_origin() {
    let v = Vec3::new(ONE, 2 * ONE, 3 * ONE);
    assert_eq!(v.x(), ONE);
    assert_eq!(v.y(), 2 * ONE);
    assert_eq!(v.z(), 3 * ONE);
    assert_eq!(v.r(), v.x());
    assert_eq!(v.g(), v.y());
    assert_eq!(v.b(), v.z());
    assert_eq!(Vec3::origin(), Vec3::new(0, 0, 0));
}

#[test]
fn ray_evaluates_points_along_itself() {
    let ray = Ray::new(Vec3::new(ONE, 0, 0), Vec3::new(0, 2 * ONE, 0));
    assert_eq!(ray.origin(), Vec3::new(ONE, 0, 0));
    assert_eq!(ray.direction(), Vec3::new(0, 2 * ONE, 0));
    assert_eq!(ray.point_at_param(ONE / 2), Vec3::new(ONE, ONE, 0));
    assert_eq!(ray.point_at_param(0), ray.origin());
}

#[test]
fn fresh_hit_record_is_empty() {
    let rec = HitRecord::new();
    assert_eq!(rec.t, 0);
    assert_eq!(rec.p, Vec3::new(0, 0, 0));
    assert_eq!(rec.normal, Vec3::new(0, 0, 0));
    assert!(rec.mat.is_none());
}

#[test]
fn default_camera_is_all_zero() {
    let camera = Camera::default();
    assert_eq!(camera.origin, Vec3::new(0, 0, 0));
    assert_eq!(camera.lower_left, Vec3::new(0, 0, 0));
    assert_eq!(camera.lens_radius, 0);
}

#[test]
fn ground_and_sky_converge_to_their_bands() {
    // A single grey ground sphere under a horizontal camera: pixels above
    // the horizon converge to the sky gradient, pixels below to a darker
    // ground tone, stable across two independent renders.
    let mut scene: HitList<Sphere> = HitList::new(1);
    scene.list.push(Sphere::new(
        Vec3::new(0, -1000 * ONE, 0),
        1000 * ONE,
        grey(ONE / 2),
    ));
    let camera = Camera::new(
        Vec3::new(0, 2 * ONE, 0),
        Vec3::new(0, 2 * ONE, -5 * ONE),
        Vec3::new(0, ONE, 0),
        ONE,
        ONE,
        0,
        ONE,
    );
    let sky_a = pixel_color(&camera, &scene, 5, 9, 10, 10, 300);
    let sky_b = pixel_color(&camera, &scene, 5, 9, 10, 10, 300);
    let ground_a = pixel_color(&camera, &scene, 5, 0, 10, 10, 300);
    let ground_b = pixel_color(&camera, &scene, 5, 0, 10, 10, 300);
    for sky in [sky_a, sky_b] {
        assert!(sky.2 >= 200);
        assert!(sky.2 >= sky.0);
    }
    for ground in [ground_a, ground_b] {
        assert!(ground.0 >= 30 && ground.0 <= 230);
        assert!(ground.1 >= 30 && ground.1 <= 230);
        assert!(ground.2 >= 30 && ground.2 <= 240);
    }
    assert!((ground_a.0 - ground_b.0).abs() <= 80);
    assert!((ground_a.1 - ground_b.1).abs() <= 80);
    assert!((ground_a.2 - ground_b.2).abs() <= 80);
    assert!(ground_a.1 < sky_a.2);
}
