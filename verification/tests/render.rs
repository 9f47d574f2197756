use ray_tracer::camera::Camera;
use ray_tracer::color::{linear_to_gamma, write_color, Color};
use ray_tracer::fixed::{Fx, FX_MAX_RAW, SCALE};
use ray_tracer::hittable::HitRecord;
use ray_tracer::hittable_list::HittableList;
use ray_tracer::interval::Interval;
use ray_tracer::material::{Dielectric, Lambertian, Material, Metal};
use ray_tracer::ray::Ray;
use ray_tracer::sphere::Sphere;
use ray_tracer::util::{degrees_to_radians, random_fx, random_fx_range, tan_fx, PI_RAW};
use ray_tracer::vec3::{Point3, Vec3};

fn fxi(i: i64) -> Fx {
    Fx::from_int(i)
}

fn fxr(raw: i64) -> Fx {
    Fx::from_raw(raw)
}

fn v3(x: i64, y: i64, z: i64) -> Vec3 {
    Vec3::new(fxi(x), fxi(y), fxi(z))
}

fn white_material() -> Material {
    Material::Lambertian(Lambertian::new(Color::new(
        fxr(730_000),
        fxr(730_000),
        fxr(730_000),
    )))
}

#[test]
fn test_add() {
    let v1 = Vec3::new(fxi(1), fxi(2), fxi(3));
    let v2 = Vec3::new(fxi(2), fxi(3), fxi(4));
    assert_eq!(Vec3::new(fxi(3), fxi(5), fxi(7)), v1.add(v2));
}

#[test]
fn test_mul() {
    let v1 = Vec3::new(fxi(1), fxi(2), fxi(3));
    assert_eq!(Vec3::new(fxi(3), fxi(6), fxi(9)), v1.scale(fxi(3)));
}

#[test]
fn unit_vector_exact_on_pythagorean_triple() {
    let v = v3(3, 4, 0);
    let u = Vec3::unit_vector(v);
    assert_eq!(u, Vec3::new(fxr(600_000), fxr(800_000), fxr(0)));
}

#[test]
fn unit_vector_length_within_tolerance() {
    let v = Vec3::new(fxr(1_234_567), fxr(-765_432), fxr(333_333));
    let u = Vec3::unit_vector(v);
    let l2 = u.length_squared();
    // One square unit is SCALE raw; allow six millionths either side.
    assert!(l2.raw >= SCALE - 7, "squared length {} too small", l2.raw);
    assert!(l2.raw <= SCALE + 7, "squared length {} too large", l2.raw);
}

#[test]
fn reflect_preserves_length_for_unit_normal() {
    let v = Vec3::new(fxi(1), fxi(-1), fxi(0));
    let n = v3(0, 1, 0);
    let r = Vec3::reflect(v, n);
    assert_eq!(r, Vec3::new(fxi(1), fxi(1), fxi(0)));
    assert_eq!(r.length_squared(), v.length_squared());
}

#[test]
fn refract_straight_through() {
    let uv = v3(0, -1, 0);
    let n = v3(0, 1, 0);
    let r = Vec3::refract(uv, n, fxr(500_000));
    assert_eq!(r, v3(0, -1, 0));
}

#[test]
fn cross_of_axes() {
    let x = v3(1, 0, 0);
    let y = v3(0, 1, 0);
    assert_eq!(Vec3::cross(x, y), v3(0, 0, 1));
}

#[test]
fn dot_and_near_zero() {
    assert_eq!(Vec3::dot(v3(1, 2, 3), v3(4, -5, 6)).raw, 12 * SCALE);
    assert!(Vec3::zero().near_zero());
    assert!(!v3(0, 0, 1).near_zero());
}

#[test]
fn interval_surrounds_and_clamp() {
    let iv = Interval::new(fxi(0), fxi(1));
    assert!(iv.surrounds(fxr(500_000)));
    assert!(!iv.surrounds(fxi(0)));
    assert!(!iv.surrounds(fxi(1)));
    assert_eq!(iv.clamp(fxi(-3)), fxi(0));
    assert_eq!(iv.clamp(fxi(3)), fxi(1));
    assert_eq!(iv.clamp(fxr(250_000)), fxr(250_000));
}

#[test]
fn sphere_hit_head_on_exact_parameter() {
    let s = Sphere::new(v3(0, 0, 10), fxi(1), white_material());
    let ray = Ray::new(v3(0, 0, 0), v3(0, 0, 1));
    let window = Interval::new(fxr(1000), fxr(FX_MAX_RAW));
    let rec = s.hit(&ray, window).expect("head-on ray must hit");
    assert_eq!(rec.t, fxi(9));
    assert_eq!(rec.p, v3(0, 0, 9));
    assert!(rec.front_face);
    assert_eq!(rec.normal, v3(0, 0, -1));
}

#[test]
fn sphere_miss_when_pointing_away() {
    let s = Sphere::new(v3(0, 0, 10), fxi(1), white_material());
    let ray = Ray::new(v3(0, 0, 0), v3(0, 0, -1));
    let window = Interval::new(fxr(1000), fxr(FX_MAX_RAW));
    assert!(s.hit(&ray, window).is_none());
}

#[test]
fn sphere_through_center_roots_symmetric() {
    // Through the center of a unit sphere at distance five: the roots are
    // four and six, symmetric about five, and the nearer one is accepted.
    let s = Sphere::new(v3(0, 0, 5), fxi(1), white_material());
    let ray = Ray::new(v3(0, 0, 0), v3(0, 0, 1));
    let window = Interval::new(fxr(1000), fxr(FX_MAX_RAW));
    let rec = s.hit(&ray, window).expect("through-center ray must hit");
    assert_eq!(rec.t, fxi(4));
    // The far root is found once the window excludes the near one.
    let window_far = Interval::new(fxr(4 * SCALE + 1), fxr(FX_MAX_RAW));
    let rec_far = s.hit(&ray, window_far).expect("far root inside window");
    assert_eq!(rec_far.t, fxi(6));
    // Symmetry about t = dot(direction, center-origin)/|direction|^2 = 5.
    assert_eq!(rec.t.add(rec_far.t), fxi(10));
}

#[test]
fn nearest_of_two_spheres_wins() {
    let near_mat = Material::Metal(Metal::new(
        Color::new(fxr(800_000), fxr(600_000), fxr(200_000)),
        fxr(0),
    ));
    let mut world = HittableList::new();
    world.add(Sphere::new(v3(0, 0, 20), fxi(1), white_material()));
    world.add(Sphere::new(v3(0, 0, 10), fxi(1), near_mat));
    let ray = Ray::new(v3(0, 0, 0), v3(0, 0, 1));
    let window = Interval::new(fxr(1000), fxr(FX_MAX_RAW));
    let rec = world.hit(&ray, window).expect("must hit the near sphere");
    assert_eq!(rec.t, fxi(9));
    assert!(matches!(rec.mat, Material::Metal(_)));
}

#[test]
fn first_sphere_keeps_equal_distance_hit() {
    let mut world = HittableList::new();
    world.add(Sphere::new(v3(0, 0, 10), fxi(1), white_material()));
    let glass = Material::Dielectric(Dielectric::new(fxr(1_500_000)));
    world.add(Sphere::new(v3(0, 0, 10), fxi(1), glass));
    let ray = Ray::new(v3(0, 0, 0), v3(0, 0, 1));
    let window = Interval::new(fxr(1000), fxr(FX_MAX_RAW));
    let rec = world.hit(&ray, window).expect("must hit");
    assert!(matches!(rec.mat, Material::Lambertian(_)));
}

#[test]
fn empty_scene_never_hits() {
    let world = HittableList::new();
    let ray = Ray::new(v3(0, 0, 0), v3(0, 0, 1));
    let window = Interval::new(fxr(1000), fxr(FX_MAX_RAW));
    assert!(world.hit(&ray, window).is_none());
}

#[test]
fn metal_fuzz_is_capped_at_one() {
    let m = Metal::new(Color::new(fxi(1), fxi(1), fxi(1)), fxr(1_500_000));
    assert_eq!(m.fuzz, fxi(1));
    let sharp = Metal::new(Color::new(fxi(1), fxi(1), fxi(1)), fxr(300_000));
    assert_eq!(sharp.fuzz, fxr(300_000));
}

#[test]
fn zero_fuzz_metal_reflects_deterministically() {
    let m = Metal::new(Color::new(fxi(1), fxi(1), fxi(1)), fxr(0));
    let rec = HitRecord::new(v3(0, 0, 9), v3(0, 0, -1), fxi(9), Material::Metal(m));
    let ray = Ray::new(v3(0, 0, 0), v3(0, 0, 1));
    for _ in 0..4 {
        let (_, sc) = m.scatter(&ray, &rec).expect("the mirror reflection leaves the surface");
        assert_eq!(sc.direction, v3(0, 0, -1));
    }
}

#[test]
fn zero_fuzz_metal_absorbs_into_surface() {
    // With the normal along the incoming ray, the ideal reflection points
    // into the surface and a sharp metal always absorbs.
    let m = Metal::new(Color::new(fxi(1), fxi(1), fxi(1)), fxr(0));
    let rec = HitRecord::new(v3(0, 0, 9), v3(0, 0, 1), fxi(9), Material::Metal(m));
    let ray = Ray::new(v3(0, 0, 0), v3(0, 0, 1));
    for _ in 0..4 {
        assert!(m.scatter(&ray, &rec).is_none());
    }
}

#[test]
fn lambertian_always_scatters_with_albedo() {
    let albedo = Color::new(fxr(100_000), fxr(200_000), fxr(500_000));
    let mat = Lambertian::new(albedo);
    let rec = HitRecord::new(v3(0, 0, 9), v3(0, 0, -1), fxi(9), Material::Lambertian(mat));
    let ray = Ray::new(v3(0, 0, 0), v3(0, 0, 1));
    for _ in 0..8 {
        let (att, scattered) = mat.scatter(&ray, &rec).expect("diffuse always scatters");
        assert_eq!(att, albedo);
        assert_eq!(scattered.origin, rec.p);
        assert!(!scattered.direction.near_zero());
    }
}

#[test]
fn dielectric_always_scatters_white() {
    let mat = Dielectric::new(fxr(1_500_000));
    let rec = HitRecord::new(v3(0, 0, 9), v3(0, 0, -1), fxi(9), Material::Dielectric(mat));
    let ray = Ray::new(v3(0, 0, 0), v3(0, 0, 1));
    for _ in 0..8 {
        let (att, scattered) = mat.scatter(&ray, &rec).expect("glass always scatters");
        assert_eq!(att, Color::new(fxi(1), fxi(1), fxi(1)));
        assert_eq!(scattered.origin, rec.p);
    }
}

#[test]
fn schlick_reflectance_exact_at_normal_and_monotone() {
    let ri = fxr(1_500_000);
    // At grazing incidence (cosine zero) the approximation reaches one.
    assert_eq!(Dielectric::reflectance(fxr(0), ri).raw, SCALE);
    // At normal incidence it is r0 = ((1-1.5)/(1+1.5))^2 = 0.04.
    assert_eq!(Dielectric::reflectance(fxi(1), ri).raw, 40_000);
    // Smaller cosine never reflects less.
    let lo = Dielectric::reflectance(fxr(200_000), ri);
    let hi = Dielectric::reflectance(fxr(800_000), ri);
    assert!(lo.raw >= hi.raw);
}

#[test]
fn gamma_of_quarter_is_half() {
    assert_eq!(linear_to_gamma(fxr(250_000)), fxr(500_000));
    assert_eq!(linear_to_gamma(fxr(-5)), fxr(0));
}

#[test]
fn encode_black_and_white() {
    let mut out: Vec<u8> = Vec::new();
    write_color(&mut out, Color::new(fxr(0), fxr(0), fxr(0)));
    assert_eq!(out, b"0 0 0\n".to_vec());
    let mut out2: Vec<u8> = Vec::new();
    write_color(&mut out2, Color::new(fxi(1), fxi(1), fxi(1)));
    assert_eq!(out2, b"255 255 255\n".to_vec());
}

#[test]
fn encode_mid_gray() {
    let mut out: Vec<u8> = Vec::new();
    write_color(&mut out, Color::new(fxr(250_000), fxr(250_000), fxr(250_000)));
    assert_eq!(out, b"128 128 128\n".to_vec());
}

#[test]
fn degrees_to_radians_of_straight_angle() {
    assert_eq!(degrees_to_radians(fxi(180)).raw, PI_RAW);
}

#[test]
fn tangent_of_an_eighth_turn_is_one() {
    let t = tan_fx(fxr(785_398));
    assert!(
        (t.raw - SCALE).abs() <= 2_000,
        "tan at an eighth turn was {}",
        t.raw
    );
}

#[test]
fn color_reads_a_vector() {
    let c = Color::from_vec(v3(1, 2, 3));
    assert_eq!(c, Color::new(fxi(1), fxi(2), fxi(3)));
}

#[test]
fn random_vector_components_in_unit_range() {
    for _ in 0..16 {
        let v = Vec3::random();
        assert!(0 <= v.x.raw && v.x.raw < SCALE);
        assert!(0 <= v.y.raw && v.y.raw < SCALE);
        assert!(0 <= v.z.raw && v.z.raw < SCALE);
        let w = Vec3::random_range(fxi(-2), fxi(-1));
        assert!(-2 * SCALE <= w.x.raw && w.x.raw < -SCALE);
    }
}

#[test]
fn random_scalars_stay_in_range() {
    for _ in 0..64 {
        let u = random_fx();
        assert!(0 <= u.raw && u.raw < SCALE);
        let v = random_fx_range(fxi(-1), fxi(1));
        assert!(-SCALE <= v.raw && v.raw < SCALE);
    }
}

#[test]
fn random_directions_are_unit_scale() {
    for _ in 0..32 {
        let u = Vec3::random_unit_vector();
        assert!(u.x.raw.abs() <= SCALE);
        assert!(u.y.raw.abs() <= SCALE);
        assert!(u.z.raw.abs() <= SCALE);
        assert!(!u.near_zero());
        let d = Vec3::random_in_unit_disk();
        assert_eq!(d.z.raw, 0);
        assert!(d.length_squared().raw <= SCALE);
        let n = v3(0, 1, 0);
        let h = Vec3::random_on_hemisphere(n);
        assert!(Vec3::dot(h, n).raw >= 0);
    }
}

#[test]
fn ray_at_evaluates_parametrically() {
    let r = Ray::new(v3(1, 0, 0), v3(0, 2, 0));
    assert_eq!(r.at(fxr(500_000)), v3(1, 1, 0));
}

#[test]
fn image_height_rounds_to_nearest() {
    let mut cam = Camera::new();
    cam.aspect_ratio = fxi(2);
    cam.image_width = 3;
    cam.initialize();
    assert_eq!(cam.image_height, 2, "3 / 2.0 rounds up to 2 rows");
    let mut narrow = Camera::new();
    narrow.aspect_ratio = fxi(4);
    narrow.image_width = 5;
    narrow.initialize();
    assert_eq!(narrow.image_height, 1, "5 / 4.0 rounds down to 1 row");
}

#[test]
fn camera_defaults() {
    let cam = Camera::new();
    assert_eq!(cam.aspect_ratio, fxi(1));
    assert_eq!(cam.image_width, 100);
    assert_eq!(cam.samples_per_pixel, 10);
    assert_eq!(cam.max_depth, 10);
    assert_eq!(cam.vfov, fxi(90));
    assert_eq!(cam.lookat, v3(0, 0, -1));
    assert_eq!(cam.vup, v3(0, 1, 0));
}

#[test]
fn ray_color_depth_zero_is_black() {
    let mut world = HittableList::new();
    world.add(Sphere::new(v3(0, 0, -1), fxr(500_000), white_material()));
    let cam = Camera::new();
    let r = Ray::new(v3(0, 0, 0), v3(0, 0, -1));
    let c = cam.ray_color(&r, 0, &world);
    assert_eq!(c, Color::new(fxr(0), fxr(0), fxr(0)));
}

#[test]
fn ray_color_miss_reproduces_sky_blend() {
    // One diffuse sphere of radius one hundred, half a unit below the
    // camera axis; a two-by-one image from the origin looking down the
    // negative z axis.  The unjittered ray through a pixel center passes
    // over the sphere and must reproduce the exact sky-gradient blend at
    // a = 0.5 * (unit_direction.y + 1).
    let mut world = HittableList::new();
    world.add(Sphere::new(
        Vec3::new(fxr(0), fxr(-100_500_000), fxr(-1_000_000)),
        fxi(100),
        white_material(),
    ));
    let mut cam = Camera::new();
    cam.aspect_ratio = fxi(2);
    cam.image_width = 2;
    cam.samples_per_pixel = 1;
    cam.max_depth = 1;
    cam.initialize();

    let dir = cam
        .pixel100_loc
        .add(cam.pixel_delta_u.scale(fxi(0)))
        .sub(cam.center);
    assert_eq!(dir.y, fxr(0), "the pixel-center ray runs level");
    let r = Ray::new(cam.center, dir);
    let got = cam.ray_color(&r, 1, &world);

    let unit = Vec3::unit_vector(dir);
    let a = fxr(500_000).mul(unit.y.add(fxi(1)));
    let oma = fxi(1).sub(a);
    let white = Color::new(fxi(1), fxi(1), fxi(1));
    let blue = Color::new(fxr(500_000), fxr(700_000), fxi(1));
    let expected = white.scale(oma).add(blue.scale(a));
    assert_eq!(got, expected);
}

#[test]
fn render_header_is_exact() {
    let mut world = HittableList::new();
    world.add(Sphere::new(
        Vec3::new(fxr(0), fxr(-100_500_000), fxr(-1_000_000)),
        fxi(100),
        white_material(),
    ));
    let mut cam = Camera::new();
    cam.aspect_ratio = fxi(2);
    cam.image_width = 2;
    cam.samples_per_pixel = 1;
    cam.max_depth = 1;
    let out = cam.render(&world);
    let text = String::from_utf8(out).expect("the image is ASCII text");
    let lines: Vec<&str> = text.lines().collect();
    assert_eq!(lines[0], "P3");
    assert_eq!(lines[1], "2 1");
    assert_eq!(lines[2], "255");
    assert_eq!(lines.len(), 5, "header plus one line per pixel");
}

#[test]
fn render_full_scene_with_all_materials() {
    let mut world = HittableList::new();
    world.add(Sphere::new(
        Vec3::new(fxr(0), fxr(-100_500_000), fxr(-1_000_000)),
        fxi(100),
        Material::Lambertian(Lambertian::new(color_raw(800_000, 800_000, 0))),
    ));
    world.add(Sphere::new(
        Vec3::new(fxr(0), fxr(0), fxr(-1_200_000)),
        fxr(500_000),
        Material::Lambertian(Lambertian::new(color_raw(100_000, 200_000, 500_000))),
    ));
    world.add(Sphere::new(
        Vec3::new(fxr(-1_000_000), fxr(0), fxr(-1_000_000)),
        fxr(500_000),
        Material::Dielectric(Dielectric::new(fxr(1_500_000))),
    ));
    world.add(Sphere::new(
        Vec3::new(fxr(-1_000_000), fxr(0), fxr(-1_000_000)),
        fxr(400_000),
        Material::Dielectric(Dielectric::new(fxr(666_666))),
    ));
    world.add(Sphere::new(
        Vec3::new(fxr(1_000_000), fxr(0), fxr(-1_000_000)),
        fxr(500_000),
        Material::Metal(Metal::new(color_raw(800_000, 600_000, 200_000), fxi(1))),
    ));
    let mut cam = Camera::new();
    cam.aspect_ratio = Fx::from_ratio(16, 9);
    cam.image_width = 8;
    cam.samples_per_pixel = 2;
    cam.max_depth = 8;
    cam.vfov = fxi(20);
    cam.lookfrom = Vec3::new(fxi(-2), fxi(2), fxi(1));
    cam.lookat = Vec3::new(fxi(0), fxi(0), fxi(-1));
    cam.vup = v3(0, 1, 0);
    let out = cam.render(&world);
    let text = String::from_utf8(out).expect("the image is ASCII text");
    let lines: Vec<&str> = text.lines().collect();
    // width 8 over aspect 16/9 gives 4.5000... rows, rounded to 5.
    assert_eq!(lines[1], "8 5");
    assert_eq!(lines.len(), 3 + 40);
}

fn color_raw(r: i64, g: i64, b: i64) -> Color {
    Color::new(fxr(r), fxr(g), fxr(b))
}

#[test]
fn render_emits_one_line_per_pixel() {
    let world = HittableList::new();
    let mut cam = Camera::new();
    cam.aspect_ratio = fxi(1);
    cam.image_width = 3;
    cam.samples_per_pixel = 2;
    cam.max_depth = 2;
    let out = cam.render(&world);
    let text = String::from_utf8(out).expect("the image is ASCII text");
    let lines: Vec<&str> = text.lines().collect();
    assert_eq!(lines.len(), 3 + 9);
    for line in &lines[3..] {
        let fields: Vec<&str> = line.split(' ').collect();
        assert_eq!(fields.len(), 3);
        for f in fields {
            let b: u64 = f.parse().expect("a channel byte");
            assert!(b <= 255);
        }
    }
}
