use pathtracer::aarect::{within, XyRect, XzRect, YzRect};
use pathtracer::boxx::{Boxx, Side};
use pathtracer::config::{ConfigError, Settings};
use pathtracer::constant_medium::{clip_segment, medium_hit};
use pathtracer::hittable::HitRecord;
use pathtracer::aabb::Aabb;
use pathtracer::material::{
    dielectric_reflects, lambertian_direction, scatter_dielectric, scatter_diffuse_light,
    scatter_isotropic, scatter_lambertian, scatters, MaterialKind, Metal,
};
use pathtracer::ray::Ray;
use pathtracer::progress::{format_bar, should_notify, Progress};
use pathtracer::scalar::Scalar;
use pathtracer::sphere::{choose_root, has_roots};
use pathtracer::texture::checker_takes_odd;
use pathtracer::vec3::{in_hemisphere, keeps_sample};
use pathtracer::vec3::Vec3;

fn s(x: f32) -> Scalar {
    Scalar::from_bits(x.to_bits())
}

fn f(x: Scalar) -> f32 {
    f32::from_bits(x.to_bits())
}

fn v(x: f32, y: f32, z: f32) -> Vec3 {
    Vec3::from(s(x), s(y), s(z))
}

fn floats(p: Vec3) -> [f32; 3] {
    [f(p.x()), f(p.y()), f(p.z())]
}

fn bar(to_color: i32) -> String {
    let mut b = String::from("old");
    format_bar(&mut b, to_color);
    b
}

fn settings() -> Settings {
    Settings {
        width: 200,
        height: 112,
        samples_per_pixel: 8,
        max_depth: 8,
        vfov: s(20.0),
        lookfrom: v(13.0, 2.0, 3.0),
        lookat: v(0.0, 0.0, 0.0),
        time0: s(0.0),
        time1: s(1.0),
    }
}

#[test]
fn bar_has_fifty_cells() {
    assert_eq!(bar(0), format!("[{}]", ".".repeat(50)));
    assert_eq!(bar(21), format!("[{}{}]", "#".repeat(21), ".".repeat(29)));
    assert_eq!(bar(50), format!("[{}]", "#".repeat(50)));
}

#[test]
fn bar_beyond_its_ends() {
    assert_eq!(bar(53), format!("[{}]", "#".repeat(53)));
    assert_eq!(bar(-2), format!("[{}]", ".".repeat(52)));
}

#[test]
fn workers_wake_the_reporter_every_interval() {
    assert!(!should_notify(0));
    assert!(!should_notify(1023));
    assert!(should_notify(1024));
    assert!(should_notify(usize::MAX));
}

#[test]
fn progress_counts_up_to_the_total() {
    let mut p = Progress::new(3000);
    assert_eq!(p.report(), (3000, 0));
    assert!(p.is_waiting());
    assert!(!p.absorb(1025));
    assert_eq!(p.report(), (3000, 1025));
    assert!(!p.absorb(0));
    assert!(!p.absorb(1975));
    assert_eq!(p.report(), (3000, 3000));
    assert!(!p.is_waiting());
}

#[test]
fn progress_ends_on_the_finish_mark() {
    let mut p = Progress::new(3000);
    p.absorb(10);
    assert!(p.absorb(usize::MAX));
    assert_eq!(p.report(), (3000, 3000));
    assert!(!p.is_waiting());
    let mut q = Progress::new(usize::MAX);
    q.absorb(usize::MAX - 1);
    q.absorb(5);
    assert_eq!(q.report(), (usize::MAX, usize::MAX));
    let empty = Progress::new(0);
    assert!(!empty.is_waiting());
}

#[test]
fn valid_settings_give_the_pixel_count() {
    assert_eq!(settings().validate(), Ok(22400));
    let mut c = settings();
    c.max_depth = 0;
    c.width = 0;
    c.time1 = s(0.0);
    c.vfov = s(179.99);
    assert_eq!(c.validate(), Ok(0));
}

#[test]
fn each_defect_has_its_error() {
    let mut c = settings();
    c.samples_per_pixel = 0;
    assert_eq!(c.validate(), Err(ConfigError::NoSamples));
    c.samples_per_pixel = -3;
    assert_eq!(c.validate(), Err(ConfigError::NoSamples));
    let mut c = settings();
    c.width = usize::MAX;
    c.height = 2;
    assert_eq!(c.validate(), Err(ConfigError::TooManyPixels));
    let mut c = settings();
    c.max_depth = -1;
    assert_eq!(c.validate(), Err(ConfigError::NegativeDepth));
    for bad in [0.0, -0.0, -20.0, 180.0, 181.0, f32::INFINITY, f32::NAN] {
        let mut c = settings();
        c.vfov = s(bad);
        assert_eq!(c.validate(), Err(ConfigError::FieldOfView));
    }
    let mut c = settings();
    c.lookat = c.lookfrom;
    assert_eq!(c.validate(), Err(ConfigError::NoDirection));
    let mut c = settings();
    c.lookfrom = v(0.0, -0.0, 0.0);
    assert_eq!(c.validate(), Err(ConfigError::NoDirection));
    let mut c = settings();
    c.time0 = s(1.0);
    c.time1 = s(0.5);
    assert_eq!(c.validate(), Err(ConfigError::Exposure));
}

#[test]
fn first_defect_wins() {
    let mut c = settings();
    c.samples_per_pixel = 0;
    c.max_depth = -1;
    c.vfov = s(0.0);
    assert_eq!(c.validate(), Err(ConfigError::NoSamples));
    c.samples_per_pixel = 1;
    assert_eq!(c.validate(), Err(ConfigError::NegativeDepth));
    c.max_depth = 1;
    c.time1 = s(-1.0);
    assert_eq!(c.validate(), Err(ConfigError::FieldOfView));
    c.vfov = s(90.0);
    assert_eq!(c.validate(), Err(ConfigError::Exposure));
}

#[test]
fn scatter_domains() {
    for facing in [-1.0, 0.0, 1.0, f32::NAN] {
        assert!(scatters(MaterialKind::Lambertian, s(facing)));
        assert!(scatters(MaterialKind::Isotropic, s(facing)));
        assert!(scatters(MaterialKind::Dielectric, s(facing)));
        assert!(!scatters(MaterialKind::DiffuseLight, s(facing)));
        assert_eq!(scatters(MaterialKind::Metal, s(facing)), facing > 0.0);
    }
    assert!(scatters(MaterialKind::Metal, s(1e-30)));
    assert!(!scatters(MaterialKind::Metal, s(-0.0)));
}

#[test]
fn metal_blur_is_at_most_one() {
    assert_eq!(f(Metal::from(v(1.0, 1.0, 1.0), s(0.0)).fuzz), 0.0);
    assert_eq!(f(Metal::from(v(1.0, 1.0, 1.0), s(0.3)).fuzz), 0.3);
    assert_eq!(f(Metal::from(v(1.0, 1.0, 1.0), s(1.0)).fuzz), 1.0);
    assert_eq!(f(Metal::from(v(1.0, 1.0, 1.0), s(7.5)).fuzz), 1.0);
    assert_eq!(f(Metal::from(v(1.0, 1.0, 1.0), s(f32::NAN)).fuzz), 1.0);
    assert_eq!(f(Metal::from(v(1.0, 1.0, 1.0), s(-2.0)).fuzz), -2.0);
    assert_eq!(floats(Metal::from(v(0.8, 0.6, 0.2), s(0.0)).albedo), [0.8, 0.6, 0.2]);
}

#[test]
fn diffuse_direction_falls_back_to_the_normal() {
    let n = v(0.0, 1.0, 0.0);
    assert_eq!(floats(lambertian_direction(v(0.3, 0.2, -0.1), n)), [0.3, 0.2, -0.1]);
    assert_eq!(floats(lambertian_direction(v(1e-9, -1e-9, 0.0), n)), [0.0, 1.0, 0.0]);
    assert_eq!(floats(lambertian_direction(v(1e-9, 1e-7, 0.0), n)), [1e-9, 1e-7, 0.0]);
}

#[test]
fn void_record_is_zero_and_faces_the_front() {
    let r = HitRecord::void(42u8);
    assert_eq!(floats(r.p), [0.0, 0.0, 0.0]);
    assert_eq!(floats(r.normal), [0.0, 0.0, 0.0]);
    assert_eq!(r.mat_ptr, 42);
    assert_eq!(f(r.t), 0.0);
    assert_eq!(f(r.u), 0.0);
    assert_eq!(f(r.v), 0.0);
    assert!(r.front_face);
}

#[test]
fn face_normal_points_against_the_ray() {
    let dir = [0.0f32, 0.0, 1.0];
    for outward in [[0.0f32, 0.0, -1.0], [0.0, 0.0, 1.0], [0.6, 0.0, -0.8], [0.6, 0.0, 0.8], [1.0, 0.0, 0.0]] {
        let facing = dir[0] * outward[0] + dir[1] * outward[1] + dir[2] * outward[2];
        let mut r = HitRecord::void(0u8);
        r.t = s(3.0);
        r.set_face_normal(s(facing), v(outward[0], outward[1], outward[2]));
        let n = floats(r.normal);
        assert!(dir[0] * n[0] + dir[1] * n[1] + dir[2] * n[2] <= 0.0);
        assert_eq!(r.front_face, facing < 0.0);
        assert_eq!(r.front_face, n == outward);
        if !r.front_face {
            assert_eq!(n, [-outward[0], -outward[1], -outward[2]]);
        }
        assert_eq!(f(r.t), 3.0);
    }
}

#[test]
fn sphere_takes_the_first_crossing_in_the_window() {
    let pick = |near: f32, far: f32, lo: f32, hi: f32| {
        choose_root(s(near), s(far), s(lo), s(hi)).map(f)
    };
    assert_eq!(pick(4.0, 6.0, 0.001, f32::INFINITY), Some(4.0));
    assert_eq!(pick(-1.0, 1.0, 0.001, f32::INFINITY), Some(1.0));
    assert_eq!(pick(-3.0, -1.0, 0.001, f32::INFINITY), None);
    assert_eq!(pick(4.0, 6.0, 0.001, 3.0), None);
    assert_eq!(pick(4.0, 6.0, 5.0, 7.0), Some(6.0));
    assert_eq!(pick(4.0, 6.0, 4.0, 4.0), Some(4.0));
    assert_eq!(pick(4.0, 6.0, 5.0, 5.5), None);
    assert_eq!(pick(f32::NAN, 6.0, 0.0, 9.0), Some(6.0));
    assert_eq!(pick(f32::NAN, f32::NAN, 0.0, 9.0), None);
    assert_eq!(pick(4.0, 6.0, f32::NAN, 9.0), None);
}

#[test]
fn within_includes_both_ends() {
    assert!(within(s(1.0), s(1.0), s(2.0)));
    assert!(within(s(2.0), s(1.0), s(2.0)));
    assert!(!within(s(0.999), s(1.0), s(2.0)));
    assert!(!within(s(2.001), s(1.0), s(2.0)));
    assert!(!within(s(f32::NAN), s(1.0), s(2.0)));
    assert!(!within(s(1.5), s(f32::NAN), s(2.0)));
    assert!(!within(s(1.5), s(1.0), s(f32::NAN)));
    assert!(within(s(-0.0), s(0.0), s(0.0)));
}

#[test]
fn medium_segment_is_cut_to_the_window() {
    let clip = |t1: f32, t2: f32, lo: f32, hi: f32| {
        clip_segment(s(t1), s(t2), s(lo), s(hi)).map(|(a, b)| (f(a), f(b)))
    };
    assert_eq!(clip(2.0, 5.0, 0.001, f32::INFINITY), Some((2.0, 5.0)));
    assert_eq!(clip(2.0, 5.0, 3.0, 4.0), Some((3.0, 4.0)));
    assert_eq!(clip(-2.0, 5.0, -1.0, 4.0), Some((0.0, 4.0)));
    assert_eq!(clip(2.0, 5.0, 5.0, 9.0), None);
    assert_eq!(clip(2.0, 5.0, 0.0, 2.0), None);
    assert_eq!(clip(5.0, 2.0, 0.0, 9.0), None);
    assert_eq!(clip(-5.0, -3.0, -9.0, 9.0), Some((0.0, -3.0)));
}

#[test]
fn rectangles_keep_their_data() {
    let a = XyRect::from(s(1.0), s(2.0), s(3.0), s(4.0), s(5.0), 'm');
    assert_eq!(
        [f(a.x0), f(a.x1), f(a.y0), f(a.y1), f(a.k)],
        [1.0, 2.0, 3.0, 4.0, 5.0]
    );
    assert_eq!(a.mp, 'm');
    let b = XzRect::from(s(1.0), s(2.0), s(3.0), s(4.0), s(5.0), 'm');
    assert_eq!(
        [f(b.x0), f(b.x1), f(b.z0), f(b.z1), f(b.k)],
        [1.0, 2.0, 3.0, 4.0, 5.0]
    );
    let c = YzRect::from(s(1.0), s(2.0), s(3.0), s(4.0), s(5.0), 'm');
    assert_eq!(
        [f(c.y0), f(c.y1), f(c.z0), f(c.z1), f(c.k)],
        [1.0, 2.0, 3.0, 4.0, 5.0]
    );
    let z = XyRect::new('d');
    assert_eq!([f(z.x0), f(z.x1), f(z.y0), f(z.y1), f(z.k)], [0.0; 5]);
    assert_eq!(XzRect::new('d').mp, 'd');
    assert_eq!(f(YzRect::new('d').k), 0.0);
}

#[test]
fn rectangles_cover_their_area_with_its_edges() {
    let a = XyRect::from(s(1.0), s(2.0), s(3.0), s(4.0), s(5.0), 0u8);
    assert!(a.covers(s(1.5), s(3.5)));
    assert!(a.covers(s(1.0), s(4.0)));
    assert!(!a.covers(s(0.9), s(3.5)));
    assert!(!a.covers(s(1.5), s(4.1)));
    let b = XzRect::from(s(213.0), s(343.0), s(227.0), s(332.0), s(554.0), 0u8);
    assert!(b.covers(s(278.0), s(279.5)));
    assert!(!b.covers(s(278.0), s(333.0)));
    let c = YzRect::from(s(0.0), s(555.0), s(0.0), s(555.0), s(555.0), 0u8);
    assert!(c.covers(s(0.0), s(555.0)));
    assert!(!c.covers(s(-0.1), s(555.0)));
    assert!(!c.covers(s(f32::NAN), s(5.0)));
    assert!(!a.covers(s(1.5), s(f32::NAN)));
}

#[test]
fn box_has_six_faces_on_its_corners() {
    let b = Boxx::from(&v(1.0, 2.0, 3.0), &v(4.0, 5.0, 6.0), 'm');
    assert_eq!(floats(b.box_min), [1.0, 2.0, 3.0]);
    assert_eq!(floats(b.box_max), [4.0, 5.0, 6.0]);
    let faces: Vec<(char, [f32; 5], char)> = b
        .sides
        .objects
        .iter()
        .map(|side| match side {
            Side::Xy(r) => ('z', [f(r.x0), f(r.x1), f(r.y0), f(r.y1), f(r.k)], r.mp),
            Side::Xz(r) => ('y', [f(r.x0), f(r.x1), f(r.z0), f(r.z1), f(r.k)], r.mp),
            Side::Yz(r) => ('x', [f(r.y0), f(r.y1), f(r.z0), f(r.z1), f(r.k)], r.mp),
        })
        .collect();
    assert_eq!(
        faces,
        vec![
            ('z', [1.0, 4.0, 2.0, 5.0, 6.0], 'm'),
            ('z', [1.0, 4.0, 2.0, 5.0, 3.0], 'm'),
            ('y', [1.0, 4.0, 3.0, 6.0, 5.0], 'm'),
            ('y', [1.0, 4.0, 3.0, 6.0, 2.0], 'm'),
            ('x', [2.0, 5.0, 3.0, 6.0, 4.0], 'm'),
            ('x', [2.0, 5.0, 3.0, 6.0, 1.0], 'm'),
        ]
    );
    let empty: Boxx<char> = Boxx::new();
    assert!(empty.sides.objects.is_empty());
}

#[test]
fn box_is_hit_on_its_nearest_face() {
    let b = Boxx::from(&v(-1.0, -1.0, 4.0), &v(1.0, 1.0, 6.0), 0u8);
    // A ray from the origin along z meets the planes z = k of the two xy faces.
    let probe = |side: &Side<u8>, _r: &(), t_min: Scalar, t_max: Scalar| -> Option<(Scalar, f32)> {
        match side {
            Side::Xy(r) => {
                let t = r.k;
                if within(t, t_min, t_max) && r.covers(s(0.0), s(0.0)) {
                    Some((t, f(r.k)))
                } else {
                    None
                }
            }
            _ => None,
        }
    };
    let (t, k) = b.hit(&(), s(0.001), s(f32::INFINITY), &probe).unwrap();
    assert_eq!(f(t), 4.0);
    assert_eq!(k, 4.0);
    assert!(b.hit(&(), s(0.001), s(3.0), &probe).is_none());
    let (t, _) = b.hit(&(), s(5.0), s(f32::INFINITY), &probe).unwrap();
    assert_eq!(f(t), 6.0);
}

#[test]
fn glass_reflects_past_the_critical_angle_or_by_chance() {
    assert!(dielectric_reflects(s(1.2), s(0.0), s(0.9)));
    assert!(!dielectric_reflects(s(1.0), s(0.04), s(0.5)));
    assert!(dielectric_reflects(s(0.3), s(0.6), s(0.5)));
    assert!(!dielectric_reflects(s(0.3), s(0.5), s(0.5)));
    assert!(!dielectric_reflects(s(f32::NAN), s(f32::NAN), s(0.5)));
}

#[test]
fn estimator_window_starts_just_off_the_surface() {
    let (near, far) = pathtracer::ray::hit_window();
    assert_eq!(f(near), 0.001);
    assert_eq!(f(far), f32::INFINITY);
}

#[test]
fn corners_pick_a_bound_per_axis() {
    let b = Aabb::from(&v(1.0, 2.0, 3.0), &v(4.0, 5.0, 6.0));
    assert_eq!(floats(b.corner(false, false, false)), [1.0, 2.0, 3.0]);
    assert_eq!(floats(b.corner(true, false, false)), [4.0, 2.0, 3.0]);
    assert_eq!(floats(b.corner(false, true, false)), [1.0, 5.0, 3.0]);
    assert_eq!(floats(b.corner(false, false, true)), [1.0, 2.0, 6.0]);
    assert_eq!(floats(b.corner(true, true, true)), [4.0, 5.0, 6.0]);
}

#[test]
fn enclosing_box_is_tight_around_the_points() {
    let b = Aabb::enclosing(&vec![
        v(1.0, -2.0, 3.0),
        v(-4.0, 5.0, 0.5),
        v(0.0, 0.0, 9.0),
        v(f32::NAN, 1.0, 1.0),
    ]);
    assert_eq!(floats(b.min()), [-4.0, -2.0, 0.5]);
    assert_eq!(floats(b.max()), [1.0, 5.0, 9.0]);
    let e = Aabb::enclosing(&vec![]);
    assert_eq!(floats(e.min()), [f32::INFINITY; 3]);
    assert_eq!(floats(e.max()), [f32::NEG_INFINITY; 3]);
}

#[test]
fn medium_scatters_within_its_stretch() {
    let seg = Some((s(2.0), s(5.0)));
    let p = v(1.0, 2.0, 3.0);
    let rec = medium_hit(seg, s(3.0), s(1.5), s(3.5), p, 9u8).unwrap();
    assert_eq!(f(rec.t), 3.5);
    assert_eq!(floats(rec.p), [1.0, 2.0, 3.0]);
    assert_eq!(floats(rec.normal), [1.0, 0.0, 0.0]);
    assert!(rec.front_face);
    assert_eq!(rec.mat_ptr, 9);
    assert_eq!([f(rec.u), f(rec.v)], [0.0, 0.0]);
    assert!(medium_hit(seg, s(3.0), s(3.0), s(5.0), p, 9u8).is_some());
    assert!(medium_hit(seg, s(3.0), s(3.5), s(5.5), p, 9u8).is_none());
    assert!(medium_hit(None, s(3.0), s(1.5), s(3.5), p, 9u8).is_none());
    assert!(medium_hit(seg, s(-3.0), s(0.5), s(0.5), p, 9u8).is_none());
    assert!(medium_hit(seg, s(f32::NAN), s(1.5), s(3.5), p, 9u8).is_some());
}

#[test]
fn sphere_has_roots_unless_the_discriminant_is_negative() {
    assert!(has_roots(s(4.0)));
    assert!(has_roots(s(0.0)));
    assert!(has_roots(s(-0.0)));
    assert!(!has_roots(s(-1e-20)));
    assert!(has_roots(s(f32::NAN)));
}

#[test]
fn samples_are_kept_inside_the_unit_ball() {
    assert!(keeps_sample(s(0.0)));
    assert!(keeps_sample(s(0.999_999)));
    assert!(!keeps_sample(s(1.0)));
    assert!(!keeps_sample(s(2.5)));
    assert!(keeps_sample(s(f32::NAN)));
    assert!(in_hemisphere(s(0.25)));
    assert!(!in_hemisphere(s(0.0)));
    assert!(!in_hemisphere(s(-0.25)));
    assert!(!in_hemisphere(s(f32::NAN)));
}

#[test]
fn checker_is_odd_where_the_sines_are_negative() {
    assert!(checker_takes_odd(s(-0.1)));
    assert!(!checker_takes_odd(s(0.0)));
    assert!(!checker_takes_odd(s(-0.0)));
    assert!(!checker_takes_odd(s(0.3)));
    assert!(!checker_takes_odd(s(f32::NAN)));
}

fn hit_at(p: Vec3, normal: Vec3) -> HitRecord<u8> {
    let mut rec = HitRecord::void(3u8);
    rec.p = p;
    rec.normal = normal;
    rec
}

#[test]
fn library_ray_keeps_its_parts() {
    let r = Ray::new(v(1.0, 2.0, 3.0), v(0.0, 0.0, -1.0), s(0.25));
    assert_eq!(floats(r.origin()), [1.0, 2.0, 3.0]);
    assert_eq!(floats(r.direction()), [0.0, 0.0, -1.0]);
    assert_eq!(f(r.time()), 0.25);
}

#[test]
fn diffuse_surface_always_scatters_from_the_hit() {
    let rec = hit_at(v(1.0, 2.0, 3.0), v(0.0, 1.0, 0.0));
    let out = scatter_lambertian(s(0.5), &rec, v(0.3, 1.2, -0.1), v(0.4, 0.2, 0.1)).unwrap();
    assert_eq!(floats(out.attenuation), [0.4, 0.2, 0.1]);
    assert_eq!(floats(out.ray.orig), [1.0, 2.0, 3.0]);
    assert_eq!(floats(out.ray.dir), [0.3, 1.2, -0.1]);
    assert_eq!(f(out.ray.tm), 0.5);
    let flat = scatter_lambertian(s(0.5), &rec, v(1e-9, -1e-9, 0.0), v(0.4, 0.2, 0.1)).unwrap();
    assert_eq!(floats(flat.ray.dir), [0.0, 1.0, 0.0]);
}

#[test]
fn metal_absorbs_what_does_not_leave_the_surface() {
    let rec = hit_at(v(1.0, 2.0, 3.0), v(0.0, 1.0, 0.0));
    let metal = Metal::from(v(0.8, 0.6, 0.2), s(0.0));
    let out = metal.scatter(s(0.5), &rec, v(0.6, 0.8, 0.0), s(0.8)).unwrap();
    assert_eq!(floats(out.attenuation), [0.8, 0.6, 0.2]);
    assert_eq!(floats(out.ray.orig), [1.0, 2.0, 3.0]);
    assert_eq!(floats(out.ray.dir), [0.6, 0.8, 0.0]);
    assert_eq!(f(out.ray.tm), 0.5);
    assert!(metal.scatter(s(0.5), &rec, v(0.6, -0.8, 0.0), s(-0.8)).is_none());
    assert!(metal.scatter(s(0.5), &rec, v(1.0, 0.0, 0.0), s(0.0)).is_none());
    assert!(metal.scatter(s(0.5), &rec, v(1.0, 0.0, 0.0), s(f32::NAN)).is_none());
}

#[test]
fn glass_always_scatters_and_takes_nothing() {
    let rec = hit_at(v(1.0, 2.0, 3.0), v(0.0, 1.0, 0.0));
    let up = v(0.0, 1.0, 0.0);
    let down = v(0.0, -1.0, 0.0);
    let total = scatter_dielectric(s(0.5), &rec, up, down, s(1.2), s(0.0), s(0.9)).unwrap();
    assert_eq!(floats(total.attenuation), [1.0, 1.0, 1.0]);
    assert_eq!(floats(total.ray.dir), [0.0, 1.0, 0.0]);
    assert_eq!(floats(total.ray.orig), [1.0, 2.0, 3.0]);
    assert_eq!(f(total.ray.tm), 0.5);
    let through = scatter_dielectric(s(0.5), &rec, up, down, s(0.3), s(0.04), s(0.5)).unwrap();
    assert_eq!(floats(through.ray.dir), [0.0, -1.0, 0.0]);
    let chance = scatter_dielectric(s(0.5), &rec, up, down, s(0.3), s(0.6), s(0.5)).unwrap();
    assert_eq!(floats(chance.ray.dir), [0.0, 1.0, 0.0]);
}

#[test]
fn light_absorbs_and_medium_scatters() {
    assert!(scatter_diffuse_light().is_none());
    let rec = hit_at(v(1.0, 2.0, 3.0), v(1.0, 0.0, 0.0));
    let out = scatter_isotropic(s(0.75), &rec, v(0.1, -0.2, 0.3), v(1.0, 1.0, 1.0)).unwrap();
    assert_eq!(floats(out.attenuation), [1.0, 1.0, 1.0]);
    assert_eq!(floats(out.ray.orig), [1.0, 2.0, 3.0]);
    assert_eq!(floats(out.ray.dir), [0.1, -0.2, 0.3]);
    assert_eq!(f(out.ray.tm), 0.75);
}
