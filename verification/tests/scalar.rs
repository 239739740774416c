use pathtracer::scalar::Scalar;
use pathtracer::utils::{clamp, random_int};
use pathtracer::vec3::Vec3;

fn s(x: f32) -> Scalar {
    Scalar::from_bits(x.to_bits())
}

fn f(x: Scalar) -> f32 {
    f32::from_bits(x.to_bits())
}

fn samples() -> Vec<f32> {
    let mut v = vec![
        0.0,
        -0.0,
        1.0,
        -1.0,
        0.5,
        -0.5,
        0.001,
        1e-8,
        -1e-8,
        9.9e-9,
        1.1e-8,
        0.999,
        1e30,
        -1e30,
        f32::MAX,
        f32::MIN,
        f32::MIN_POSITIVE,
        -f32::MIN_POSITIVE,
        1e-45,
        -1e-45,
        f32::INFINITY,
        f32::NEG_INFINITY,
        f32::NAN,
        -f32::NAN,
        180.0,
        255.0,
        123.456,
        -555.0,
    ];
    let mut x: u32 = 12345;
    for _ in 0..400 {
        x = x.wrapping_mul(1664525).wrapping_add(1013904223);
        v.push(f32::from_bits(x));
    }
    v
}

#[test]
fn bits_round_trip_for_every_pattern_tried() {
    for x in samples() {
        assert_eq!(s(x).to_bits(), x.to_bits());
    }
    assert_eq!(Scalar::from_bits(0).code, 0);
    assert_eq!(Scalar::from_bits(0x8000_0000).code, -1);
    assert_eq!(Scalar::from_bits(0x3f80_0000).code, 0x3f80_0000);
    assert_eq!(Scalar::from_bits(0xbf80_0000).code, -0x3f80_0001);
    assert_eq!(Scalar::from_bits(u32::MAX).code, i32::MIN);
    assert_eq!(Scalar { code: i32::MIN }.to_bits(), u32::MAX);
    assert_eq!(Scalar { code: i32::MAX }.to_bits(), 0x7fff_ffff);
}

#[test]
fn zero_is_positive_zero() {
    assert_eq!(f(Scalar::zero()).to_bits(), 0.0f32.to_bits());
}

#[test]
fn is_nan_agrees_with_the_machine() {
    for x in samples() {
        assert_eq!(s(x).is_nan(), x.is_nan(), "{}", x);
    }
}

#[test]
fn lt_and_le_agree_with_the_machine() {
    let v = samples();
    for &a in v.iter() {
        for &b in v.iter() {
            assert_eq!(s(a).lt(s(b)), a < b, "{} < {}", a, b);
            assert_eq!(s(a).le(s(b)), a <= b, "{} <= {}", a, b);
        }
    }
}

#[test]
fn neg_flips_the_sign_bit() {
    for x in samples() {
        assert_eq!(s(x).neg().to_bits(), (-x).to_bits());
    }
    assert_eq!(s(1.0).neg(), s(-1.0));
    assert_ne!(s(0.0).neg(), s(0.0));
}

#[test]
fn clamp_agrees_with_the_machine() {
    let v = samples();
    for &x in v.iter() {
        let expected = if x < 0.0 {
            0.0
        } else if x > 0.999 {
            0.999
        } else {
            x
        };
        assert_eq!(
            clamp(s(x), s(0.0), s(0.999)).to_bits(),
            expected.to_bits()
        );
    }
    assert_eq!(clamp(s(5.0), s(1.0), s(3.0)), s(3.0));
    assert_eq!(clamp(s(-5.0), s(1.0), s(3.0)), s(1.0));
    assert_eq!(clamp(s(2.0), s(1.0), s(3.0)), s(2.0));
    assert!(clamp(s(f32::NAN), s(1.0), s(3.0)).is_nan());
}

#[test]
fn random_int_stays_in_its_range() {
    for _ in 0..200 {
        let r = random_int(0, 3);
        assert!(0 <= r && r < 3);
        assert_eq!(random_int(5, 6), 5);
        assert_eq!(random_int(-7, -6), -7);
        let q = random_int(-2, 2);
        assert!(-2 <= q && q < 2);
    }
}

#[test]
fn random_int_reaches_every_value() {
    let mut seen = [false; 3];
    for _ in 0..500 {
        seen[random_int(0, 3) as usize] = true;
    }
    assert_eq!(seen, [true, true, true]);
}

#[test]
fn vec3_builds_and_reads() {
    let v = Vec3::from(s(1.0), s(-2.0), s(3.5));
    assert_eq!(f(v.x()), 1.0);
    assert_eq!(f(v.y()), -2.0);
    assert_eq!(f(v.z()), 3.5);
    assert_eq!(f(v.get_at(0)), 1.0);
    assert_eq!(f(v.get_at(1)), -2.0);
    assert_eq!(f(v.get_at(2)), 3.5);
    let z = Vec3::new();
    assert_eq!(z.e, [s(0.0), s(0.0), s(0.0)]);
}

#[test]
fn vec3_inv_negates_each_component() {
    let v = Vec3::from(s(1.0), s(-2.0), s(0.0)).inv();
    assert_eq!(f(v.x()), -1.0);
    assert_eq!(f(v.y()), 2.0);
    assert_eq!(f(v.z()).to_bits(), (-0.0f32).to_bits());
}

#[test]
fn near_zero_agrees_with_the_machine() {
    let v = samples();
    let limit: f32 = 1e-8;
    for &a in v.iter() {
        let expected = a.abs() < limit;
        assert_eq!(Vec3::from(s(a), s(0.0), s(0.0)).near_zero(), expected, "{}", a);
        assert_eq!(Vec3::from(s(0.0), s(a), s(0.0)).near_zero(), expected, "{}", a);
        assert_eq!(Vec3::from(s(0.0), s(0.0), s(a)).near_zero(), expected, "{}", a);
    }
    assert!(Vec3::from(s(9e-9), s(-9e-9), s(0.0)).near_zero());
    assert!(!Vec3::from(s(9e-9), s(1e-7), s(0.0)).near_zero());
    assert!(!Vec3::from(s(1e-8), s(0.0), s(0.0)).near_zero());
}
