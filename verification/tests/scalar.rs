use rollback_netcode::scalar::{Scalar, Vec3};

fn s(v: f32) -> Scalar {
    Scalar::from_bits(v.to_bits())
}

const SAMPLES: [u32; 24] = [
    0x0000_0000,
    0x8000_0000,
    0x0000_0001,
    0x8000_0001,
    0x007f_ffff,
    0x0080_0000,
    0x3f80_0000,
    0xbf80_0000,
    0x3f80_0001,
    0x38d1_b717,
    0x38d1_b718,
    0x38d1_b716,
    0xb8d1_b717,
    0x7f7f_ffff,
    0xff7f_ffff,
    0x7f80_0000,
    0xff80_0000,
    0x7f80_0001,
    0x7fc0_0000,
    0xffc0_0000,
    0xffff_ffff,
    0x7fff_ffff,
    0x4049_0fdb,
    0xc049_0fdb,
];

#[test]
fn float_eq_agrees_with_the_hardware() {
    for a in SAMPLES {
        for b in SAMPLES {
            let expected = f32::from_bits(a) == f32::from_bits(b);
            assert_eq!(Scalar::from_bits(a).float_eq(Scalar::from_bits(b)), expected, "{a:#x} == {b:#x}");
        }
    }
}

#[test]
fn float_gt_agrees_with_the_hardware() {
    for a in SAMPLES {
        for b in SAMPLES {
            let expected = f32::from_bits(a) > f32::from_bits(b);
            assert_eq!(Scalar::from_bits(a).float_gt(Scalar::from_bits(b)), expected, "{a:#x} > {b:#x}");
        }
    }
}

#[test]
fn classification_agrees_with_the_hardware() {
    for a in SAMPLES {
        let f = f32::from_bits(a);
        let x = Scalar::from_bits(a);
        assert_eq!(x.is_nan(), f.is_nan());
        assert_eq!(x.is_finite(), f.is_finite());
        assert_eq!(x.is_sign_negative(), f.is_sign_negative());
        assert_eq!(x.magnitude(), f.abs().to_bits());
    }
}

#[test]
fn clamp_unit_agrees_with_the_hardware() {
    for a in SAMPLES {
        let expected = f32::from_bits(a).clamp(0.0, 1.0);
        assert_eq!(Scalar::from_bits(a).clamp_unit().bits, expected.to_bits(), "{a:#x}");
    }
    assert_eq!(s(0.5).clamp_unit(), s(0.5));
    assert_eq!(s(2.0).clamp_unit(), s(1.0));
    assert_eq!(s(-2.0).clamp_unit(), s(0.0));
}

#[test]
fn the_two_zeros_are_one_number() {
    assert!(s(0.0).float_eq(s(-0.0)));
    assert_ne!(s(0.0), s(-0.0));
    assert!(!s(0.0).float_gt(s(-0.0)));
    assert!(!s(-0.0).float_gt(s(0.0)));
}

#[test]
fn nan_equals_nothing() {
    let nan = s(f32::NAN);
    assert!(!nan.float_eq(nan));
    assert_eq!(nan, nan);
    assert!(!nan.float_gt(s(0.0)));
    assert!(!s(0.0).float_gt(nan));
}

#[test]
fn vector_comparison_is_component_wise() {
    let a = Vec3::from_bits(1.0f32.to_bits(), 0.0f32.to_bits(), 2.5f32.to_bits());
    let b = Vec3::from_bits(1.0f32.to_bits(), (-0.0f32).to_bits(), 2.5f32.to_bits());
    let c = Vec3::from_bits(1.0f32.to_bits(), 0.0f32.to_bits(), 2.75f32.to_bits());
    assert!(a.float_eq(b));
    assert!(!a.float_ne(b));
    assert!(a.float_ne(c));
    assert!(!a.float_eq(c));
    let n = Vec3::from_bits(1.0f32.to_bits(), f32::NAN.to_bits(), 2.5f32.to_bits());
    assert!(n.float_ne(n));
    assert!(n.is_nan());
    assert!(!a.is_nan());
}

#[test]
fn vector_finiteness() {
    assert!(Vec3::zero().is_finite());
    assert_eq!(Vec3::zero(), Vec3::from_bits(0, 0, 0));
    assert!(!Vec3::from_bits(0, f32::INFINITY.to_bits(), 0).is_finite());
    assert!(!Vec3::from_bits(0, 0, f32::NAN.to_bits()).is_finite());
    assert!(!Vec3::from_bits(f32::NEG_INFINITY.to_bits(), 0, 0).is_finite());
    assert!(Vec3::from_bits(f32::MAX.to_bits(), f32::MIN.to_bits(), f32::MIN_POSITIVE.to_bits()).is_finite());
}
