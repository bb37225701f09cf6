use glm4_moe_lite::attention::LATENT_NORM_EPS_BITS;
use glm4_moe_lite::binary32::{Binary32, ONE_BITS};

fn differs(x: f32) -> bool {
    Binary32 { bits: x.to_bits() }.differs_from_one()
}

fn by_arithmetic(x: f32) -> bool {
    (x - 1.0).abs() > f32::EPSILON
}

#[test]
fn one_and_its_neighbours() {
    assert_eq!(1.0_f32.to_bits(), ONE_BITS);
    assert!(!differs(1.0));
    for bits in 0x3F7F_FF00_u32..0x3F80_0100 {
        let x = f32::from_bits(bits);
        assert_eq!(differs(x), by_arithmetic(x), "{bits:#x}");
        assert_eq!(differs(x), !(0x3F7F_FFFE..=0x3F80_0001).contains(&bits));
    }
}

#[test]
fn usual_factors_differ_from_one() {
    assert!(differs(1.8));
    assert!(differs(0.5));
    assert!(differs(2.0));
    assert!(differs(0.0));
    assert!(differs(-1.0));
    assert!(differs(-0.0));
}

#[test]
fn extremes_agree_with_arithmetic() {
    for x in [
        f32::MAX,
        f32::MIN,
        f32::MIN_POSITIVE,
        f32::from_bits(1),
        f32::INFINITY,
        f32::NEG_INFINITY,
        f32::NAN,
        -f32::NAN,
        f32::from_bits(0x7F80_0001),
        f32::from_bits(0xFFFF_FFFF),
    ] {
        assert_eq!(differs(x), by_arithmetic(x));
    }
    assert!(!differs(f32::NAN));
    assert!(differs(f32::INFINITY));
}

#[test]
fn a_sweep_agrees_with_arithmetic() {
    let mut bits = 0_u32;
    loop {
        let x = f32::from_bits(bits);
        assert_eq!(differs(x), by_arithmetic(x), "{bits:#x}");
        match bits.checked_add(4099) {
            Some(next) => bits = next,
            None => break,
        }
    }
}

#[test]
fn epsilon_of_the_latent_norms() {
    assert_eq!(f32::from_bits(LATENT_NORM_EPS_BITS), 1e-6);
}
