use saberrs::utils::{ratio_to_value, value_to_ratio};
use saberrs::Binary32;
use saberrs::utils::ratio_to_value_range;

fn ratio(x: f32) -> Binary32 {
    Binary32::from_bits(x.to_bits())
}

fn float(x: Binary32) -> f32 {
    f32::from_bits(x.to_bits())
}

/// The command value as the hardware computes it.
fn hardware_value(x: f32) -> i32 {
    (x * 2047.0f32) as i32
}

#[test]
fn ratio_to_value_matches_hardware_on_a_sweep() {
    let mut bits: u32 = 0;
    while bits <= 0x3f80_0000 {
        let x = f32::from_bits(bits);
        assert_eq!(ratio_to_value(ratio(x)).unwrap(), hardware_value(x), "{}", x);
        assert_eq!(ratio_to_value(ratio(-x)).unwrap(), hardware_value(-x), "{}", -x);
        bits += 4099;
    }
    assert_eq!(ratio_to_value(ratio(1.0)).unwrap(), 2047);
    assert_eq!(ratio_to_value(ratio(-1.0)).unwrap(), -2047);
}

#[test]
fn ratio_to_value_matches_hardware_near_every_step() {
    for n in 1..=2047 {
        let centre = (n as f32 / 2047.0f32).to_bits();
        for bits in (centre - 8)..=(centre + 8) {
            let x = f32::from_bits(bits);
            if x <= 1.0 {
                assert_eq!(ratio_to_value(ratio(x)).unwrap(), hardware_value(x), "{}", x);
            }
        }
    }
}

#[test]
fn value_to_ratio_matches_hardware() {
    for value in -20000..=20000 {
        let expected = value as f32 / 2047.0f32;
        assert_eq!(value_to_ratio(value).to_bits(), expected.to_bits(), "{}", value);
    }
    for value in [i32::MAX, i32::MIN, 16777217, 33554435, -16777219, 123456789] {
        let expected = value as f32 / 2047.0f32;
        assert_eq!(value_to_ratio(value).to_bits(), expected.to_bits(), "{}", value);
    }
}

#[test]
fn ratio_beyond_one_is_refused() {
    for x in [1.0001f32, -1.0001, 2.0, -1e30, f32::INFINITY, f32::NEG_INFINITY, f32::NAN] {
        assert!(ratio_to_value(ratio(x)).is_err(), "{}", x);
    }
    assert!(ratio_to_value(Binary32::from_bits(0x3f80_0001)).is_err());
    assert!(ratio_to_value(Binary32::from_bits(0xffc0_0000)).is_err());
}

#[test]
fn round_trip_stays_within_one_step() {
    let mut bits: u32 = 0;
    while bits <= 0x3f80_0000 {
        let x = f32::from_bits(bits);
        let back = float(value_to_ratio(ratio_to_value(ratio(x)).unwrap()));
        assert!(((back as f64) - (x as f64)).abs() * 2047.0 <= 1.0, "{}", x);
        bits += 7919;
    }
}

fn samples() -> Vec<f32> {
    let mut out = vec![
        0.0,
        -0.0,
        1.0,
        -1.0,
        0.1,
        0.5,
        5.12,
        25.0,
        127.0,
        2047.0,
        1e-40,
        -1e-40,
        1e-20,
        3.4e38,
        -3.4e38,
        16777216.0,
        2147483648.0,
        -2147483648.0,
        2147483520.0,
        f32::MIN_POSITIVE,
        f32::MAX,
        f32::INFINITY,
        f32::NEG_INFINITY,
        f32::NAN,
    ];
    let mut bits: u32 = 1;
    while bits < 0x7f80_0000 {
        out.push(f32::from_bits(bits));
        out.push(f32::from_bits(bits | 0x8000_0000));
        bits = bits.wrapping_mul(3).wrapping_add(0x0123_4567) % 0x7f80_0000;
        if out.len() > 400 {
            break;
        }
    }
    out
}

#[test]
fn products_match_hardware() {
    let all = samples();
    for a in all.iter() {
        for b in all.iter() {
            let expected = (a * b) as i32;
            assert_eq!(ratio(*a).mul_to_i32(&ratio(*b)), expected, "{} {}", a, b);
        }
    }
}

#[test]
fn order_and_sign_match_hardware() {
    let all = samples();
    for a in all.iter() {
        let x = ratio(*a);
        assert_eq!(x.is_nan(), a.is_nan());
        assert_eq!(x.is_finite(), a.is_finite());
        assert_eq!(x.is_zero(), *a == 0.0);
        assert_eq!(x.is_at_least_zero(), *a >= 0.0);
        assert_eq!(x.is_below_zero(), *a < 0.0);
        assert_eq!(x.within_unit(), *a >= -1.0 && *a <= 1.0);
        assert_eq!(x.is_sign_negative(), a.is_sign_negative());
        assert_eq!(x.negated().to_bits(), (-a).to_bits());
        for b in all.iter() {
            assert_eq!(x.is_above(&ratio(*b)), a > b, "{} {}", a, b);
        }
    }
}

#[test]
fn ratios_on_other_scales() {
    for (x, expected) in [(0.51f32, 64), (0.2, 25), (0.85, 107), (1.0, 127), (-0.3, 0), (0.0, 0)] {
        assert_eq!(ratio_to_value_range(ratio(x), 0, 127).unwrap(), expected);
    }
    assert_eq!(ratio_to_value_range(ratio(-0.3), -127, 127).unwrap(), -38);
    assert!(ratio_to_value_range(ratio(1.5), 0, 127).is_err());
}

#[test]
fn exact_values_of_the_codec() {
    for (x, expected) in [
        (0.2f32, 409),
        (-0.2, -409),
        (0.25, 511),
        (0.75, 1535),
        (0.999_999_94, 2046),
        (1.0, 2047),
        (1e-30, 0),
        (-1e-45, 0),
        (4.8851978e-4, 1),
        (4.885197e-4, 0),
    ] {
        assert_eq!(ratio_to_value(ratio(x)).unwrap(), expected, "{}", x);
    }
    assert_eq!(value_to_ratio(2047).to_bits(), 1.0f32.to_bits());
    assert_eq!(value_to_ratio(-2047).to_bits(), (-1.0f32).to_bits());
    assert_eq!(value_to_ratio(0).to_bits(), 0);
    assert_eq!(float(value_to_ratio(1256)), 1256.0 / 2047.0);
}


#[test]
fn command_values_keep_the_order_of_the_ratios() {
    let mut last = -2047;
    let mut bits: u32 = 0xbf80_0000;
    // from minus one up to minus zero
    while bits >= 0x8000_0000 {
        let value = ratio_to_value(Binary32::from_bits(bits)).unwrap();
        assert!(last <= value, "{:#x}", bits);
        last = value;
        if bits - 0x8000_0000 < 6007 {
            break;
        }
        bits -= 6007;
    }
    // from zero up to one
    let mut bits: u32 = 0;
    while bits <= 0x3f80_0000 {
        let value = ratio_to_value(Binary32::from_bits(bits)).unwrap();
        assert!(last <= value, "{:#x}", bits);
        last = value;
        bits += 6007;
    }
    assert_eq!(ratio_to_value(Binary32::from_bits(0x3f80_0000)).unwrap(), 2047);
}
