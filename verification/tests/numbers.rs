use tabletflow::binary::{
    abs32, abs64, add32, div32, div64, eq64, finite32, finite64, from_integer32, from_integer64,
    lt32, lt64, narrow, sub32, sub64, widen,
};
use tabletflow::decimal::{decimal_text, fixed_text32, fixed_text64, whole64};

const DOUBLES: [f64; 24] = [
    0.0,
    -0.0,
    1.0,
    -1.0,
    0.1,
    0.5,
    1.5,
    2.5,
    0.005,
    10.0,
    1920.0,
    -1080.25,
    152.4,
    1e-310,
    5e-324,
    2.2250738585072014e-308,
    1e16,
    9007199254740993.0,
    1e300,
    f64::MAX,
    f64::MIN,
    f64::INFINITY,
    f64::NEG_INFINITY,
    f64::NAN,
];

const SINGLES: [f32; 18] = [
    0.0,
    -0.0,
    1.0,
    0.1,
    0.5,
    -2.5,
    3.0,
    1920.0,
    1080.25,
    16777217.0,
    1e-40,
    1e-45,
    3.4e38,
    f32::MAX,
    f32::MIN_POSITIVE,
    f32::INFINITY,
    f32::NEG_INFINITY,
    f32::NAN,
];

fn same64(bits: u64, wanted: f64) {
    let value = f64::from_bits(bits);
    assert!(
        value.to_bits() == wanted.to_bits() || (value.is_nan() && wanted.is_nan()),
        "{value:?} is not {wanted:?}"
    );
}

fn same32(bits: u32, wanted: f32) {
    let value = f32::from_bits(bits);
    assert!(
        value.to_bits() == wanted.to_bits() || (value.is_nan() && wanted.is_nan()),
        "{value:?} is not {wanted:?}"
    );
}

#[test]
fn double_arithmetic_is_that_of_the_machine() {
    for a in DOUBLES {
        assert_eq!(finite64(a.to_bits()), a.is_finite());
        same64(abs64(a.to_bits()), a.abs());
        same32(narrow(a.to_bits()), a as f32);
        for b in DOUBLES {
            same64(sub64(a.to_bits(), b.to_bits()), a - b);
            same64(div64(a.to_bits(), b.to_bits()), a / b);
            assert_eq!(lt64(a.to_bits(), b.to_bits()), a < b);
            assert_eq!(eq64(a.to_bits(), b.to_bits()), a == b);
        }
    }
}

#[test]
fn single_arithmetic_is_that_of_the_machine() {
    for a in SINGLES {
        assert_eq!(finite32(a.to_bits()), a.is_finite());
        same32(abs32(a.to_bits()), a.abs());
        same64(widen(a.to_bits()), a as f64);
        for b in SINGLES {
            same32(sub32(a.to_bits(), b.to_bits()), a - b);
            same32(add32(a.to_bits(), b.to_bits()), a + b);
            same32(div32(a.to_bits(), b.to_bits()), a / b);
            assert_eq!(lt32(a.to_bits(), b.to_bits()), a < b);
        }
    }
}

#[test]
fn many_quotients_are_those_of_the_machine() {
    let mut seed: u64 = 0x9e37_79b9_7f4a_7c15;
    for _ in 0..20_000 {
        seed ^= seed << 13;
        seed ^= seed >> 7;
        seed ^= seed << 17;
        let a = f64::from_bits(seed);
        let b = f64::from_bits(seed.rotate_left(29) ^ 0x5555);
        same64(div64(a.to_bits(), b.to_bits()), a / b);
        same64(sub64(a.to_bits(), b.to_bits()), a - b);
        same32(narrow(a.to_bits()), a as f32);
        let c = f32::from_bits(seed as u32);
        let d = f32::from_bits((seed >> 32) as u32);
        same32(div32(c.to_bits(), d.to_bits()), c / d);
        same32(add32(c.to_bits(), d.to_bits()), c + d);
        same64(widen(c.to_bits()), c as f64);
    }
}

#[test]
fn integers_are_rounded_as_by_the_machine() {
    for n in [0, 1, -1, 16777217, 16777219, -33554435, i64::MAX, i64::MIN, 4294967295] {
        same32(from_integer32(n), n as f32);
        same64(from_integer64(n as i128), n as f64);
    }
    same64(from_integer64(u64::MAX as i128), u64::MAX as f64);
}

#[test]
fn decimals_are_written_as_by_the_machine() {
    for a in DOUBLES {
        assert_eq!(whole64(a.to_bits()), a.fract() == 0.0);
        assert_eq!(fixed_text64(a.to_bits(), 0), format!("{a:.0}"));
        assert_eq!(fixed_text64(a.to_bits(), 2), format!("{a:.2}"));
    }
    for a in SINGLES {
        assert_eq!(fixed_text32(a.to_bits(), 0), format!("{a:.0}"));
        assert_eq!(fixed_text32(a.to_bits(), 2), format!("{a:.2}"));
        assert_eq!(fixed_text32(a.to_bits(), 4), format!("{a:.4}"));
    }
    assert_eq!(decimal_text(0), "0");
    assert_eq!(decimal_text(u128::MAX), format!("{}", u128::MAX));
}

#[test]
fn many_decimals_are_written_as_by_the_machine() {
    let mut seed: u64 = 0x2545_f491_4f6c_dd1d;
    for _ in 0..3_000 {
        seed ^= seed << 13;
        seed ^= seed >> 7;
        seed ^= seed << 17;
        let a = (seed >> 11) as f64 / 8192.0;
        assert_eq!(fixed_text64(a.to_bits(), 2), format!("{a:.2}"));
        let b = (seed >> 44) as f32 / 1024.0;
        assert_eq!(fixed_text32(b.to_bits(), 4), format!("{b:.4}"));
    }
}
