use gateway::binary64::{ratio_at_least, Binary64};

fn number(x: f64) -> Binary64 {
    Binary64 { bits: x.to_bits() }
}

fn samples() -> Vec<u64> {
    let mut words: Vec<u64> = vec![
        0,
        1,
        2,
        3,
        10,
        1 << 52,
        (1 << 53) - 1,
        1 << 53,
        (1 << 53) + 1,
        (1 << 54) + 2,
        (1 << 54) + 6,
        u64::MAX / 2,
        u64::MAX - 1024,
        u64::MAX - 1023,
        u64::MAX - 1,
        u64::MAX,
    ];
    let mut x: u64 = 0x9e37_79b9_7f4a_7c15;
    for shift in 0..60 {
        x = x.wrapping_mul(6364136223846793005).wrapping_add(1442695040888963407);
        words.push(x >> shift);
    }
    words
}

fn values() -> Vec<f64> {
    let mut all = vec![
        0.0,
        -0.0,
        0.1,
        0.2,
        0.5,
        0.8,
        1.0,
        1.5,
        -1.0,
        1e-300,
        -1e-300,
        5e-324,
        2.2250738585072014e-308,
        f64::MAX,
        f64::MIN,
        f64::INFINITY,
        f64::NEG_INFINITY,
        f64::NAN,
        -f64::NAN,
    ];
    for word in samples() {
        all.push((word >> 11) as f64 / 9007199254740992.0);
    }
    all
}

#[test]
fn counters_convert_as_numbers_do() {
    for n in samples() {
        assert_eq!(Binary64::from_u64(n).bits, (n as f64).to_bits());
    }
}

#[test]
fn ratios_divide_as_numbers_do() {
    for a in samples() {
        for b in samples() {
            let expected = a as f64 / b as f64;
            let got = Binary64::ratio(a, b);
            if expected.is_nan() {
                assert!(f64::from_bits(got.bits).is_nan());
            } else {
                assert_eq!(got.bits, expected.to_bits());
            }
        }
    }
}

#[test]
fn ratios_reach_thresholds_as_numbers_do() {
    for a in [0u64, 1, 3, 5, 8, 10, u64::MAX] {
        for b in [0u64, 1, 10, 20, u64::MAX] {
            for t in values() {
                assert_eq!(ratio_at_least(a, b, number(t)), a as f64 / b as f64 >= t);
            }
        }
    }
}

#[test]
fn comparisons_are_those_of_numbers() {
    for x in values() {
        for y in values() {
            assert_eq!(number(x).lt(number(y)), x < y);
            assert_eq!(number(x).ge(number(y)), x >= y);
        }
        assert_eq!(number(x).is_positive(), x > 0.0);
    }
}

#[test]
fn clamping_is_that_of_numbers() {
    for x in values() {
        let expected = x.clamp(0.0, 1.0);
        let got = f64::from_bits(number(x).clamp_unit().bits);
        if expected.is_nan() {
            assert!(got.is_nan());
        } else {
            assert_eq!(got, expected);
        }
    }
}

#[test]
fn tenths_multiply_as_numbers_do() {
    for x in values() {
        if x >= 0.0 && x <= 1.0 && x.is_sign_positive() {
            assert_eq!(number(x).tenth().bits, (x * 0.1).to_bits());
        }
    }
}

#[test]
fn hash_thresholds_are_shares_of_all_words() {
    for x in values() {
        if x >= 0.0 && x <= 1.0 && x.is_sign_positive() {
            assert_eq!(number(x).to_hash_threshold(), (x * u64::MAX as f64) as u64);
        }
    }
    assert_eq!(number(1.0).to_hash_threshold(), u64::MAX);
    assert_eq!(number(0.5).to_hash_threshold(), 1 << 63);
    assert_eq!(number(0.0).to_hash_threshold(), 0);
}

#[test]
fn random_words_stand_for_numbers_below_one() {
    for word in samples() {
        let expected = (word >> 11) as f64 / 9007199254740992.0;
        assert_eq!(Binary64::unit_interval(word).bits, expected.to_bits());
    }
    assert!(f64::from_bits(Binary64::unit_interval(u64::MAX).bits) < 1.0);
}
