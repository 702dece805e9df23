use evobandits::binary64::Binary64;
use evobandits::binary64::FRACTION_SPAN;
use evobandits::binary64::INFINITY_BITS;
use evobandits::binary64::ONE_BITS;
use evobandits::binary64::SIGN_BIT;
use evobandits::float_key::FloatKey;
use std::cmp::Ordering;

fn number(x: f64) -> Binary64 {
    Binary64::from_bits(x.to_bits())
}

fn samples() -> Vec<f64> {
    vec![
        0.0,
        -0.0,
        f64::from_bits(1),
        -f64::from_bits(1),
        f64::MIN_POSITIVE,
        -f64::MIN_POSITIVE,
        f64::from_bits(0x000F_FFFF_FFFF_FFFF),
        1e-300,
        -1e-300,
        0.1,
        0.25,
        0.5,
        0.9,
        1.0 - f64::EPSILON / 2.0,
        1.0,
        1.0 + f64::EPSILON,
        1.01,
        -0.01,
        -1.0,
        2.0,
        -2.0,
        3.5,
        1e300,
        -1e300,
        f64::MAX,
        f64::MIN,
        f64::INFINITY,
        f64::NEG_INFINITY,
        f64::NAN,
        -f64::NAN,
        f64::from_bits(0x7FF0_0000_0000_0001),
        f64::from_bits(0xFFFF_FFFF_FFFF_FFFF),
    ]
}

#[test]
fn the_constants_are_the_patterns_they_name() {
    assert_eq!(ONE_BITS, 1.0f64.to_bits());
    assert_eq!(INFINITY_BITS, f64::INFINITY.to_bits());
    assert_eq!(SIGN_BIT, (-0.0f64).to_bits());
    assert_eq!(FRACTION_SPAN, 1u64 << 52);
    assert_eq!(Binary64::zero().to_bits(), 0.0f64.to_bits());
}

#[test]
fn patterns_go_in_and_out_unchanged() {
    for x in samples() {
        assert_eq!(number(x).to_bits(), x.to_bits());
        assert_eq!(number(x), Binary64 { bits: x.to_bits() });
    }
}

#[test]
fn nan_and_sign_are_those_of_the_number() {
    for x in samples() {
        assert_eq!(number(x).is_nan(), x.is_nan());
        assert_eq!(number(x).is_sign_negative(), x.is_sign_negative());
        assert_eq!(number(x).magnitude_bits(), x.abs().to_bits());
    }
}

#[test]
fn less_than_is_that_of_the_numbers() {
    for a in samples() {
        for b in samples() {
            assert_eq!(number(a).lt(&number(b)), a < b);
        }
    }
}

#[test]
fn at_most_is_that_of_the_numbers() {
    for a in samples() {
        for b in samples() {
            assert_eq!(number(a).le(&number(b)), a <= b);
        }
    }
}

#[test]
fn the_unit_interval_is_that_of_the_numbers() {
    for x in samples() {
        assert_eq!(number(x).in_unit_interval(), (0.0..=1.0).contains(&x));
    }
    assert!(number(0.0).in_unit_interval());
    assert!(number(-0.0).in_unit_interval());
    assert!(number(1.0).in_unit_interval());
    assert!(!number(1.01).in_unit_interval());
    assert!(!number(-0.01).in_unit_interval());
    assert!(!number(f64::NAN).in_unit_interval());
}

#[test]
fn below_zero_is_that_of_the_numbers() {
    for x in samples() {
        assert_eq!(number(x).is_below_zero(), x < 0.0);
    }
}

#[test]
fn sort_keys_order_numbers_as_numbers() {
    for a in samples() {
        for b in samples() {
            if a.is_nan() || b.is_nan() {
                continue;
            }
            let keys = FloatKey::new(number(a)).sort_key().cmp(&FloatKey::new(number(b)).sort_key());
            assert_eq!(Some(keys), a.partial_cmp(&b));
            assert_eq!(FloatKey::new(number(a)).cmp(&FloatKey::new(number(b))), keys);
        }
    }
}

#[test]
fn a_nan_sorts_before_every_number() {
    for a in samples() {
        let nan = FloatKey::new(number(f64::NAN));
        let key = FloatKey::new(number(a));
        if a.is_nan() {
            assert_eq!(key.sort_key(), i64::MIN);
            assert_eq!(nan.cmp(&key), Ordering::Equal);
        } else {
            assert!(nan.sort_key() < key.sort_key());
            assert_eq!(nan.cmp(&key), Ordering::Less);
            assert_eq!(key.cmp(&nan), Ordering::Greater);
        }
    }
}

#[test]
fn sort_keys_have_exact_values() {
    assert_eq!(FloatKey::new(number(0.0)).sort_key(), 0);
    assert_eq!(FloatKey::new(number(-0.0)).sort_key(), 0);
    assert_eq!(FloatKey::new(number(1.0)).sort_key(), 0x3FF0_0000_0000_0000);
    assert_eq!(FloatKey::new(number(-1.0)).sort_key(), -0x3FF0_0000_0000_0000);
    assert_eq!(FloatKey::new(number(f64::INFINITY)).sort_key(), 0x7FF0_0000_0000_0000);
    assert_eq!(FloatKey::new(number(f64::NEG_INFINITY)).sort_key(), -0x7FF0_0000_0000_0000);
    assert_eq!(FloatKey::new(number(f64::from_bits(1))).sort_key(), 1);
}

#[test]
fn a_sort_key_leads_back_to_the_number() {
    for a in samples() {
        let code = FloatKey::new(number(a)).sort_key();
        let back = FloatKey::from_sort_key(code).unwrap();
        assert_eq!(back.sort_key(), code);
        let score = f64::from_bits(back.0.to_bits());
        if a.is_nan() {
            assert!(score.is_nan());
        } else {
            assert_eq!(score, a);
        }
    }
    assert_eq!(FloatKey::from_sort_key(0).unwrap().0.to_bits(), 0);
    assert_eq!(FloatKey::from_sort_key(-1).unwrap().0.to_bits(), SIGN_BIT + 1);
}

#[test]
fn integers_beyond_infinity_stand_for_no_key() {
    assert!(FloatKey::from_sort_key(0x7FF0_0000_0000_0001).is_none());
    assert!(FloatKey::from_sort_key(-0x7FF0_0000_0000_0001).is_none());
    assert!(FloatKey::from_sort_key(i64::MAX).is_none());
    assert!(FloatKey::from_sort_key(i64::MIN + 1).is_none());
    assert!(FloatKey::from_sort_key(i64::MIN).is_some());
    assert!(FloatKey::from_sort_key(0x7FF0_0000_0000_0000).is_some());
    assert!(FloatKey::from_sort_key(-0x7FF0_0000_0000_0000).is_some());
}

#[test]
fn comparisons_agree_on_patterns_of_every_kind() {
    let mut state: u64 = 0x9E37_79B9_7F4A_7C15;
    let mut next = || {
        state ^= state << 13;
        state ^= state >> 7;
        state ^= state << 17;
        state
    };
    for round in 0..20000 {
        let mut a = next();
        let mut b = next();
        if round % 4 == 1 {
            b = a ^ (next() & 0xFF);
        }
        if round % 4 == 2 {
            a &= 0x800F_FFFF_FFFF_FFFF;
            b &= 0x800F_FFFF_FFFF_FFFF;
        }
        if round % 4 == 3 {
            a |= 0x7FF0_0000_0000_0000;
        }
        let (x, y) = (f64::from_bits(a), f64::from_bits(b));
        let (p, q) = (Binary64::from_bits(a), Binary64::from_bits(b));
        assert_eq!(p.lt(&q), x < y);
        assert_eq!(q.lt(&p), y < x);
        assert_eq!(p.le(&q), x <= y);
        assert_eq!(p.is_nan(), x.is_nan());
        assert_eq!(p.in_unit_interval(), (0.0..=1.0).contains(&x));
        assert_eq!(p.is_below_zero(), x < 0.0);
        if !x.is_nan() && !y.is_nan() {
            let keys = FloatKey::new(p).sort_key().cmp(&FloatKey::new(q).sort_key());
            assert_eq!(Some(keys), x.partial_cmp(&y));
        }
    }
}
