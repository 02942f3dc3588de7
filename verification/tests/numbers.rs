use json_filter::comparator::{CmpType, PrivCmp};
use json_filter::double::Double;
use json_filter::number::Number;

fn double(x: f64) -> Double {
    Double::from_bits(x.to_bits())
}

fn samples() -> Vec<f64> {
    vec![
        0.0,
        -0.0,
        1.0,
        -1.0,
        25.0,
        30.0,
        0.1,
        -0.1,
        2.5,
        1e300,
        -1e300,
        f64::MIN_POSITIVE,
        -f64::MIN_POSITIVE,
        5e-324,
        -5e-324,
        f64::MAX,
        f64::MIN,
        f64::INFINITY,
        f64::NEG_INFINITY,
        f64::NAN,
        -f64::NAN,
        f64::from_bits(0x7ff0_0000_0000_0001),
        f64::from_bits(0xfff0_0000_0000_0001),
    ]
}

#[test]
fn double_keeps_its_bits() {
    for x in samples() {
        assert_eq!(double(x).to_bits(), x.to_bits());
        assert_eq!(double(x).bits, x.to_bits());
    }
}

#[test]
fn double_is_nan_as_the_machine_says() {
    for x in samples() {
        assert_eq!(double(x).is_nan(), x.is_nan(), "{x}");
    }
}

#[test]
fn double_comparisons_are_those_of_the_machine() {
    for a in samples() {
        for b in samples() {
            let (x, y) = (double(a), double(b));
            assert_eq!(x.equals(&y), a == b, "{a} == {b}");
            assert_eq!(x.differs(&y), a != b, "{a} != {b}");
            assert_eq!(x.less(&y), a < b, "{a} < {b}");
            assert_eq!(x.less_or_equal(&y), a <= b, "{a} <= {b}");
            assert_eq!(x.greater(&y), a > b, "{a} > {b}");
            assert_eq!(x.greater_or_equal(&y), a >= b, "{a} >= {b}");
        }
    }
}

#[test]
fn operators_compare_doubles_as_the_machine_does() {
    for a in samples() {
        for b in samples() {
            let (x, y) = (double(a), double(b));
            assert_eq!(CmpType::Eq.cmp_f64(&x, &y), a == b);
            assert_eq!(CmpType::Ne.cmp_f64(&x, &y), a != b);
            assert_eq!(CmpType::Gt.cmp_f64(&x, &y), a > b);
            assert_eq!(CmpType::Ge.cmp_f64(&x, &y), a >= b);
            assert_eq!(CmpType::Lt.cmp_f64(&x, &y), a < b);
            assert_eq!(CmpType::Le.cmp_f64(&x, &y), a <= b);
        }
    }
}

#[test]
fn thirty_is_above_twenty_five() {
    assert!(CmpType::Gt.cmp_f64(&double(30.0), &double(25.0)));
    assert!(!CmpType::Gt.cmp_f64(&double(25.0), &double(30.0)));
    assert!(!CmpType::Gt.cmp_f64(&double(25.0), &double(25.0)));
    assert!(CmpType::Ge.cmp_f64(&double(25.0), &double(25.0)));
}

#[test]
fn nan_is_unequal_to_everything() {
    let nan = double(f64::NAN);
    assert!(CmpType::Ne.cmp_f64(&nan, &nan));
    assert!(!CmpType::Eq.cmp_f64(&nan, &nan));
    assert!(!CmpType::Lt.cmp_f64(&nan, &double(1.0)));
    assert!(!CmpType::Ge.cmp_f64(&nan, &double(1.0)));
}

#[test]
fn operators_compare_booleans_with_false_first() {
    for a in [false, true] {
        for b in [false, true] {
            assert_eq!(CmpType::Eq.cmp_bool(&a, &b), a == b);
            assert_eq!(CmpType::Ne.cmp_bool(&a, &b), a != b);
            assert_eq!(CmpType::Gt.cmp_bool(&a, &b), a > b);
            assert_eq!(CmpType::Ge.cmp_bool(&a, &b), a >= b);
            assert_eq!(CmpType::Lt.cmp_bool(&a, &b), a < b);
            assert_eq!(CmpType::Le.cmp_bool(&a, &b), a <= b);
        }
    }
}

#[test]
fn operators_compare_strings_by_code_point() {
    let words = ["", "a", "ab", "abc", "abd", "b", "z", "\u{e9}", "\u{10348}", "\u{ff5e}", "A"];
    for a in words {
        for b in words {
            let (x, y) = (a.to_string(), b.to_string());
            let by_chars = a.chars().cmp(b.chars());
            assert_eq!(CmpType::Eq.cmp_string(&x, &y), by_chars.is_eq(), "{a} == {b}");
            assert_eq!(CmpType::Ne.cmp_string(&x, &y), by_chars.is_ne(), "{a} != {b}");
            assert_eq!(CmpType::Gt.cmp_string(&x, &y), by_chars.is_gt(), "{a} > {b}");
            assert_eq!(CmpType::Ge.cmp_string(&x, &y), by_chars.is_ge(), "{a} >= {b}");
            assert_eq!(CmpType::Lt.cmp_string(&x, &y), by_chars.is_lt(), "{a} < {b}");
            assert_eq!(CmpType::Le.cmp_string(&x, &y), by_chars.is_le(), "{a} <= {b}");
        }
    }
}

#[test]
fn a_prefix_comes_before_the_longer_string() {
    assert!(CmpType::Lt.cmp_string(&"ab".to_string(), &"abc".to_string()));
    assert!(!CmpType::Lt.cmp_string(&"abc".to_string(), &"ab".to_string()));
    assert!(!CmpType::Lt.cmp_string(&"abc".to_string(), &"abc".to_string()));
    assert!(CmpType::Gt.cmp_string(&"b".to_string(), &"abc".to_string()));
}

#[test]
fn integer_as_double_is_the_nearest_double() {
    assert_eq!(Number::PosInt(0).as_double().map(|d| d.bits), Some(0.0f64.to_bits()));
    assert_eq!(Number::PosInt(30).as_double().map(|d| d.bits), Some(30.0f64.to_bits()));
    assert_eq!(Number::NegInt(-5).as_double().map(|d| d.bits), Some((-5.0f64).to_bits()));
    assert_eq!(
        Number::PosInt(u64::MAX).as_double().map(|d| d.bits),
        Some((u64::MAX as f64).to_bits())
    );
    assert_eq!(
        Number::PosInt((1 << 53) + 1).as_double().map(|d| d.bits),
        Some((((1u64 << 53) + 1) as f64).to_bits())
    );
    assert_eq!(
        Number::NegInt(i64::MIN).as_double().map(|d| d.bits),
        Some((i64::MIN as f64).to_bits())
    );
    assert_eq!(Number::NegInt(7).as_double().map(|d| d.bits), Some(7.0f64.to_bits()));
}

#[test]
fn integer_as_double_is_what_serde_json_gives() {
    for n in [0u64, 1, 2, 30, 1 << 52, (1 << 53) + 1, u64::MAX - 1, u64::MAX] {
        let theirs = serde_json::Number::from(n).as_f64().map(|x| x.to_bits());
        assert_eq!(Number::PosInt(n).as_double().map(|d| d.bits), theirs);
    }
    for n in [-1i64, -30, -(1 << 53) - 1, i64::MIN] {
        let theirs = serde_json::Number::from(n).as_f64().map(|x| x.to_bits());
        assert_eq!(Number::NegInt(n).as_double().map(|d| d.bits), theirs);
    }
}

#[test]
fn a_double_number_gives_its_own_value_and_text() {
    let n = Number::Float(double(8.95), "8.95".to_string());
    assert_eq!(n.as_double(), Some(double(8.95)));
    assert_eq!(n.to_text(), "8.95");
}

#[test]
fn number_text_of_integers() {
    assert_eq!(Number::PosInt(0).to_text(), "0");
    assert_eq!(Number::PosInt(1234567890123).to_text(), "1234567890123");
    assert_eq!(Number::NegInt(-1).to_text(), "-1");
    assert_eq!(Number::NegInt(-100).to_text(), "-100");
}

#[test]
fn a_copy_of_a_number_reads_the_same() {
    for n in [
        Number::PosInt(17),
        Number::NegInt(-17),
        Number::Float(double(0.5), "0.5".to_string()),
    ] {
        let copy = n.clone();
        assert_eq!(copy, n);
        assert_eq!(copy.to_text(), n.to_text());
        assert_eq!(copy.as_double(), n.as_double());
    }
}
