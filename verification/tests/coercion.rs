//! The numeric coercion rules on concrete values.

use avm2_core::value::{Value, StringTable, to_boolean, to_i32, to_u32, to_number,
    str_to_double, u64_to_dec, i32_to_dec, NAN_BITS, ONE_BITS, POS_INF_BITS};
use avm2_core::number::{double_from_i32, double_from_u32, double_from_u53, double_to_i32};
use avm2_core::value::{number_to_string, to_string_value};

fn tbl_with(s: &str) -> (StringTable, usize) {
    let mut tbl = StringTable::new();
    let id = tbl.intern(s.as_bytes().to_vec());
    (tbl, id)
}

#[test]
fn to_u32_then_to_i32_restores_every_sample_integer() {
    let tbl = StringTable::new();
    let samples: [i32; 9] = [0, 1, -1, 5, -5, i32::MAX, i32::MIN, 123_456_789,
        -987_654_321];
    for n in samples {
        let u = to_u32(&tbl, &Value::Integer(n));
        let back = to_i32(&tbl, &Value::Unsigned(u));
        assert_eq!(back, n);
    }
}

#[test]
fn to_i32_then_to_u32_restores_every_sample_unsigned() {
    let tbl = StringTable::new();
    let samples: [u32; 6] = [0, 1, 0x7FFF_FFFF, 0x8000_0000, u32::MAX, 42];
    for u in samples {
        let n = to_i32(&tbl, &Value::Unsigned(u));
        let back = to_u32(&tbl, &Value::Integer(n));
        assert_eq!(back, u);
    }
}

#[test]
fn to_boolean_falsy_values() {
    let tbl = StringTable::new();
    assert!(!to_boolean(&tbl, &Value::Integer(0)));
    assert!(!to_boolean(&tbl, &Value::Unsigned(0)));
    assert!(!to_boolean(&tbl, &Value::Number(NAN_BITS)));
    assert!(!to_boolean(&tbl, &Value::Number(0)));
    // negative zero
    assert!(!to_boolean(&tbl, &Value::Number(0x8000_0000_0000_0000)));
    assert!(!to_boolean(&tbl, &Value::Undefined));
    assert!(!to_boolean(&tbl, &Value::Null));
    assert!(!to_boolean(&tbl, &Value::Boolean(false)));
    let (tbl2, empty) = tbl_with("");
    assert!(!to_boolean(&tbl2, &Value::Str(empty)));
}

#[test]
fn to_boolean_truthy_values() {
    let tbl = StringTable::new();
    assert!(to_boolean(&tbl, &Value::Integer(-3)));
    assert!(to_boolean(&tbl, &Value::Number(ONE_BITS)));
    assert!(to_boolean(&tbl, &Value::Number(POS_INF_BITS)));
    assert!(to_boolean(&tbl, &Value::Object(7)));
    assert!(to_boolean(&tbl, &Value::Object(0)));
    let (tbl2, s) = tbl_with("a");
    assert!(to_boolean(&tbl2, &Value::Str(s)));
}

#[test]
fn double_encoding_of_small_integers() {
    assert_eq!(double_from_i32(0), 0);
    assert_eq!(double_from_i32(1), 0x3FF0_0000_0000_0000);
    assert_eq!(double_from_i32(2), 0x4000_0000_0000_0000);
    assert_eq!(double_from_i32(5), 0x4014_0000_0000_0000);
    assert_eq!(double_from_i32(-1), 0xBFF0_0000_0000_0000);
    assert_eq!(double_from_i32(-2), 0xC000_0000_0000_0000);
    assert_eq!(double_from_u32(4_294_967_295), (4_294_967_295f64).to_bits());
    assert_eq!(double_from_i32(i32::MIN), (-2_147_483_648f64).to_bits());
    assert_eq!(double_from_u53(9_007_199_254_740_991),
        (9_007_199_254_740_991f64).to_bits());
}

#[test]
fn double_truncation_to_i32() {
    assert_eq!(double_to_i32(0), 0);
    assert_eq!(double_to_i32((3.5f64).to_bits()), 3);
    assert_eq!(double_to_i32((-3.5f64).to_bits()), -3);
    assert_eq!(double_to_i32((0.9f64).to_bits()), 0);
    assert_eq!(double_to_i32(NAN_BITS), 0);
    assert_eq!(double_to_i32(POS_INF_BITS), 0);
    assert_eq!(double_to_i32((4_294_967_296.0f64).to_bits()), 0);
    assert_eq!(double_to_i32((4_294_967_297.0f64).to_bits()), 1);
    assert_eq!(double_to_i32((2_147_483_648.0f64).to_bits()), i32::MIN);
    assert_eq!(double_to_i32((1e100f64).to_bits()), 0);
}

#[test]
fn string_to_number_parses_decimal_integers() {
    assert_eq!(str_to_double(&b"42".to_vec()), (42f64).to_bits());
    assert_eq!(str_to_double(&b"-7".to_vec()), (-7f64).to_bits());
    assert_eq!(str_to_double(&b"+7".to_vec()), (7f64).to_bits());
    assert_eq!(str_to_double(&b"  19 ".to_vec()), (19f64).to_bits());
    assert_eq!(str_to_double(&b"".to_vec()), 0);
    assert_eq!(str_to_double(&b"   ".to_vec()), 0);
    assert_eq!(str_to_double(&b"4a".to_vec()), NAN_BITS);
    assert_eq!(str_to_double(&b"--4".to_vec()), NAN_BITS);
}

#[test]
fn string_coercions_route_through_number() {
    let (tbl, s) = tbl_with("41");
    assert_eq!(to_i32(&tbl, &Value::Str(s)), 41);
    assert_eq!(to_u32(&tbl, &Value::Str(s)), 41);
    assert_eq!(to_number(&tbl, &Value::Str(s)), (41f64).to_bits());
}

#[test]
fn decimal_rendering() {
    assert_eq!(u64_to_dec(0), b"0".to_vec());
    assert_eq!(u64_to_dec(12345), b"12345".to_vec());
    assert_eq!(u64_to_dec(u64::MAX), b"18446744073709551615".to_vec());
    assert_eq!(i32_to_dec(-450), b"-450".to_vec());
    assert_eq!(i32_to_dec(i32::MIN), b"-2147483648".to_vec());
}

#[test]
fn string_coercion_of_primitives() {
    let mut tbl = StringTable::new();
    assert_eq!(to_string_value(&tbl, &Value::Undefined).unwrap(), b"undefined".to_vec());
    assert_eq!(to_string_value(&tbl, &Value::Null).unwrap(), b"null".to_vec());
    assert_eq!(to_string_value(&tbl, &Value::Boolean(true)).unwrap(), b"true".to_vec());
    assert_eq!(to_string_value(&tbl, &Value::Boolean(false)).unwrap(), b"false".to_vec());
    assert_eq!(to_string_value(&tbl, &Value::Integer(-42)).unwrap(), b"-42".to_vec());
    assert_eq!(to_string_value(&tbl, &Value::Unsigned(7)).unwrap(), b"7".to_vec());
    let id = tbl.intern(b"hey".to_vec());
    assert_eq!(to_string_value(&tbl, &Value::Str(id)).unwrap(), b"hey".to_vec());

    assert_eq!(number_to_string(0).unwrap(), b"0".to_vec());
    assert_eq!(number_to_string(0x8000_0000_0000_0000).unwrap(), b"0".to_vec());
    assert_eq!(number_to_string(NAN_BITS).unwrap(), b"NaN".to_vec());
    assert_eq!(number_to_string(POS_INF_BITS).unwrap(), b"Infinity".to_vec());
    assert_eq!(number_to_string((-1f64 / 0f64).to_bits()).unwrap(),
        b"-Infinity".to_vec());
    assert_eq!(number_to_string((42f64).to_bits()).unwrap(), b"42".to_vec());
    assert_eq!(number_to_string((-9007199254740992f64).to_bits()).unwrap(),
        b"-9007199254740992".to_vec());
    // a fractional double has no rendering in this engine
    assert!(number_to_string((2.5f64).to_bits()).is_none());
}
