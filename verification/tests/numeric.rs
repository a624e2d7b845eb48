use cfgmap::{CfgMap, CfgValue, Checkable, Condition};

#[test]
fn to_int_truncates_like_a_float_cast() {
    let floats = [
        0.0f64,
        -0.0,
        0.99,
        1.5,
        -1.5,
        2.9,
        -2.9,
        1e10,
        -1e10,
        1e300,
        -1e300,
        f64::NAN,
        f64::INFINITY,
        f64::NEG_INFINITY,
        f64::MIN_POSITIVE,
        4503599627370495.5,
        9007199254740992.0,
        9.223372036854776e18,
        -9.223372036854776e18,
        f64::EPSILON,
    ];
    for f in floats {
        assert_eq!(
            CfgValue::Float(f.to_bits()).to_int(),
            Some(f as i64),
            "truncating {f}"
        );
    }
    assert_eq!(CfgValue::Int(7).to_int(), Some(7));
    assert_eq!(CfgValue::Str("x".into()).to_int(), None);
}

#[test]
fn to_float_rounds_like_an_int_cast() {
    let ints = [
        0i64,
        1,
        -1,
        42,
        -1000,
        i64::MAX,
        i64::MIN,
        i64::MAX - 1,
        i64::MIN + 1,
        9007199254740993,
        -9007199254740993,
        9007199254740995,
        6004799503160661,
        1234567890123456789,
        -1234567890123456789,
        (1 << 53) + 1,
        (1 << 60) + (1 << 7),
    ];
    for x in ints {
        assert_eq!(
            CfgValue::Int(x).to_float(),
            Some((x as f64).to_bits()),
            "rounding {x}"
        );
    }
    let bits = (1.5f64).to_bits();
    assert_eq!(CfgValue::Float(bits).to_float(), Some(bits));
    assert_eq!(CfgValue::Bool(true).to_float(), None);
}

#[test]
fn mutable_lookups_check_inline() {
    let mut cmap = CfgMap::new();
    cmap.add("sub", CfgValue::Submap(CfgMap::new())).unwrap();
    assert!(cmap.get_mut("sub").check_that(Condition::IsMap));
    assert!(!cmap.get_mut("sub").check_that(Condition::IsInt));
    assert!(!cmap.get_mut("missing").check_that(Condition::IsMap));
}
