use cfgmap::{CfgMap, CfgValue, Checkable, Condition};

#[test]
fn basic_and_exact() {
    let i = CfgValue::Int(5);
    let f = CfgValue::Float((2.0f64).to_bits());
    let s = CfgValue::Str(String::from("hello"));
    let b = CfgValue::Bool(true);
    let l = CfgValue::List(vec![CfgValue::Int(2), CfgValue::Float((8.0f64).to_bits())]);
    let m = CfgValue::Submap(CfgMap::new());

    // Verifies int
    assert!(i.check_that(Condition::IsInt));
    assert!(i.check_that(Condition::IsExactlyInt(5)));
    assert!(!i.check_that(Condition::IsExactlyInt(6)));

    // Verifies float
    assert!(f.check_that(Condition::IsFloat));
    assert!(f.check_that(Condition::IsExactlyFloat((2.0f64).to_bits())));
    assert!(!f.check_that(Condition::IsExactlyFloat((3.0f64).to_bits())));

    // Verifies string
    assert!(s.check_that(Condition::IsStr));
    assert!(s.check_that(Condition::IsExactlyStr(String::from("hello"))));
    assert!(!s.check_that(Condition::IsExactlyStr(String::from("hella"))));

    // Verifies bool
    assert!(b.check_that(Condition::IsBool));
    assert!(b.check_that(Condition::IsTrue));

    // Verifies list
    assert!(l.check_that(Condition::IsList));
    assert!(l.check_that(Condition::IsExactlyList(vec![
        CfgValue::Int(2),
        CfgValue::Float((8.0f64).to_bits())
    ])));
    assert!(!l.check_that(Condition::IsExactlyList(vec![
        CfgValue::Int(2),
        CfgValue::Float((8.1f64).to_bits())
    ])));

    // Verifies map
    assert!(m.check_that(Condition::IsMap));
    assert!(m.check_that(Condition::IsExactlyMap(CfgMap::new())));
    let mut map = CfgMap::new();
    map.default = "default".into();
    assert!(!m.check_that(Condition::IsExactlyMap(map)));
}

#[test]
fn combinations() {
    vec![
        CfgValue::Int(5),
        CfgValue::Float((9.0f64).to_bits()),
        CfgValue::Str(String::from("foobar")),
    ]
    .iter()
    .for_each(|e| assert!(e.check_that(Condition::IsInt | Condition::IsFloat | Condition::IsStr)));

    vec![
        CfgValue::Int(5),
        CfgValue::Float((9.0f64).to_bits()),
        CfgValue::Str(String::from("foobar")),
    ]
    .iter()
    .for_each(|e| assert!(!e.check_that(Condition::IsList | Condition::IsMap)));

    vec![
        CfgValue::Int(5),
        CfgValue::Float((9.0f64).to_bits()),
        CfgValue::Str(String::from("foobar")),
    ]
    .iter()
    .for_each(|e| assert!(!e.check_that(Condition::IsInt & Condition::IsFloat)));
}

#[test]
fn misc() {
    let listexample = CfgValue::List(vec![CfgValue::Int(5), CfgValue::Float((9.0f64).to_bits())]);

    assert!(listexample.check_that(Condition::IsListWith(Box::new(
        Condition::IsInt | Condition::IsFloat
    ))));
    assert!(listexample.check_that(Condition::IsListWithLength(2)));
    assert!(!listexample.check_that(Condition::IsListWithLength(3)));
}

#[test]
fn builder_methods_match_operators() {
    let v = CfgValue::Int(7);
    assert!(v.check_that(Condition::IsInt.or(Condition::IsFloat)));
    assert!(!v.check_that(Condition::IsInt.and(Condition::IsFloat)));
    assert!(v.check_that(Condition::IsFloat.not()));
    assert!(!v.check_that(!Condition::IsInt));
}

#[test]
fn list_with_over_empty_list_is_vacuously_true() {
    let empty = CfgValue::List(vec![]);
    assert!(empty.check_that(Condition::IsListWith(Box::new(Condition::IsInt))));
    assert!(empty.check_that(Condition::IsListWith(Box::new(Condition::IsFloat))));
    assert!(empty.check_that(Condition::IsListWith(Box::new(Condition::FALSE))));

    let ints = CfgValue::List(vec![CfgValue::Int(5), CfgValue::Int(8)]);
    assert!(ints.check_that(Condition::IsListWith(Box::new(Condition::IsInt))));
    assert!(!ints.check_that(Condition::IsListWith(Box::new(Condition::IsFloat))));
}

#[test]
fn execute_and_to_bool() {
    assert!(Condition::IsInt.execute(&CfgValue::Int(5)).to_bool());
    assert!(!Condition::IsInt
        .execute(&CfgValue::Float((1.0f64).to_bits()))
        .to_bool());
    assert!((Condition::IsInt | Condition::IsFloat)
        .execute(&CfgValue::Float((1.0f64).to_bits()))
        .to_bool());
    assert_eq!(Condition::TRUE.execute(&CfgValue::Null), Condition::TRUE);
    assert_eq!(Condition::FALSE.execute(&CfgValue::Null), Condition::FALSE);
}

#[test]
fn extension_kind_tests() {
    assert!(CfgValue::Null.check_that(Condition::IsNull));
    assert!(!CfgValue::Int(1).check_that(Condition::IsNull));
    assert!(CfgValue::Datetime("2020-02-29".to_string()).check_that(Condition::IsDatetime));
    assert!(!CfgValue::Bool(false).check_that(Condition::IsTrue));
    assert!(CfgValue::BadValue.is_badvalue());
    assert!(CfgValue::Alias(3).is_alias());
}

#[test]
fn absent_values_never_satisfy_conditions() {
    let absent: Option<CfgValue> = None;
    assert!(!absent.check_that(Condition::TRUE));
    let absent_ref: Option<&CfgValue> = None;
    assert!(!absent_ref.check_that(Condition::TRUE));
    let present = Some(CfgValue::Int(3));
    assert!(present.check_that(Condition::IsInt));
}
