use cfgmap::{CfgMap, CfgValue, Checkable, Condition};

#[test]
fn testing_out() {
    let _cmap = CfgMap::new();
}

#[test]
fn add_needs_an_existing_parent_map() {
    let mut cmap = CfgMap::new();

    assert!(cmap.add("a/b", CfgValue::Int(5)).is_err());
    assert!(cmap.get("a/b").is_none());

    assert_eq!(cmap.add("a", CfgValue::Submap(CfgMap::new())), Ok(None));
    assert_eq!(cmap.add("a/b", CfgValue::Int(5)), Ok(None));
    assert_eq!(cmap.get("a/b"), Some(&CfgValue::Int(5)));
}

#[test]
fn add_twice_reports_the_old_value() {
    let mut cmap = CfgMap::new();
    assert_eq!(cmap.add("k1", CfgValue::Int(5)), Ok(None));
    assert!(cmap.add("k1/k2", CfgValue::Int(10)).is_err());
    let r = cmap.add("k1", CfgValue::Float((8.0f64).to_bits()));
    assert_eq!(r, Ok(Some(CfgValue::Int(5))));
    assert!(cmap
        .get("k1")
        .check_that(Condition::IsExactlyFloat((8.0f64).to_bits())));
}

#[test]
fn get_and_get_mut_agree() {
    let mut cmap = CfgMap::new();
    let mut submap = CfgMap::new();
    submap.add("key", CfgValue::Int(5)).unwrap();
    cmap.add("sub", CfgValue::Submap(submap)).unwrap();
    cmap.add("list", CfgValue::List(vec![CfgValue::Int(1)]))
        .unwrap();

    for path in ["sub", "sub/key", "sub/none", "list/0", "list/1", "list/x", "nothing"] {
        let by_get = cmap.get(path).is_some();
        let by_get_mut = cmap.get_mut(path).is_some();
        assert_eq!(by_get, by_get_mut);
    }
}

#[test]
fn writing_through_get_mut_is_visible_to_get() {
    let mut cmap = CfgMap::new();
    cmap.add("sub", CfgValue::Submap(CfgMap::new())).unwrap();
    cmap.add("sub/key", CfgValue::Int(5)).unwrap();

    if let Some(slot) = cmap.get_mut("sub/key") {
        *slot = CfgValue::Int(6);
    } else {
        panic!("path should resolve");
    }
    assert_eq!(cmap.get("sub/key"), Some(&CfgValue::Int(6)));
}

#[test]
fn remove_clears_the_path() {
    let mut cmap = CfgMap::new();
    cmap.add("sub", CfgValue::Submap(CfgMap::new())).unwrap();
    cmap.add("sub/int", CfgValue::Int(5)).unwrap();

    let num = cmap.remove("sub/int");
    let nothing = cmap.remove("sub/nothing");

    assert!(cmap.get("sub/int").is_none());
    assert!(!cmap.contains_key("sub/int"));
    assert!(num.check_that(Condition::IsExactlyInt(5)));
    assert!(nothing.is_none());
    assert!(cmap.contains_key("sub"));
}

#[test]
fn remove_entry_reports_the_final_key() {
    let mut cmap = CfgMap::new();
    cmap.add("sub", CfgValue::Submap(CfgMap::new())).unwrap();
    cmap.add("sub/int", CfgValue::Int(5)).unwrap();

    let (key, num) = cmap.remove_entry("sub/int").unwrap();
    assert_eq!(key, "int");
    assert!(num.check_that(Condition::IsExactlyInt(5)));
    assert!(cmap.get("sub/int").is_none());
    assert!(cmap.remove_entry("sub/nothing").is_none());
}

#[test]
fn remove_if_guards_against_unexpected_shapes() {
    let mut cmap = CfgMap::new();
    cmap.add("sub", CfgValue::Submap(CfgMap::new())).unwrap();
    cmap.add("sub/int", CfgValue::Int(5)).unwrap();

    let float = cmap.remove_if("sub/int", Condition::IsFloat);
    assert!(cmap.get("sub/int").is_some());
    assert!(float.is_none());

    let int = cmap.remove_if("sub/int", Condition::IsInt);
    assert!(cmap.get("sub/int").is_none());
    assert!(int.check_that(Condition::IsExactlyInt(5)));
}

#[test]
fn remove_entry_if_guards_against_unexpected_shapes() {
    let mut cmap = CfgMap::new();
    cmap.add("sub", CfgValue::Submap(CfgMap::new())).unwrap();
    cmap.add("sub/int", CfgValue::Int(5)).unwrap();

    let float = cmap.remove_entry_if("sub/int", Condition::IsFloat);
    assert!(cmap.get("sub/int").is_some());
    assert!(float.is_none());

    let (key, int) = cmap.remove_entry_if("sub/int", Condition::IsInt).unwrap();
    assert_eq!(key, "int");
    assert!(int.check_that(Condition::IsExactlyInt(5)));
    assert!(cmap.get("sub/int").is_none());
}

#[test]
fn get_option_falls_back_to_the_default_prefix() {
    let mut cmap = CfgMap::new();
    cmap.default = "default/".into();
    cmap.add("sub", CfgValue::Submap(CfgMap::new())).unwrap();
    cmap.add("default", CfgValue::Submap(CfgMap::new())).unwrap();
    cmap.add("default/opt", CfgValue::Int(8)).unwrap();

    assert_eq!(cmap.get_option("sub", "opt"), Some(&CfgValue::Int(8)));

    cmap.add("sub/opt", CfgValue::Int(5)).unwrap();
    assert_eq!(cmap.get_option("sub", "opt"), Some(&CfgValue::Int(5)));
    assert!(cmap.get_option("sub", "other").is_none());
}

#[test]
fn update_option_never_inserts() {
    let mut cmap = CfgMap::new();
    let mut submap = CfgMap::new();
    submap.add("OP1", CfgValue::Int(5)).unwrap();
    cmap.add("OP1", CfgValue::Int(8)).unwrap();
    cmap.add("sub", CfgValue::Submap(submap)).unwrap();

    let ol1 = cmap.update_option("sub", "OP1", CfgValue::Int(10));
    let ol2 = cmap.update_option("foo", "OP1", CfgValue::Int(16));
    let ol3 = cmap.update_option("sub", "OP2", CfgValue::Int(99));

    assert!(cmap
        .get_option("sub", "OP1")
        .check_that(Condition::IsExactlyInt(10)));
    assert!(cmap
        .get_option("foo", "OP1")
        .check_that(Condition::IsExactlyInt(16)));
    assert!(cmap.get_option("sub", "OP2").is_none());

    assert_eq!(ol1, Some(CfgValue::Int(5)));
    assert_eq!(ol2, Some(CfgValue::Int(8)));
    assert_eq!(ol3, None);
}

#[test]
fn paths_index_into_lists() {
    let mut field = CfgMap::new();
    field.add("field", CfgValue::Int(1)).unwrap();
    let mut cmap = CfgMap::new();
    cmap.add("list", CfgValue::List(vec![CfgValue::Submap(field)]))
        .unwrap();

    assert_eq!(cmap.get("list/0/field"), Some(&CfgValue::Int(1)));
    assert!(cmap.get("list/1/field").is_none());
    assert!(cmap.get("list/x/field").is_none());
    assert!(cmap.get("list/0").is_some());
    assert!(cmap.get("list/+0/field").is_some());
    assert!(cmap
        .get("list/99999999999999999999999/field")
        .is_none());
}

#[test]
fn with_hashmap_takes_keyed_values() {
    let pairs = vec![
        ("a".to_string(), CfgValue::Int(1)),
        ("b".to_string(), CfgValue::Bool(true)),
        ("a".to_string(), CfgValue::Int(2)),
    ];
    let cmap = CfgMap::with_hashmap(pairs);
    // the later pair for "a" wins
    assert_eq!(cmap.get("a"), Some(&CfgValue::Int(2)));
    assert_eq!(cmap.get("b"), Some(&CfgValue::Bool(true)));
    assert!(cmap.get("c").is_none());
}

#[test]
fn value_accessors_are_mutually_exclusive() {
    let values = vec![
        CfgValue::Int(1),
        CfgValue::Float((1.5f64).to_bits()),
        CfgValue::Str("s".to_string()),
        CfgValue::Bool(true),
        CfgValue::Submap(CfgMap::new()),
        CfgValue::List(vec![]),
        CfgValue::Datetime("2020-02-29".to_string()),
        CfgValue::Null,
        CfgValue::BadValue,
        CfgValue::Alias(1),
    ];
    for v in &values {
        let kinds = [
            v.is_int(),
            v.is_float(),
            v.is_str(),
            v.is_bool(),
            v.is_map(),
            v.is_list(),
            v.is_datetime(),
            v.is_null(),
            v.is_badvalue(),
            v.is_alias(),
        ];
        assert_eq!(kinds.iter().filter(|k| **k).count(), 1);
    }
    assert_eq!(values[0].as_int(), Some(&1));
    assert!(values[1].as_float().is_some());
    assert!(values[0].as_float().is_none());
    assert!(values[4].as_map().is_some());
    assert!(values[5].as_list().is_some());
}

#[test]
fn mutable_accessors_reach_the_held_value() {
    let mut v = CfgValue::Int(1);
    if let Some(x) = v.as_int_mut() {
        *x = 9;
    }
    assert_eq!(v, CfgValue::Int(9));
    assert!(v.as_map_mut().is_none());

    let mut l = CfgValue::List(vec![]);
    if let Some(items) = l.as_list_mut() {
        items.push(CfgValue::Bool(false));
    }
    assert!(l.check_that(Condition::IsListWithLength(1)));
}

#[test]
fn value_get_delegates_to_nested_maps() {
    let mut submap = CfgMap::new();
    submap.add("key", CfgValue::Int(5)).unwrap();
    let mut v = CfgValue::Submap(submap);
    assert_eq!(v.get("key"), Some(&CfgValue::Int(5)));
    assert!(v.get("other").is_none());
    assert!(CfgValue::Int(1).get("key").is_none());

    if let Some(slot) = v.get_mut("key") {
        *slot = CfgValue::Int(6);
    }
    assert_eq!(v.get("key"), Some(&CfgValue::Int(6)));
}

#[test]
fn generate_int_covers_the_three_shapes() {
    let num = CfgValue::Int(5);
    let vnum = CfgValue::List(vec![CfgValue::Int(10)]);
    let range = CfgValue::List(vec![CfgValue::Int(10), CfgValue::Int(20)]);
    let other = CfgValue::Str("x".to_string());

    assert_eq!(num.generate_int(), Some(5));
    assert_eq!(vnum.generate_int(), Some(10));
    let generated = range.generate_int().unwrap();
    assert!((generated >= 10) & (generated < 20));
    assert_eq!(other.generate_int(), None);
}

#[test]
fn conversions_build_the_expected_variants() {
    let a: CfgValue = 4i64.into();
    let b: CfgValue = true.into();
    let c: CfgValue = "hello there".into();
    let d: CfgValue = String::from("owned").into();
    let e: CfgValue = vec![CfgValue::Int(3)].into();
    let f: CfgValue = CfgMap::new().into();
    let g: CfgValue = 7u8.into();

    assert!(a.check_that(Condition::IsExactlyInt(4)));
    assert!(b.check_that(Condition::IsTrue));
    assert!(c.check_that(Condition::IsExactlyStr("hello there".into())));
    assert!(d.check_that(Condition::IsExactlyStr("owned".into())));
    assert!(e.check_that(Condition::IsListWithLength(1)));
    assert!(f.check_that(Condition::IsMap));
    assert!(g.check_that(Condition::IsExactlyInt(7)));

    let t: Condition = true.into();
    assert!(t.to_bool());
    let back: bool = Condition::FALSE.into();
    assert!(!back);
    let nn: CfgValue = None::<CfgValue>.into();
    assert!(nn.is_null());
}

#[test]
fn empty_segments_only_resolve_when_present() {
    let mut cmap = CfgMap::new();
    assert_eq!(cmap.add("", CfgValue::Int(1)), Ok(None));
    assert_eq!(cmap.get(""), Some(&CfgValue::Int(1)));
    assert!(cmap.get("a/").is_none());
}

#[test]
fn clone_makes_an_independent_deep_copy() {
    let mut cmap = CfgMap::new();
    cmap.add("sub", CfgValue::Submap(CfgMap::new())).unwrap();
    cmap.add("sub/int", CfgValue::Int(5)).unwrap();
    cmap.add("list", CfgValue::List(vec![CfgValue::Str("x".into())]))
        .unwrap();

    let copy = cmap.clone();
    assert_eq!(copy, cmap);

    let mut copy2 = cmap.clone();
    copy2.add("sub/int", CfgValue::Int(6)).unwrap();
    assert_eq!(cmap.get("sub/int"), Some(&CfgValue::Int(5)));
    assert_eq!(copy2.get("sub/int"), Some(&CfgValue::Int(6)));
}
