//! Ergonomic conversions into `CfgValue` from primitive scalars, strings,
//! lists and maps, and between `bool` and the result conditions.

use vstd::prelude::*;

verus! {

use crate::model::Val;
use crate::value::{CfgValue, CfgMap};
use crate::conditions::Condition;

impl From<bool> for CfgValue {
    fn from(v: bool) -> (r: CfgValue) {
        CfgValue::Bool(v)
    }
}

impl vstd::std_specs::convert::FromSpecImpl<bool> for CfgValue {
    open spec fn obeys_from_spec() -> bool {
        true
    }

    open spec fn from_spec(v: bool) -> CfgValue {
        CfgValue::Bool(v)
    }
}

impl From<i64> for CfgValue {
    fn from(v: i64) -> (r: CfgValue) {
        CfgValue::Int(v)
    }
}

impl vstd::std_specs::convert::FromSpecImpl<i64> for CfgValue {
    open spec fn obeys_from_spec() -> bool {
        true
    }

    open spec fn from_spec(v: i64) -> CfgValue {
        CfgValue::Int(v)
    }
}

impl From<i32> for CfgValue {
    fn from(v: i32) -> (r: CfgValue) {
        CfgValue::Int(v as i64)
    }
}

impl vstd::std_specs::convert::FromSpecImpl<i32> for CfgValue {
    open spec fn obeys_from_spec() -> bool {
        true
    }

    open spec fn from_spec(v: i32) -> CfgValue {
        CfgValue::Int(v as i64)
    }
}

impl From<i16> for CfgValue {
    fn from(v: i16) -> (r: CfgValue) {
        CfgValue::Int(v as i64)
    }
}

impl vstd::std_specs::convert::FromSpecImpl<i16> for CfgValue {
    open spec fn obeys_from_spec() -> bool {
        true
    }

    open spec fn from_spec(v: i16) -> CfgValue {
        CfgValue::Int(v as i64)
    }
}

impl From<i8> for CfgValue {
    fn from(v: i8) -> (r: CfgValue) {
        CfgValue::Int(v as i64)
    }
}

impl vstd::std_specs::convert::FromSpecImpl<i8> for CfgValue {
    open spec fn obeys_from_spec() -> bool {
        true
    }

    open spec fn from_spec(v: i8) -> CfgValue {
        CfgValue::Int(v as i64)
    }
}

impl From<u8> for CfgValue {
    fn from(v: u8) -> (r: CfgValue) {
        CfgValue::Int(v as i64)
    }
}

impl vstd::std_specs::convert::FromSpecImpl<u8> for CfgValue {
    open spec fn obeys_from_spec() -> bool {
        true
    }

    open spec fn from_spec(v: u8) -> CfgValue {
        CfgValue::Int(v as i64)
    }
}

impl From<u16> for CfgValue {
    fn from(v: u16) -> (r: CfgValue) {
        CfgValue::Int(v as i64)
    }
}

impl vstd::std_specs::convert::FromSpecImpl<u16> for CfgValue {
    open spec fn obeys_from_spec() -> bool {
        true
    }

    open spec fn from_spec(v: u16) -> CfgValue {
        CfgValue::Int(v as i64)
    }
}

impl From<u32> for CfgValue {
    fn from(v: u32) -> (r: CfgValue) {
        CfgValue::Int(v as i64)
    }
}

impl vstd::std_specs::convert::FromSpecImpl<u32> for CfgValue {
    open spec fn obeys_from_spec() -> bool {
        true
    }

    open spec fn from_spec(v: u32) -> CfgValue {
        CfgValue::Int(v as i64)
    }
}

impl From<String> for CfgValue {
    fn from(v: String) -> (r: CfgValue) {
        CfgValue::Str(v)
    }
}

impl vstd::std_specs::convert::FromSpecImpl<String> for CfgValue {
    open spec fn obeys_from_spec() -> bool {
        true
    }

    open spec fn from_spec(v: String) -> CfgValue {
        CfgValue::Str(v)
    }
}

impl<'a> From<&'a str> for CfgValue {
    fn from(v: &'a str) -> (r: CfgValue)
        ensures
            r@ == Val::Str(v@),
    {
        CfgValue::Str(v.to_owned())
    }
}

impl<'a> vstd::std_specs::convert::FromSpecImpl<&'a str> for CfgValue {
    open spec fn obeys_from_spec() -> bool {
        false
    }

    open spec fn from_spec(v: &'a str) -> CfgValue {
        CfgValue::Null
    }
}

impl From<Vec<CfgValue>> for CfgValue {
    fn from(v: Vec<CfgValue>) -> (r: CfgValue) {
        CfgValue::List(v)
    }
}

impl vstd::std_specs::convert::FromSpecImpl<Vec<CfgValue>> for CfgValue {
    open spec fn obeys_from_spec() -> bool {
        true
    }

    open spec fn from_spec(v: Vec<CfgValue>) -> CfgValue {
        CfgValue::List(v)
    }
}

impl From<CfgMap> for CfgValue {
    fn from(v: CfgMap) -> (r: CfgValue) {
        CfgValue::Submap(v)
    }
}

impl vstd::std_specs::convert::FromSpecImpl<CfgMap> for CfgValue {
    open spec fn obeys_from_spec() -> bool {
        true
    }

    open spec fn from_spec(v: CfgMap) -> CfgValue {
        CfgValue::Submap(v)
    }
}

impl From<Option<CfgValue>> for CfgValue {
    fn from(v: Option<CfgValue>) -> (r: CfgValue) {
        match v {
            Some(x) => x,
            None => CfgValue::Null,
        }
    }
}

impl vstd::std_specs::convert::FromSpecImpl<Option<CfgValue>> for CfgValue {
    open spec fn obeys_from_spec() -> bool {
        true
    }

    open spec fn from_spec(v: Option<CfgValue>) -> CfgValue {
        match v {
            Some(x) => x,
            None => CfgValue::Null,
        }
    }
}

impl From<bool> for Condition {
    fn from(v: bool) -> (r: Condition) {
        if v {
            Condition::TRUE
        } else {
            Condition::FALSE
        }
    }
}

impl vstd::std_specs::convert::FromSpecImpl<bool> for Condition {
    open spec fn obeys_from_spec() -> bool {
        true
    }

    open spec fn from_spec(v: bool) -> Condition {
        if v {
            Condition::TRUE
        } else {
            Condition::FALSE
        }
    }
}

impl From<Condition> for bool {
    fn from(v: Condition) -> (r: bool) {
        v.to_bool()
    }
}

impl vstd::std_specs::convert::FromSpecImpl<Condition> for bool {
    open spec fn obeys_from_spec() -> bool {
        true
    }

    open spec fn from_spec(v: Condition) -> bool {
        v is TRUE
    }
}

} // verus!
