//! Integer generation from configuration values, sampling through `rand`.

use vstd::prelude::*;
use rand::Rng;

verus! {

use crate::model::Val;
use crate::value::{CfgValue, lemma_list_model};

/// The value describes an integer range: a list of exactly two integers.
pub open(crate) spec fn int_range_shape(v: Val) -> bool {
    v is List && v->List_0.len() == 2 && v->List_0[0] is Int && v->List_0[1] is Int
}

/// Relies on `rand::Rng::gen_range` over the half-open `i64` range
/// `min..max`: the sample lies within the range. The range must not be
/// empty, since `gen_range` panics on an empty range.
#[verifier::external_body]
fn random_in_range(min: i64, max: i64) -> (r: i64)
    requires
        min < max,
    ensures
        min <= r < max,
{
    rand::thread_rng().gen_range(min..max)
}

impl CfgValue {
    /// Generates an integer from the value: an `Int` yields its value, a
    /// one-integer list yields that integer, a two-integer list `[a, b]`
    /// with `a < b` yields a sample drawn from `a..b`, and any other value
    /// yields `None`. A two-integer list whose range is empty is excluded,
    /// as the underlying sampler rejects it.
    pub fn generate_int(&self) -> (r: Option<i64>)
        requires
            int_range_shape(self@) ==> self@->List_0[0]->Int_0 < self@->List_0[1]->Int_0,
        ensures
            self@ is Int ==> r == Some(self@->Int_0),
            (self@ is List && self@->List_0.len() == 1 && self@->List_0[0] is Int) ==> r == Some(
                self@->List_0[0]->Int_0,
            ),
            int_range_shape(self@) ==> r is Some && self@->List_0[0]->Int_0 <= r.unwrap()
                < self@->List_0[1]->Int_0,
            (!(self@ is Int) && !(self@ is List && self@->List_0.len() == 1
                && self@->List_0[0] is Int) && !int_range_shape(self@)) ==> r is None,
    {
        match self {
            CfgValue::Int(x) => Some(*x),
            CfgValue::List(items) => {
                proof {
                    lemma_list_model(items@);
                }
                if items.len() == 1 {
                    match &items[0] {
                        CfgValue::Int(x) => Some(*x),
                        _ => None,
                    }
                } else if items.len() == 2 {
                    let first = &items[0];
                    let second = &items[1];
                    match (first, second) {
                        (CfgValue::Int(a), CfgValue::Int(b)) => Some(random_in_range(*a, *b)),
                        _ => None,
                    }
                } else {
                    None
                }
            },
            _ => None,
        }
    }
}

} // verus!
