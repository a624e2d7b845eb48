//! The predicate algebra: `Condition` trees, their evaluator, and the
//! `Checkable` capability that applies a predicate uniformly to a value or
//! to a possibly absent value.

use vstd::prelude::*;

verus! {

use crate::model::Val;
use crate::value::{CfgValue, CfgMap, list_model, list_equals, lemma_list_model};

/// A predicate over one `CfgValue`.
///
/// Leaves test the kind of a value (`IsInt`, `IsMap`, ...), its exact
/// contents (`IsExactlyInt(v)`, ...), or the shape of a list; `And`, `Or`
/// and `Not` combine them. `TRUE` and `FALSE` are the two result
/// conditions that `execute` returns.
#[derive(Debug, PartialEq)]
pub enum Condition {
    IsInt,
    IsFloat,
    IsStr,
    IsList,
    IsBool,
    IsMap,
    /// A combination of two conditions: `TRUE` iff both hold.
    And(Box<Condition>, Box<Condition>),
    /// A combination of two conditions: `TRUE` iff either holds.
    Or(Box<Condition>, Box<Condition>),
    /// A negation.
    Not(Box<Condition>),
    /// An exact comparison with an integer.
    IsExactlyInt(i64),
    /// An exact comparison with a float, by its IEEE 754 bit pattern.
    IsExactlyFloat(u64),
    /// An exact comparison with a string.
    IsExactlyStr(String),
    /// An exact comparison with a list of values.
    IsExactlyList(Vec<CfgValue>),
    /// An exact comparison with a configuration map.
    IsExactlyMap(CfgMap),
    /// Holds of a `Bool` that is true.
    IsTrue,
    /// Holds of a `List` whose every element satisfies the inner condition.
    IsListWith(Box<Condition>),
    /// Holds of a `List` of exactly this length.
    IsListWithLength(usize),
    /// Holds of a `Null`.
    IsNull,
    /// Holds of a `Datetime`.
    IsDatetime,
    /// A result condition: always holds.
    TRUE,
    /// A result condition: never holds.
    FALSE,
}

/// What a condition means: the set of abstract values it holds of.
pub open(crate) spec fn eval(c: Condition, v: Val) -> bool
    decreases c,
{
    match c {
        Condition::IsInt => v is Int,
        Condition::IsFloat => v is Float,
        Condition::IsStr => v is Str,
        Condition::IsList => v is List,
        Condition::IsBool => v is Bool,
        Condition::IsMap => v is Submap,
        Condition::And(a, b) => eval(*a, v) && eval(*b, v),
        Condition::Or(a, b) => eval(*a, v) || eval(*b, v),
        Condition::Not(a) => !eval(*a, v),
        Condition::IsExactlyInt(x) => v == Val::Int(x),
        Condition::IsExactlyFloat(x) => v == Val::Float(x),
        Condition::IsExactlyStr(s) => v == Val::Str(s@),
        Condition::IsExactlyList(l) => v == Val::List(list_model(l@)),
        Condition::IsExactlyMap(m) => v == Val::Submap(m.model()),
        Condition::IsTrue => v == Val::Bool(true),
        Condition::IsListWith(a) => v is List && (forall|i: int|
            0 <= i < v->List_0.len() ==> eval(*a, v->List_0[i])),
        Condition::IsListWithLength(n) => v is List && v->List_0.len() == n,
        Condition::IsNull => v is Null,
        Condition::IsDatetime => v is Datetime,
        Condition::TRUE => true,
        Condition::FALSE => false,
    }
}

impl Condition {
    /// The values a condition carries are themselves well formed.
    pub open(crate) spec fn wf(self) -> bool
        decreases self,
    {
        match self {
            Condition::And(a, b) => a.wf() && b.wf(),
            Condition::Or(a, b) => a.wf() && b.wf(),
            Condition::Not(a) => a.wf(),
            Condition::IsListWith(a) => a.wf(),
            Condition::IsExactlyList(l) => forall|i: int| 0 <= i < l@.len() ==> l@[i].wf(),
            Condition::IsExactlyMap(m) => m.wf(),
            _ => true,
        }
    }

    /// Helper function to generate an `And` condition.
    pub fn and(self, other: Condition) -> (r: Condition)
        ensures
            r is And,
            *r->And_0 == self,
            *r->And_1 == other,
    {
        Condition::And(Box::new(self), Box::new(other))
    }

    /// Helper function to generate an `Or` condition.
    pub fn or(self, other: Condition) -> (r: Condition)
        ensures
            r is Or,
            *r->Or_0 == self,
            *r->Or_1 == other,
    {
        Condition::Or(Box::new(self), Box::new(other))
    }

    /// Helper function to generate a `Not` condition.
    pub fn not(self) -> (r: Condition)
        ensures
            r is Not,
            *r->Not_0 == self,
    {
        Condition::Not(Box::new(self))
    }

    /// Executes the condition against `input`: the result is always one of
    /// the two result conditions, `TRUE` exactly when the condition holds
    /// of the value. Both operands of `And` and `Or` are evaluated.
    pub fn execute(&self, input: &CfgValue) -> (r: Condition)
        requires
            self.wf(),
            input.wf(),
        ensures
            r == (if eval(*self, input@) {
                Condition::TRUE
            } else {
                Condition::FALSE
            }),
    {
        Condition::from_bool(eval_exec(self, input))
    }

    /// Converts a bool into one of the result conditions.
    fn from_bool(b: bool) -> (r: Condition)
        ensures
            r == (if b {
                Condition::TRUE
            } else {
                Condition::FALSE
            }),
    {
        if b {
            Condition::TRUE
        } else {
            Condition::FALSE
        }
    }

    /// Converts from a result condition to a boolean: every condition other
    /// than `TRUE` counts as false.
    pub fn to_bool(&self) -> (r: bool)
        ensures
            r == (*self is TRUE),
    {
        matches!(self, Condition::TRUE)
    }
}

/// The recursive evaluator behind `execute`.
fn eval_exec(c: &Condition, v: &CfgValue) -> (r: bool)
    requires
        c.wf(),
        v.wf(),
    ensures
        r == eval(*c, v@),
    decreases *c,
{
    match c {
        Condition::IsInt => v.is_int(),
        Condition::IsFloat => v.is_float(),
        Condition::IsStr => v.is_str(),
        Condition::IsList => v.is_list(),
        Condition::IsBool => v.is_bool(),
        Condition::IsMap => v.is_map(),
        Condition::And(a, b) => {
            let ra = eval_exec(a, v);
            let rb = eval_exec(b, v);
            ra && rb
        },
        Condition::Or(a, b) => {
            let ra = eval_exec(a, v);
            let rb = eval_exec(b, v);
            ra || rb
        },
        Condition::Not(a) => !eval_exec(a, v),
        Condition::IsExactlyInt(x) => match v {
            CfgValue::Int(y) => *x == *y,
            _ => false,
        },
        Condition::IsExactlyFloat(x) => match v {
            CfgValue::Float(y) => *x == *y,
            _ => false,
        },
        Condition::IsExactlyStr(s) => match v {
            CfgValue::Str(t) => *s == *t,
            _ => false,
        },
        Condition::IsExactlyList(l) => match v {
            CfgValue::List(m) => list_equals(l, m),
            _ => false,
        },
        Condition::IsExactlyMap(m) => match v {
            CfgValue::Submap(m2) => m.equals(m2),
            _ => false,
        },
        Condition::IsTrue => match v {
            CfgValue::Bool(b) => *b,
            _ => false,
        },
        Condition::IsListWith(a) => match v {
            CfgValue::List(items) => {
                let n = items.len();
                let mut all = true;
                let mut i: usize = 0;
                while i < n
                    invariant
                        decreases_to!(*c => **a),
                        *c == Condition::IsListWith(*a),
                        *v == CfgValue::List(*items),
                        a.wf(),
                        forall|j: int| 0 <= j < items@.len() ==> items@[j].wf(),
                        n == items@.len(),
                        0 <= i <= n,
                        all == (forall|j: int| 0 <= j < i ==> eval(**a, items@[j].model())),
                    decreases n - i,
                {
                    let ri = eval_exec(a, &items[i]);
                    all = all && ri;
                    i += 1;
                }
                proof {
                    lemma_list_model(items@);
                    assert(v@ == Val::List(list_model(items@)));
                    if all {
                        assert forall|j: int| 0 <= j < v@->List_0.len() implies eval(
                            **a,
                            v@->List_0[j],
                        ) by {
                            assert(list_model(items@)[j] == items@[j].model());
                            assert(eval(**a, items@[j].model()));
                        }
                        assert(eval(*c, v@));
                    } else {
                        assert(exists|j: int| 0 <= j < n && !eval(**a, items@[j].model()));
                        let j = choose|j: int| 0 <= j < n && !eval(**a, items@[j].model());
                        assert(list_model(items@)[j] == items@[j].model());
                        assert(!eval(**a, v@->List_0[j]));
                        assert(!eval(*c, v@));
                    }
                }
                all
            },
            _ => false,
        },
        Condition::IsListWithLength(n) => match v {
            CfgValue::List(items) => {
                proof {
                    lemma_list_model(items@);
                }
                items.len() == *n
            },
            _ => false,
        },
        Condition::IsNull => v.is_null(),
        Condition::IsDatetime => v.is_datetime(),
        Condition::TRUE => true,
        Condition::FALSE => false,
    }
}

/// The capability of being checked against a condition: a value, or a
/// possibly absent value, where absence never satisfies any condition.
pub trait Checkable {
    /// Whether this object is fit to be checked: its parts are well formed.
    spec fn chk_wf(&self) -> bool;

    /// What checking means for this shape of object.
    spec fn check_model(&self, condition: Condition) -> bool;

    /// Checks whether the object satisfies the condition passed as
    /// `condition`. Conditions can be chained with `.and` and `.or`.
    fn check_that(&self, condition: Condition) -> (r: bool)
        requires
            self.chk_wf(),
            condition.wf(),
        ensures
            r == self.check_model(condition),
    ;
}

impl Checkable for CfgValue {
    open(crate) spec fn chk_wf(&self) -> bool {
        self.wf()
    }

    open(crate) spec fn check_model(&self, condition: Condition) -> bool {
        eval(condition, self@)
    }

    fn check_that(&self, condition: Condition) -> (r: bool) {
        self.execute_on(condition)
    }
}

impl CfgValue {
    /// Runs a condition against this value; the heart of `Checkable`.
    fn execute_on(&self, condition: Condition) -> (r: bool)
        requires
            self.wf(),
            condition.wf(),
        ensures
            r == eval(condition, self@),
    {
        condition.execute(self).to_bool()
    }
}

impl Checkable for Option<CfgValue> {
    open(crate) spec fn chk_wf(&self) -> bool {
        match self {
            Some(v) => v.wf(),
            None => true,
        }
    }

    open(crate) spec fn check_model(&self, condition: Condition) -> bool {
        match self {
            Some(v) => eval(condition, v@),
            None => false,
        }
    }

    fn check_that(&self, condition: Condition) -> (r: bool) {
        match self {
            Some(v) => v.execute_on(condition),
            None => false,
        }
    }
}

impl<'a> Checkable for Option<&'a CfgValue> {
    open(crate) spec fn chk_wf(&self) -> bool {
        match self {
            Some(v) => v.wf(),
            None => true,
        }
    }

    open(crate) spec fn check_model(&self, condition: Condition) -> bool {
        match self {
            Some(v) => eval(condition, v@),
            None => false,
        }
    }

    fn check_that(&self, condition: Condition) -> (r: bool) {
        match self {
            Some(v) => v.execute_on(condition),
            None => false,
        }
    }
}

impl<'a> Checkable for Option<&'a mut CfgValue> {
    open(crate) spec fn chk_wf(&self) -> bool {
        match self {
            Some(v) => v.wf(),
            None => true,
        }
    }

    open(crate) spec fn check_model(&self, condition: Condition) -> bool {
        match self {
            Some(v) => eval(condition, v@),
            None => false,
        }
    }

    fn check_that(&self, condition: Condition) -> (r: bool) {
        match self {
            Some(v) => (**v).execute_on(condition),
            None => false,
        }
    }
}

impl core::ops::BitAnd for Condition {
    type Output = Condition;

    /// Operator sugar for `a.and(b)`.
    fn bitand(self, rhs: Condition) -> (r: Condition) {
        self.and(rhs)
    }
}

impl vstd::std_specs::ops::BitAndSpecImpl for Condition {
    open spec fn obeys_bitand_spec() -> bool {
        true
    }

    open spec fn bitand_req(self, rhs: Condition) -> bool {
        true
    }

    open spec fn bitand_spec(self, rhs: Condition) -> Condition {
        Condition::And(Box::new(self), Box::new(rhs))
    }
}

impl core::ops::BitOr for Condition {
    type Output = Condition;

    /// Operator sugar for `a.or(b)`.
    fn bitor(self, rhs: Condition) -> (r: Condition) {
        self.or(rhs)
    }
}

impl vstd::std_specs::ops::BitOrSpecImpl for Condition {
    open spec fn obeys_bitor_spec() -> bool {
        true
    }

    open spec fn bitor_req(self, rhs: Condition) -> bool {
        true
    }

    open spec fn bitor_spec(self, rhs: Condition) -> Condition {
        Condition::Or(Box::new(self), Box::new(rhs))
    }
}

impl core::ops::Not for Condition {
    type Output = Condition;

    /// Operator sugar for `a.not()`.
    fn not(self) -> (r: Condition) {
        self.not()
    }
}

impl vstd::std_specs::ops::NotSpecImpl for Condition {
    open spec fn obeys_not_spec() -> bool {
        true
    }

    open spec fn not_req(self) -> bool {
        true
    }

    open spec fn not_spec(self) -> Condition {
        Condition::Not(Box::new(self))
    }
}

} // verus!
