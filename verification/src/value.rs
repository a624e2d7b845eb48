//! The executable configuration tree: `CfgValue` nodes and `CfgMap`
//! containers, with their mathematical views into `crate::model`.
//!
//! A float is carried as the bit pattern of an IEEE 754 double, so the
//! variant is a plain integer to the verifier; adapters that produce the
//! tree from a parsed document convert with `f64::to_bits`, and exact
//! comparison of floats is comparison of the bit patterns.

use vstd::prelude::*;

verus! {

use crate::model::{Val, MapModel};

/// A value within a `CfgMap`: a scalar, a nested map, or a list.
#[derive(Debug, PartialEq)]
pub enum CfgValue {
    /// An integer value.
    Int(i64),
    /// A float value, identified by the bit pattern of an IEEE 754 double.
    Float(u64),
    /// A string.
    Str(String),
    /// A boolean.
    Bool(bool),
    /// A nested configuration map.
    Submap(CfgMap),
    /// A list of values, possibly of differing kinds.
    List(Vec<CfgValue>),
    /// A calendar/time value, carried as its textual form.
    Datetime(String),
    /// An explicit null.
    Null,
    /// A marker for a malformed node of the source document.
    BadValue,
    /// A back-reference id.
    Alias(usize),
}

/// A configuration map: uniquely keyed entries plus the default-lookup
/// prefix used by option fallback.
#[derive(Debug, PartialEq)]
pub struct CfgMap {
    /// The entries of the map; keys are unique, order carries no meaning.
    pub(crate) entries: Vec<(String, CfgValue)>,
    /// A prefix identifying the default-lookup root; it is concatenated
    /// literally (not path-joined) before an option name, so a path-style
    /// default must include its trailing separator.
    pub default: String,
}

/// The abstract contents of a sequence of entries: a map from key to value,
/// where a later entry with the same key overrides an earlier one.
pub open(crate) spec fn entries_model(s: Seq<(String, CfgValue)>) -> Map<Seq<char>, Val>
    decreases s,
{
    if s.len() == 0 {
        Map::empty()
    } else {
        entries_model(s.drop_last()).insert(s.last().0@, s.last().1.model())
    }
}

/// The abstract contents of a sequence of values.
pub open(crate) spec fn list_model(s: Seq<CfgValue>) -> Seq<Val>
    decreases s,
{
    if s.len() == 0 {
        Seq::empty()
    } else {
        list_model(s.drop_last()).push(s.last().model())
    }
}

impl CfgValue {
    /// The abstract value of this node.
    pub open(crate) spec fn model(self) -> Val
        decreases self,
    {
        match self {
            CfgValue::Int(i) => Val::Int(i),
            CfgValue::Float(b) => Val::Float(b),
            CfgValue::Str(s) => Val::Str(s@),
            CfgValue::Bool(b) => Val::Bool(b),
            CfgValue::Submap(m) => Val::Submap(m.model()),
            CfgValue::List(l) => Val::List(list_model(l@)),
            CfgValue::Datetime(s) => Val::Datetime(s@),
            CfgValue::Null => Val::Null,
            CfgValue::BadValue => Val::BadValue,
            CfgValue::Alias(i) => Val::Alias(i),
        }
    }

    /// Every nested map of this node keeps its keys unique.
    pub open(crate) spec fn wf(self) -> bool
        decreases self,
    {
        match self {
            CfgValue::Submap(m) => m.wf(),
            CfgValue::List(l) => forall|i: int| 0 <= i < l@.len() ==> l@[i].wf(),
            _ => true,
        }
    }
}

impl CfgMap {
    /// The abstract value of this map.
    pub open(crate) spec fn model(self) -> MapModel
        decreases self,
    {
        MapModel { entries: entries_model(self.entries@), default: self.default@ }
    }

    /// Keys are unique here and in every nested map.
    pub open(crate) spec fn wf(self) -> bool
        decreases self,
    {
        unique_keys(self.entries@) && forall|i: int|
            0 <= i < self.entries@.len() ==> self.entries@[i].1.wf()
    }
}

impl View for CfgValue {
    type V = Val;

    open(crate) spec fn view(&self) -> Val {
        self.model()
    }
}

impl View for CfgMap {
    type V = MapModel;

    open(crate) spec fn view(&self) -> MapModel {
        self.model()
    }
}

/// The abstract value of an optional node.
pub open(crate) spec fn opt_model(o: Option<CfgValue>) -> Option<Val> {
    match o {
        Some(v) => Some(v.model()),
        None => None,
    }
}

/// Exclusive access to the value of the entry at `i`; the key stays.
pub(crate) fn entry_value_mut(v: &mut Vec<(String, CfgValue)>, i: usize) -> (r: &mut CfgValue)
    requires
        i < old(v).len(),
    ensures
        *r == old(v)@[i as int].1,
        final(v)@ == old(v)@.update(i as int, (old(v)@[i as int].0, *final(r))),
{
    &mut v[i].1
}

/// Exclusive access to the list element at `i`.
pub(crate) fn list_index_mut(v: &mut Vec<CfgValue>, i: usize) -> (r: &mut CfgValue)
    requires
        i < old(v).len(),
    ensures
        *r == old(v)@[i as int],
        final(v)@ == old(v)@.update(i as int, *final(r)),
{
    &mut v[i]
}

impl CfgValue {
    /// Checks whether the value is an `Int`.
    pub fn is_int(&self) -> (r: bool)
        ensures
            r == (self@ is Int),
    {
        matches!(self, CfgValue::Int(_))
    }

    /// Checks whether the value is a `Float`.
    pub fn is_float(&self) -> (r: bool)
        ensures
            r == (self@ is Float),
    {
        matches!(self, CfgValue::Float(_))
    }

    /// Checks whether the value is a `Str`.
    pub fn is_str(&self) -> (r: bool)
        ensures
            r == (self@ is Str),
    {
        matches!(self, CfgValue::Str(_))
    }

    /// Checks whether the value is a `Bool`.
    pub fn is_bool(&self) -> (r: bool)
        ensures
            r == (self@ is Bool),
    {
        matches!(self, CfgValue::Bool(_))
    }

    /// Checks whether the value is a nested map.
    pub fn is_map(&self) -> (r: bool)
        ensures
            r == (self@ is Submap),
    {
        matches!(self, CfgValue::Submap(_))
    }

    /// Checks whether the value is a `List`.
    pub fn is_list(&self) -> (r: bool)
        ensures
            r == (self@ is List),
    {
        matches!(self, CfgValue::List(_))
    }

    /// Checks whether the value is `Null`.
    pub fn is_null(&self) -> (r: bool)
        ensures
            r == (self@ is Null),
    {
        matches!(self, CfgValue::Null)
    }

    /// Checks whether the value is a `Datetime`.
    pub fn is_datetime(&self) -> (r: bool)
        ensures
            r == (self@ is Datetime),
    {
        matches!(self, CfgValue::Datetime(_))
    }

    /// Checks whether the value is a `BadValue`.
    pub fn is_badvalue(&self) -> (r: bool)
        ensures
            r == (self@ is BadValue),
    {
        matches!(self, CfgValue::BadValue)
    }

    /// Checks whether the value is an `Alias`.
    pub fn is_alias(&self) -> (r: bool)
        ensures
            r == (self@ is Alias),
    {
        matches!(self, CfgValue::Alias(_))
    }

    /// The held integer, if the value is an `Int`.
    pub fn as_int(&self) -> (r: Option<&i64>)
        ensures
            match r {
                Some(x) => self@ == Val::Int(*x),
                None => !(self@ is Int),
            },
    {
        match self {
            CfgValue::Int(x) => Some(x),
            _ => None,
        }
    }

    /// The held float bit pattern, if the value is a `Float`.
    pub fn as_float(&self) -> (r: Option<&u64>)
        ensures
            match r {
                Some(x) => self@ == Val::Float(*x),
                None => !(self@ is Float),
            },
    {
        match self {
            CfgValue::Float(x) => Some(x),
            _ => None,
        }
    }

    /// The held string, if the value is a `Str`.
    pub fn as_str(&self) -> (r: Option<&String>)
        ensures
            match r {
                Some(x) => self@ == Val::Str(x@),
                None => !(self@ is Str),
            },
    {
        match self {
            CfgValue::Str(x) => Some(x),
            _ => None,
        }
    }

    /// The held boolean, if the value is a `Bool`.
    pub fn as_bool(&self) -> (r: Option<&bool>)
        ensures
            match r {
                Some(x) => self@ == Val::Bool(*x),
                None => !(self@ is Bool),
            },
    {
        match self {
            CfgValue::Bool(x) => Some(x),
            _ => None,
        }
    }

    /// The nested map, if the value is one.
    pub fn as_map(&self) -> (r: Option<&CfgMap>)
        ensures
            match r {
                Some(m) => self@ == Val::Submap(m@) && (self.wf() ==> m.wf()),
                None => !(self@ is Submap),
            },
    {
        match self {
            CfgValue::Submap(m) => Some(m),
            _ => None,
        }
    }

    /// The held list, if the value is a `List`.
    pub fn as_list(&self) -> (r: Option<&Vec<CfgValue>>)
        ensures
            match r {
                Some(l) => self@ == Val::List(list_model(l@)) && (self.wf() ==> forall|i: int|
                    0 <= i < l@.len() ==> l@[i].wf()),
                None => !(self@ is List),
            },
    {
        match self {
            CfgValue::List(l) => Some(l),
            _ => None,
        }
    }

    /// Exclusive access to the held integer, if the value is an `Int`.
    pub fn as_int_mut(&mut self) -> (r: Option<&mut i64>)
        ensures
            (*old(self)) is Int ==> r.is_some() && *r.unwrap() == old(self)->Int_0 && *final(self)
                == CfgValue::Int(*final(r.unwrap())),
            !((*old(self)) is Int) ==> r.is_none() && *final(self) == *old(self),
    {
        match self {
            CfgValue::Int(x) => Some(x),
            _ => None,
        }
    }

    /// Exclusive access to the held float bit pattern, if the value is a `Float`.
    pub fn as_float_mut(&mut self) -> (r: Option<&mut u64>)
        ensures
            (*old(self)) is Float ==> r.is_some() && *r.unwrap() == old(self)->Float_0 && *final(self) == CfgValue::Float(*final(r.unwrap())),
            !((*old(self)) is Float) ==> r.is_none() && *final(self) == *old(self),
    {
        match self {
            CfgValue::Float(x) => Some(x),
            _ => None,
        }
    }

    /// Exclusive access to the held string, if the value is a `Str`.
    pub fn as_str_mut(&mut self) -> (r: Option<&mut String>)
        ensures
            (*old(self)) is Str ==> r.is_some() && *r.unwrap() == old(self)->Str_0 && *final(self)
                == CfgValue::Str(*final(r.unwrap())),
            !((*old(self)) is Str) ==> r.is_none() && *final(self) == *old(self),
    {
        match self {
            CfgValue::Str(x) => Some(x),
            _ => None,
        }
    }

    /// Exclusive access to the held boolean, if the value is a `Bool`.
    pub fn as_bool_mut(&mut self) -> (r: Option<&mut bool>)
        ensures
            (*old(self)) is Bool ==> r.is_some() && *r.unwrap() == old(self)->Bool_0 && *final(self) == CfgValue::Bool(*final(r.unwrap())),
            !((*old(self)) is Bool) ==> r.is_none() && *final(self) == *old(self),
    {
        match self {
            CfgValue::Bool(x) => Some(x),
            _ => None,
        }
    }

    /// Exclusive access to the nested map, if the value is one.
    pub fn as_map_mut(&mut self) -> (r: Option<&mut CfgMap>)
        ensures
            (*old(self)) is Submap ==> r.is_some() && *r.unwrap() == old(self)->Submap_0 && *final(self) == CfgValue::Submap(*final(r.unwrap())),
            !((*old(self)) is Submap) ==> r.is_none() && *final(self) == *old(self),
    {
        match self {
            CfgValue::Submap(m) => Some(m),
            _ => None,
        }
    }

    /// Exclusive access to the held list, if the value is a `List`.
    pub fn as_list_mut(&mut self) -> (r: Option<&mut Vec<CfgValue>>)
        ensures
            (*old(self)) is List ==> r.is_some() && *r.unwrap() == old(self)->List_0 && *final(self) == CfgValue::List(*final(r.unwrap())),
            !((*old(self)) is List) ==> r.is_none() && *final(self) == *old(self),
    {
        match self {
            CfgValue::List(l) => Some(l),
            _ => None,
        }
    }

    /// Structural equality of abstract values: same shape and same
    /// contents, with map entries compared without regard to order.
    pub fn equals(&self, other: &CfgValue) -> (r: bool)
        requires
            self.wf(),
            other.wf(),
        ensures
            r == (self@ == other@),
        decreases *self,
    {
        match (self, other) {
            (CfgValue::Int(a), CfgValue::Int(b)) => *a == *b,
            (CfgValue::Float(a), CfgValue::Float(b)) => *a == *b,
            (CfgValue::Str(a), CfgValue::Str(b)) => *a == *b,
            (CfgValue::Bool(a), CfgValue::Bool(b)) => *a == *b,
            (CfgValue::Submap(a), CfgValue::Submap(b)) => a.equals(b),
            (CfgValue::List(a), CfgValue::List(b)) => list_equals(a, b),
            (CfgValue::Datetime(a), CfgValue::Datetime(b)) => *a == *b,
            (CfgValue::Null, CfgValue::Null) => true,
            (CfgValue::BadValue, CfgValue::BadValue) => true,
            (CfgValue::Alias(a), CfgValue::Alias(b)) => *a == *b,
            _ => false,
        }
    }
}

/// Pointwise structural equality of two lists of values.
pub(crate) fn list_equals(x: &Vec<CfgValue>, y: &Vec<CfgValue>) -> (r: bool)
    requires
        forall|i: int| 0 <= i < x@.len() ==> x@[i].wf(),
        forall|i: int| 0 <= i < y@.len() ==> y@[i].wf(),
    ensures
        r == (list_model(x@) == list_model(y@)),
    decreases *x,
{
    proof {
        lemma_list_model(x@);
        lemma_list_model(y@);
    }
    if x.len() != y.len() {
        return false;
    }
    let mut i: usize = 0;
    while i < x.len()
        invariant
            x@.len() == y@.len(),
            0 <= i <= x@.len(),
            forall|j: int| 0 <= j < x@.len() ==> x@[j].wf(),
            forall|j: int| 0 <= j < y@.len() ==> y@[j].wf(),
            forall|j: int| 0 <= j < i ==> x@[j].model() == y@[j].model(),
        decreases x@.len() - i,
    {
        if !x[i].equals(&y[i]) {
            proof {
                lemma_list_model(x@);
                lemma_list_model(y@);
                assert(list_model(x@)[i as int] != list_model(y@)[i as int]);
            }
            return false;
        }
        i += 1;
    }
    proof {
        lemma_list_model(x@);
        lemma_list_model(y@);
        assert(list_model(x@) =~= list_model(y@));
    }
    true
}

impl CfgMap {
    /// The index of the entry with the given key, if any.
    pub(crate) fn find_entry(&self, key: &str) -> (r: Option<usize>)
        ensures
            match r {
                Some(i) => i < self.entries@.len() && self.entries@[i as int].0@ == key@,
                None => forall|i: int| 0 <= i < self.entries@.len() ==> self.entries@[i].0@ != key@,
            },
    {
        let mut i: usize = 0;
        while i < self.entries.len()
            invariant
                0 <= i <= self.entries@.len(),
                forall|j: int| 0 <= j < i ==> self.entries@[j].0@ != key@,
            decreases self.entries@.len() - i,
        {
            if crate::strutil::str_eq(self.entries[i].0.as_str(), key) {
                return Some(i);
            }
            i += 1;
        }
        None
    }

    /// Structural equality of abstract map values: the same keys bound to
    /// structurally equal values, and the same default prefix.
    pub fn equals(&self, other: &CfgMap) -> (r: bool)
        requires
            self.wf(),
            other.wf(),
        ensures
            r == (self@ == other@),
        decreases *self,
    {
        if !(self.default == other.default) {
            return false;
        }
        let n = self.entries.len();
        let mut i: usize = 0;
        while i < n
            invariant
                n == self.entries@.len(),
                0 <= i <= n,
                self.wf(),
                other.wf(),
                forall|a: int|
                    0 <= a < i ==> other@.entries.contains_key(#[trigger] self.entries@[a].0@)
                        && other@.entries[self.entries@[a].0@] == self.entries@[a].1.model(),
            decreases n - i,
        {
            proof {
                lemma_entries_model_at(self.entries@, i as int);
            }
            match other.find_entry(self.entries[i].0.as_str()) {
                Some(j) => {
                    proof {
                        lemma_entries_model_at(other.entries@, j as int);
                    }
                    if !self.entries[i].1.equals(&other.entries[j].1) {
                        proof {
                            assert(self@.entries[self.entries@[i as int].0@] != other@.entries[self.entries@[i as int].0@]);
                        }
                        return false;
                    }
                },
                None => {
                    proof {
                        lemma_entries_model_key(other.entries@, self.entries@[i as int].0@);
                        assert(self@.entries.contains_key(self.entries@[i as int].0@));
                        assert(!other@.entries.contains_key(self.entries@[i as int].0@));
                    }
                    return false;
                },
            }
            i += 1;
        }
        let m = other.entries.len();
        let mut j: usize = 0;
        while j < m
            invariant
                m == other.entries@.len(),
                0 <= j <= m,
                self.wf(),
                other.wf(),
                forall|a: int|
                    0 <= a < self.entries@.len() ==> other@.entries.contains_key(
                        #[trigger] self.entries@[a].0@,
                    ) && other@.entries[self.entries@[a].0@] == self.entries@[a].1.model(),
                forall|b: int|
                    0 <= b < j ==> self@.entries.contains_key(#[trigger] other.entries@[b].0@),
            decreases m - j,
        {
            proof {
                lemma_entries_model_at(other.entries@, j as int);
            }
            match self.find_entry(other.entries[j].0.as_str()) {
                Some(i2) => {
                    proof {
                        lemma_entries_model_at(self.entries@, i2 as int);
                    }
                },
                None => {
                    proof {
                        lemma_entries_model_key(self.entries@, other.entries@[j as int].0@);
                    }
                    return false;
                },
            }
            j += 1;
        }
        proof {
            assert forall|k: Seq<char>| #[trigger] self@.entries.dom().contains(k) implies other@
                .entries.dom().contains(k) && other@.entries[k] == self@.entries[k] by {
                lemma_entries_model_key(self.entries@, k);
                let a = choose|a: int| 0 <= a < self.entries@.len() && self.entries@[a].0@ == k;
                lemma_entries_model_at(self.entries@, a);
            }
            assert forall|k: Seq<char>| #[trigger] other@.entries.dom().contains(k) implies self@
                .entries.dom().contains(k) by {
                lemma_entries_model_key(other.entries@, k);
                let b = choose|b: int| 0 <= b < other.entries@.len() && other.entries@[b].0@ == k;
                assert(self@.entries.contains_key(other.entries@[b].0@));
            }
            assert(self@.entries =~= other@.entries);
            assert(self@ =~= other@);
        }
        true
    }
}


/// Entry sequences with the same keys and abstractly equal values have the
/// same abstract contents.
pub proof fn lemma_entries_model_congruent(s1: Seq<(String, CfgValue)>, s2: Seq<(String, CfgValue)>)
    requires
        s1.len() == s2.len(),
        forall|i: int| 0 <= i < s1.len() ==> (#[trigger] s2[i]).0 == s1[i].0 && s2[i].1.model()
            == s1[i].1.model(),
    ensures
        entries_model(s2) == entries_model(s1),
    decreases s1,
{
    if s1.len() > 0 {
        assert(forall|i: int| 0 <= i < s1.drop_last().len() ==> (#[trigger] s2.drop_last()[i]).0
            == s1.drop_last()[i].0 && s2.drop_last()[i].1.model() == s1.drop_last()[i].1.model());
        lemma_entries_model_congruent(s1.drop_last(), s2.drop_last());
        assert(s2.last() == s2[s1.len() - 1]);
        assert(entries_model(s2) =~= entries_model(s1));
    }
}

/// A deep copy of a list, with the same abstract contents.
fn clone_list(l: &Vec<CfgValue>) -> (r: Vec<CfgValue>)
    ensures
        list_model(r@) == list_model(l@),
        (forall|i: int| 0 <= i < l@.len() ==> (#[trigger] l@[i]).wf()) ==> (forall|i: int|
            0 <= i < r@.len() ==> (#[trigger] r@[i]).wf()),
    decreases *l,
{
    let mut out: Vec<CfgValue> = Vec::new();
    let mut i: usize = 0;
    while i < l.len()
        invariant
            0 <= i <= l@.len(),
            out@.len() == i,
            forall|j: int| 0 <= j < i ==> (#[trigger] out@[j]).model() == l@[j].model() && (
            l@[j].wf() ==> out@[j].wf()),
        decreases l@.len() - i,
    {
        let c = l[i].clone();
        out.push(c);
        i += 1;
    }
    proof {
        lemma_list_model(l@);
        lemma_list_model(out@);
        assert(list_model(out@) =~= list_model(l@));
    }
    out
}

impl Clone for CfgValue {
    /// A deep copy with the same abstract value.
    fn clone(&self) -> (r: CfgValue)
        ensures
            r@ == self@,
            self.wf() ==> r.wf(),
        decreases *self,
    {
        match self {
            CfgValue::Int(x) => CfgValue::Int(*x),
            CfgValue::Float(x) => CfgValue::Float(*x),
            CfgValue::Str(s) => CfgValue::Str(s.clone()),
            CfgValue::Bool(b) => CfgValue::Bool(*b),
            CfgValue::Submap(m) => CfgValue::Submap(m.clone()),
            CfgValue::List(l) => CfgValue::List(clone_list(l)),
            CfgValue::Datetime(s) => CfgValue::Datetime(s.clone()),
            CfgValue::Null => CfgValue::Null,
            CfgValue::BadValue => CfgValue::BadValue,
            CfgValue::Alias(x) => CfgValue::Alias(*x),
        }
    }
}

impl Clone for CfgMap {
    /// A deep copy with the same abstract value.
    fn clone(&self) -> (r: CfgMap)
        ensures
            r@ == self@,
            self.wf() ==> r.wf(),
        decreases *self,
    {
        let mut entries: Vec<(String, CfgValue)> = Vec::new();
        let mut i: usize = 0;
        while i < self.entries.len()
            invariant
                0 <= i <= self.entries@.len(),
                entries@.len() == i,
                forall|j: int| 0 <= j < i ==> (#[trigger] entries@[j]).0 == self.entries@[j].0
                    && entries@[j].1.model() == self.entries@[j].1.model() && (
                self.entries@[j].1.wf() ==> entries@[j].1.wf()),
            decreases self.entries@.len() - i,
        {
            let k = self.entries[i].0.clone();
            let v = self.entries[i].1.clone();
            entries.push((k, v));
            i += 1;
        }
        proof {
            lemma_entries_model_congruent(self.entries@, entries@);
        }
        CfgMap { entries, default: self.default.clone() }
    }
}

/// No two entries share a key.
pub open(crate) spec fn unique_keys(s: Seq<(String, CfgValue)>) -> bool {
    forall|i: int, j: int| 0 <= i < j < s.len() ==> s[i].0@ != s[j].0@
}

/// A list's abstract contents are its members' abstract values, pointwise.
pub proof fn lemma_list_model(s: Seq<CfgValue>)
    ensures
        list_model(s).len() == s.len(),
        forall|i: int| 0 <= i < s.len() ==> list_model(s)[i] == s[i].model(),
    decreases s,
{
    if s.len() > 0 {
        lemma_list_model(s.drop_last());
    }
}


/// Replacing one list element replaces its abstract value pointwise.
pub proof fn lemma_list_model_update(s: Seq<CfgValue>, i: int, v: CfgValue)
    requires
        0 <= i < s.len(),
    ensures
        list_model(s.update(i, v)) == list_model(s).update(i, v.model()),
{
    lemma_list_model(s);
    lemma_list_model(s.update(i, v));
    assert(list_model(s.update(i, v)) =~= list_model(s).update(i, v.model()));
}

/// A key is in the abstract contents exactly when some entry holds it.
pub proof fn lemma_entries_model_key(s: Seq<(String, CfgValue)>, k: Seq<char>)
    ensures
        entries_model(s).contains_key(k) <==> (exists|i: int| 0 <= i < s.len() && s[i].0@ == k),
    decreases s,
{
    if s.len() > 0 {
        lemma_entries_model_key(s.drop_last(), k);
        if entries_model(s).contains_key(k) {
            if s.last().0@ == k {
                assert(s[s.len() - 1].0@ == k);
            } else {
                assert(entries_model(s.drop_last()).contains_key(k));
                let i = choose|i: int| 0 <= i < s.drop_last().len() && s.drop_last()[i].0@ == k;
                assert(s[i].0@ == k);
            }
        }
        if exists|i: int| 0 <= i < s.len() && s[i].0@ == k {
            let i = choose|i: int| 0 <= i < s.len() && s[i].0@ == k;
            if i < s.len() - 1 {
                assert(s.drop_last()[i].0@ == k);
            }
        }
    }
}

/// With unique keys, the abstract contents at an entry's key are that
/// entry's abstract value.
pub proof fn lemma_entries_model_at(s: Seq<(String, CfgValue)>, i: int)
    requires
        unique_keys(s),
        0 <= i < s.len(),
    ensures
        entries_model(s).contains_key(s[i].0@),
        entries_model(s)[s[i].0@] == s[i].1.model(),
    decreases s,
{
    if i == s.len() - 1 {
    } else {
        assert(s.drop_last()[i] == s[i]);
        assert(unique_keys(s.drop_last()));
        lemma_entries_model_at(s.drop_last(), i);
        assert(s[i].0@ != s.last().0@);
    }
}

/// Replacing the value at one entry replaces it in the abstract contents.
pub proof fn lemma_entries_model_update(s: Seq<(String, CfgValue)>, i: int, v: CfgValue)
    requires
        unique_keys(s),
        0 <= i < s.len(),
    ensures
        entries_model(s.update(i, (s[i].0, v))) == entries_model(s).insert(s[i].0@, v.model()),
        unique_keys(s.update(i, (s[i].0, v))),
    decreases s,
{
    let s2 = s.update(i, (s[i].0, v));
    assert(unique_keys(s2));
    if i == s.len() - 1 {
        assert(s2.drop_last() =~= s.drop_last());
        assert(s2.last() == (s[i].0, v));
        assert(entries_model(s2) =~= entries_model(s).insert(s[i].0@, v.model()));
    } else {
        assert(s.drop_last()[i] == s[i]);
        assert(unique_keys(s.drop_last()));
        lemma_entries_model_update(s.drop_last(), i, v);
        assert(s2.drop_last() =~= s.drop_last().update(i, (s[i].0, v)));
        assert(s2.last() == s.last());
        assert(s[i].0@ != s.last().0@);
        assert(entries_model(s2) =~= entries_model(s).insert(s[i].0@, v.model()));
    }
}


/// Broadcast form of `lemma_entries_model_update`, for reasoning about an
/// update whose new value is only known prophetically.
pub broadcast proof fn lemma_entries_model_update_auto(
    s: Seq<(String, CfgValue)>,
    i: int,
    p: (String, CfgValue),
)
    ensures
        #![trigger s.update(i, p)]
        (unique_keys(s) && 0 <= i < s.len() && p.0 == s[i].0) ==> (entries_model(s.update(i, p))
            == entries_model(s).insert(s[i].0@, p.1.model()) && unique_keys(s.update(i, p))),
{
    if unique_keys(s) && 0 <= i < s.len() && p.0 == s[i].0 {
        lemma_entries_model_update(s, i, p.1);
        assert(p == (s[i].0, p.1));
    }
}

/// Broadcast form of `lemma_list_model_update`.
pub broadcast proof fn lemma_list_model_update_auto(s: Seq<CfgValue>, i: int, v: CfgValue)
    ensures
        #![trigger s.update(i, v)]
        (0 <= i < s.len()) ==> list_model(s.update(i, v)) == list_model(s).update(i, v.model()),
{
    if 0 <= i < s.len() {
        lemma_list_model_update(s, i, v);
    }
}


/// Inserting a binding a map already holds leaves it unchanged.
pub broadcast proof fn lemma_map_insert_same_auto<K, V>(m: Map<K, V>, k: K, v: V)
    ensures
        (m.contains_key(k) && m[k] == v) ==> #[trigger] m.insert(k, v) == m,
{
    if m.contains_key(k) && m[k] == v {
        assert(m.insert(k, v) =~= m);
    }
}

/// Updating a slot with the value it already holds leaves a sequence
/// unchanged.
pub broadcast proof fn lemma_seq_update_same_auto<A>(s: Seq<A>, i: int, a: A)
    ensures
        (0 <= i < s.len() && s[i] == a) ==> #[trigger] s.update(i, a) == s,
{
    if 0 <= i < s.len() && s[i] == a {
        assert(s.update(i, a) =~= s);
    }
}

/// Removing one entry removes its key from the abstract contents.
pub proof fn lemma_entries_model_remove(s: Seq<(String, CfgValue)>, i: int)
    requires
        unique_keys(s),
        0 <= i < s.len(),
    ensures
        entries_model(s.remove(i)) == entries_model(s).remove(s[i].0@),
        unique_keys(s.remove(i)),
    decreases s,
{
    let s2 = s.remove(i);
    assert(unique_keys(s2)) by {
        assert forall|a: int, b: int| 0 <= a < b < s2.len() implies s2[a].0@ != s2[b].0@ by {
            let a2: int = if a < i { a } else { a + 1 };
            let b2: int = if b < i { b } else { b + 1 };
            assert(s2[a] == s[a2] && s2[b] == s[b2]);
        }
    }
    lemma_entries_model_key(s.drop_last(), s[i].0@);
    if i == s.len() - 1 {
        assert(s2 =~= s.drop_last());
        assert(forall|j: int| 0 <= j < s.drop_last().len() ==> s.drop_last()[j].0@ != s[i].0@);
        assert(!entries_model(s.drop_last()).contains_key(s[i].0@));
        assert(entries_model(s2) =~= entries_model(s).remove(s[i].0@));
    } else {
        assert(s.drop_last()[i] == s[i]);
        assert(unique_keys(s.drop_last()));
        lemma_entries_model_remove(s.drop_last(), i);
        assert(s2.drop_last() =~= s.drop_last().remove(i));
        assert(s2.last() == s.last());
        assert(s[i].0@ != s.last().0@);
        assert(entries_model(s2) =~= entries_model(s).remove(s[i].0@));
    }
}

} // verus!

