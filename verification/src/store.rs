//! Path-addressed operations on `CfgMap`: lookup, insertion, removal and
//! the default-fallback option accessors.

use vstd::prelude::*;

verus! {

use crate::model::{
    Val, MapModel, m_get, m_update, m_add, m_remove, list_get, list_update, sep_pos, last_sep_pos,
    lemma_sep_pos, lemma_last_sep_pos, lemma_m_update_same, lemma_parse_index_bounds,
};
use crate::value::{
    CfgValue, CfgMap, opt_model, list_model, entries_model, unique_keys, entry_value_mut,
    list_index_mut, lemma_list_model, lemma_entries_model_key, lemma_entries_model_at,
    lemma_entries_model_update, lemma_entries_model_remove,
};
use crate::strutil::{split_once, rsplit_once, parse_usize};
use crate::conditions::{Condition, Checkable, eval};

impl CfgMap {
    /// Creates a new empty configuration map.
    pub fn new() -> (r: CfgMap)
        ensures
            r@.entries == Map::<Seq<char>, Val>::empty(),
            r@.default == Seq::<char>::empty(),
            r.wf(),
    {
        CfgMap { entries: Vec::new(), default: String::new() }
    }

    /// Builds a configuration map from keyed values; a later pair with the
    /// same key overrides an earlier one.
    pub fn with_hashmap(map: Vec<(String, CfgValue)>) -> (r: CfgMap)
        requires
            forall|i: int| 0 <= i < map@.len() ==> (#[trigger] map@[i].1).wf(),
        ensures
            r@.entries == entries_model(map@),
            r@.default == Seq::<char>::empty(),
            r.wf(),
    {
        let ghost orig = map@;
        let mut r = CfgMap::new();
        let mut rest = map;
        while rest.len() > 0
            invariant
                forall|i: int| 0 <= i < orig.len() ==> (#[trigger] orig[i].1).wf(),
                rest@.len() <= orig.len(),
                rest@ == orig.skip(orig.len() - rest@.len()),
                r@.entries == entries_model(orig.take(orig.len() - rest@.len())),
                r@.default == Seq::<char>::empty(),
                r.wf(),
            decreases rest@.len(),
        {
            let ghost k = orig.len() - rest@.len();
            let p = rest.remove(0);
            proof {
                assert(p == orig[k]);
                assert(p.1.wf());
                assert(rest@ =~= orig.skip(k + 1));
                assert(orig.take(k + 1).drop_last() =~= orig.take(k));
                assert(orig.take(k + 1).last() == orig[k]);
            }
            let discard = r.insert_entry(p.0.as_str(), p.1);
            proof {
                assert(r@.entries =~= entries_model(orig.take(k + 1)));
            }
        }
        proof {
            assert(orig.take(orig.len() as int) =~= orig);
        }
        r
    }

    /// Inserts a value under a literal key (no path resolution), returning
    /// the value previously held there.
    pub(crate) fn insert_entry(&mut self, key: &str, value: CfgValue) -> (r: Option<CfgValue>)
        requires
            old(self).wf(),
            value.wf(),
        ensures
            final(self)@.entries == old(self)@.entries.insert(key@, value@),
            final(self)@.default == old(self)@.default,
            final(self).wf(),
            opt_model(r) == (if old(self)@.entries.contains_key(key@) {
                Some(old(self)@.entries[key@])
            } else {
                None::<Val>
            }),
            r is Some ==> r.unwrap().wf(),
    {
        match self.find_entry(key) {
            Some(i) => {
                proof {
                    lemma_entries_model_at(self.entries@, i as int);
                    lemma_entries_model_update(self.entries@, i as int, value);
                    assert(self.entries@[i as int].1.wf());
                }
                let slot = entry_value_mut(&mut self.entries, i);
                let mut v = value;
                core::mem::swap(slot, &mut v);
                Some(v)
            },
            None => {
                proof {
                    lemma_entries_model_key(self.entries@, key@);
                }
                let ghost s0 = self.entries@;
                self.entries.push((key.to_owned(), value));
                proof {
                    assert(self.entries@.drop_last() =~= s0);
                    assert(self.entries@.last().0@ == key@);
                    assert(self.entries@.last().1 == value);
                    assert(unique_keys(self.entries@));
                }
                None
            },
        }
    }

    /// Gets a reference to the value a path resolves to.
    ///
    /// The path is resolved segment by segment: a nested map is entered, a
    /// list is indexed by the next segment, and a list element resolves
    /// further only when it is itself a map. Returns `None` whenever the
    /// path does not resolve.
    pub fn get(&self, key: &str) -> (r: Option<&CfgValue>)
        requires
            self.wf(),
        ensures
            match r {
                Some(v) => m_get(self@, key@) == Some(v@) && v.wf(),
                None => m_get(self@, key@) is None,
            },
        decreases key@.len(),
    {
        proof {
            lemma_sep_pos(key@);
        }
        let (h, t) = split_once(key);
        match t {
            None => {
                match self.find_entry(key) {
                    Some(i) => {
                        proof {
                            lemma_entries_model_at(self.entries@, i as int);
                            assert(self.entries@[i as int].1.wf());
                        }
                        Some(&self.entries[i].1)
                    },
                    None => {
                        proof {
                            lemma_entries_model_key(self.entries@, key@);
                        }
                        None
                    },
                }
            },
            Some(t) => {
                let ghost j = sep_pos(key@);
                match self.find_entry(h.as_str()) {
                    None => {
                        proof {
                            lemma_entries_model_key(self.entries@, h@);
                        }
                        None
                    },
                    Some(i) => {
                        proof {
                            lemma_entries_model_at(self.entries@, i as int);
                            assert(self.entries@[i as int].1.wf());
                        }
                        match &self.entries[i].1 {
                            CfgValue::Submap(map) => map.get(t.as_str()),
                            CfgValue::List(list) => self.get_in_list(list, &t),
                            _ => None,
                        }
                    },
                }
            },
        }
    }

    /// Resolution of the remaining path `t` inside a list found midway.
    fn get_in_list<'a>(&self, list: &'a Vec<CfgValue>, t: &String) -> (r: Option<&'a CfgValue>)
        requires
            forall|i: int| 0 <= i < list@.len() ==> (#[trigger] list@[i]).wf(),
        ensures
            match r {
                Some(v) => list_get(list_model(list@), t@) == Some(v@) && v.wf(),
                None => list_get(list_model(list@), t@) is None,
            },
        decreases t@.len(),
    {
        proof {
            lemma_sep_pos(t@);
            lemma_list_model(list@);
            lemma_parse_index_bounds(t@.subrange(0, sep_pos(t@)));
        }
        let (ix_str, new_t) = split_once(t.as_str());
        proof {
            assert(t@.subrange(0, sep_pos(t@)) =~= ix_str@) by {
                if sep_pos(t@) == t@.len() {
                    assert(t@.subrange(0, sep_pos(t@)) =~= t@);
                }
            }
        }
        match parse_usize(ix_str.as_str()) {
            None => None,
            Some(ix) => {
                if ix >= list.len() {
                    None
                } else {
                    proof {
                        assert(list@[ix as int].wf());
                    }
                    proof {
                        assert(list_model(list@)[ix as int] == list@[ix as int].model());
                    }
                    match new_t {
                        None => {
                            proof {
                                assert(list_get(list_model(list@), t@) == Some(
                                    list@[ix as int].model(),
                                ));
                            }
                            Some(&list[ix])
                        },
                        Some(t2) => {
                            match &list[ix] {
                                CfgValue::Submap(m2) => {
                                    proof {
                                        assert(list@[ix as int].model() == Val::Submap(m2@));
                                        assert(list_get(list_model(list@), t@) == m_get(
                                            m2@,
                                            t@.skip(sep_pos(t@) + 1),
                                        ));
                                        assert(t2@ == t@.skip(sep_pos(t@) + 1));
                                    }
                                    m2.get(t2.as_str())
                                },
                                _ => None,
                            }
                        },
                    }
                }
            },
        }
    }

    /// Gets a mutable reference to the value a path resolves to, with the
    /// same resolution rules as `get`. The final tree is the old tree with
    /// the resolved slot holding whatever the caller leaves behind the
    /// returned reference; nothing changes when the path does not resolve.
    pub fn get_mut(&mut self, key: &str) -> (r: Option<&mut CfgValue>)
        requires
            old(self).wf(),
        ensures
            r is Some <==> m_get(old(self)@, key@) is Some,
            r is None ==> final(self)@ == old(self)@ && final(self).wf(),
            r is Some ==> (*r.unwrap())@ == m_get(old(self)@, key@).unwrap() && (*r.unwrap()).wf()
                && final(self)@ == m_update(old(self)@, key@, (*final(r.unwrap()))@)
                && ((*final(r.unwrap())).wf() ==> final(self).wf()),
        decreases key@.len(),
    {
        broadcast use crate::value::lemma_entries_model_update_auto;
        broadcast use crate::value::lemma_map_insert_same_auto;
        broadcast use crate::value::lemma_seq_update_same_auto;

        proof {
            lemma_sep_pos(key@);
        }
        let (h, t) = split_once(key);
        match t {
            None => {
                match self.find_entry(key) {
                    Some(i) => {
                        let ghost s0 = self.entries@;
                        proof {
                            lemma_entries_model_at(s0, i as int);
                            assert(s0[i as int].1.wf());
                        }
                        let slot = entry_value_mut(&mut self.entries, i);
                        Some(slot)
                    },
                    None => {
                        proof {
                            lemma_entries_model_key(self.entries@, key@);
                        }
                        None
                    },
                }
            },
            Some(t) => {
                match self.find_entry(h.as_str()) {
                    None => {
                        proof {
                            lemma_entries_model_key(self.entries@, h@);
                        }
                        None
                    },
                    Some(i) => {
                        let ghost s0 = self.entries@;
                        proof {
                            lemma_entries_model_at(s0, i as int);
                            assert(s0[i as int].1.wf());
                        }
                        let kind_map = matches!(&self.entries[i].1, CfgValue::Submap(_));
                        let kind_list = matches!(&self.entries[i].1, CfgValue::List(_));
                        if kind_map {
                            let val = entry_value_mut(&mut self.entries, i);
                            match val {
                                CfgValue::Submap(map) => map.get_mut(t.as_str()),
                                _ => None,
                            }
                        } else if kind_list {
                            let val = entry_value_mut(&mut self.entries, i);
                            match val {
                                CfgValue::List(list) => get_mut_in_list(list, &t),
                                _ => None,
                            }
                        } else {
                            None
                        }
                    },
                }
            },
        }
    }

    /// Adds a new entry: the final path segment is inserted into the map
    /// the rest of the path resolves to (the top-level map when the path
    /// has no separator), returning any value previously held there.
    /// Fails, changing nothing, when that parent path does not resolve to
    /// a map; intermediate maps are never created.
    pub fn add(&mut self, key: &str, value: CfgValue) -> (r: Result<Option<CfgValue>, ()>)
        requires
            old(self).wf(),
            value.wf(),
        ensures
            m_add(old(self)@, key@, value@) is Err ==> r is Err && final(self)@ == old(self)@
                && final(self).wf(),
            m_add(old(self)@, key@, value@) is Ok ==> r is Ok && final(self)@ == m_add(
                old(self)@,
                key@,
                value@,
            ).unwrap().0 && final(self).wf() && opt_model(r.unwrap()) == m_add(
                old(self)@,
                key@,
                value@,
            ).unwrap().1 && (r.unwrap() is Some ==> r.unwrap().unwrap().wf()),
    {
        proof {
            lemma_last_sep_pos(key@);
        }
        let (path, fin) = rsplit_once(key);
        match path {
            None => {
                let old_v = self.insert_entry(fin.as_str(), value);
                Ok(old_v)
            },
            Some(p) => {
                let sub = self.get_mut(p.as_str());
                match sub {
                    Some(x) => {
                        match x {
                            CfgValue::Submap(m) => {
                                let old_v = m.insert_entry(fin.as_str(), value);
                                Ok(old_v)
                            },
                            _ => {
                                proof {
                                    lemma_m_update_same(old(self)@, p@, (*x)@);
                                }
                                Err(())
                            },
                        }
                    },
                    None => Err(()),
                }
            },
        }
    }

    /// Deletes the entry a path resolves to, returning its key and value;
    /// `None`, with nothing changed, when the path's parent does not
    /// resolve to a map or the final key is absent.
    pub fn remove_entry(&mut self, key: &str) -> (r: Option<(String, CfgValue)>)
        requires
            old(self).wf(),
        ensures
            final(self)@ == m_remove(old(self)@, key@).0,
            final(self).wf(),
            match r {
                Some(kv) => m_remove(old(self)@, key@).1 == Some(kv.1@) && kv.1.wf() && kv.0@
                    == key@.skip(last_sep_pos(key@) + 1),
                None => m_remove(old(self)@, key@).1 is None,
            },
    {
        proof {
            lemma_last_sep_pos(key@);
        }
        let (path, fin) = rsplit_once(key);
        match path {
            None => self.remove_entry_base(fin.as_str()),
            Some(p) => {
                let sub = self.get_mut(p.as_str());
                match sub {
                    Some(x) => {
                        match x {
                            CfgValue::Submap(m) => {
                                let rr = m.remove_entry_base(fin.as_str());
                                proof {
                                    if m_remove(old(self)@, key@).1 is None {
                                        lemma_m_update_same(old(self)@, p@, (*x)@);
                                    }
                                }
                                rr
                            },
                            _ => {
                                proof {
                                    lemma_m_update_same(old(self)@, p@, (*x)@);
                                }
                                None
                            },
                        }
                    },
                    None => None,
                }
            },
        }
    }

    /// Deletes a literal key of this map (no path resolution).
    fn remove_entry_base(&mut self, key: &str) -> (r: Option<(String, CfgValue)>)
        requires
            old(self).wf(),
        ensures
            final(self)@.default == old(self)@.default,
            final(self).wf(),
            match r {
                Some(kv) => old(self)@.entries.contains_key(key@) && kv.0@ == key@ && kv.1@ == old(
                    self,
                )@.entries[key@] && kv.1.wf() && final(self)@.entries == old(
                    self,
                )@.entries.remove(key@),
                None => !old(self)@.entries.contains_key(key@) && final(self)@ == old(self)@,
            },
    {
        match self.find_entry(key) {
            Some(i) => {
                proof {
                    lemma_entries_model_at(self.entries@, i as int);
                    lemma_entries_model_remove(self.entries@, i as int);
                    assert(self.entries@[i as int].1.wf());
                }
                let kv = self.entries.remove(i);
                Some(kv)
            },
            None => {
                proof {
                    lemma_entries_model_key(self.entries@, key@);
                }
                None
            },
        }
    }

    /// Deletes the entry a path resolves to and returns its value.
    pub fn remove(&mut self, key: &str) -> (r: Option<CfgValue>)
        requires
            old(self).wf(),
        ensures
            final(self)@ == m_remove(old(self)@, key@).0,
            final(self).wf(),
            opt_model(r) == m_remove(old(self)@, key@).1,
            r is Some ==> r.unwrap().wf(),
    {
        match self.remove_entry(key) {
            Some(kv) => Some(kv.1),
            None => None,
        }
    }

    /// Deletes the entry a path resolves to only when the value there
    /// satisfies the condition; otherwise nothing changes.
    pub fn remove_if(&mut self, key: &str, condition: Condition) -> (r: Option<CfgValue>)
        requires
            old(self).wf(),
            condition.wf(),
        ensures
            ({
                let g = m_get(old(self)@, key@);
                if g is Some && eval(condition, g.unwrap()) {
                    final(self)@ == m_remove(old(self)@, key@).0 && final(self).wf() && opt_model(r)
                        == m_remove(old(self)@, key@).1 && (r is Some ==> r.unwrap().wf())
                } else {
                    r is None && final(self)@ == old(self)@ && final(self).wf()
                }
            }),
    {
        let hit = self.get(key).check_that(condition);
        if hit {
            self.remove(key)
        } else {
            None
        }
    }

    /// Deletes the entry a path resolves to, returning its key and value,
    /// only when the value there satisfies the condition.
    pub fn remove_entry_if(&mut self, key: &str, condition: Condition) -> (r: Option<
        (String, CfgValue),
    >)
        requires
            old(self).wf(),
            condition.wf(),
        ensures
            ({
                let g = m_get(old(self)@, key@);
                if g is Some && eval(condition, g.unwrap()) {
                    final(self)@ == m_remove(old(self)@, key@).0 && final(self).wf() && (match r {
                        Some(kv) => m_remove(old(self)@, key@).1 == Some(kv.1@) && kv.1.wf()
                            && kv.0@ == key@.skip(last_sep_pos(key@) + 1),
                        None => m_remove(old(self)@, key@).1 is None,
                    })
                } else {
                    r is None && final(self)@ == old(self)@ && final(self).wf()
                }
            }),
    {
        let hit = self.get(key).check_that(condition);
        if hit {
            self.remove_entry(key)
        } else {
            None
        }
    }

    /// Gets an option with default fallback: first `category/option`, then
    /// the default prefix concatenated literally with the option name.
    pub fn get_option(&self, category: &str, option: &str) -> (r: Option<&CfgValue>)
        requires
            self.wf(),
        ensures
            ({
                let primary = m_get(self@, category@ + seq!['/'] + option@);
                let fallback = m_get(self@, self@.default + option@);
                match r {
                    Some(v) => v.wf() && (primary == Some(v@) || (primary is None && fallback
                        == Some(v@))),
                    None => primary is None && fallback is None,
                }
            }),
    {
        let mut fullkey = category.to_owned();
        fullkey.append("/");
        fullkey.append(option);
        let mut defkey = self.default.clone();
        defkey.append(option);
        proof {
            reveal_strlit("/");
            assert(fullkey@ =~= category@ + seq!['/'] + option@);
            assert(defkey@ =~= self@.default + option@);
        }
        let first = self.get(fullkey.as_str());
        match first {
            Some(v) => Some(v),
            None => self.get(defkey.as_str()),
        }
    }

    /// Replaces the value of an existing option in place, with the same
    /// two-step resolution as `get_option`, and returns the value it
    /// displaced; never inserts a new key.
    pub fn update_option(&mut self, category: &str, option: &str, to: CfgValue) -> (r: Option<
        CfgValue,
    >)
        requires
            old(self).wf(),
            to.wf(),
        ensures
            ({
                let primary = category@ + seq!['/'] + option@;
                let fallback = old(self)@.default + option@;
                if m_get(old(self)@, primary) is Some {
                    r is Some && Some(r.unwrap()@) == m_get(old(self)@, primary)
                        && r.unwrap().wf() && final(self)@ == m_update(old(self)@, primary, to@)
                        && final(self).wf()
                } else if m_get(old(self)@, fallback) is Some {
                    r is Some && Some(r.unwrap()@) == m_get(old(self)@, fallback)
                        && r.unwrap().wf() && final(self)@ == m_update(old(self)@, fallback, to@)
                        && final(self).wf()
                } else {
                    r is None && final(self)@ == old(self)@ && final(self).wf()
                }
            }),
    {
        let mut fullkey = category.to_owned();
        fullkey.append("/");
        fullkey.append(option);
        let mut defkey = self.default.clone();
        defkey.append(option);
        proof {
            reveal_strlit("/");
            assert(fullkey@ =~= category@ + seq!['/'] + option@);
            assert(defkey@ =~= old(self)@.default + option@);
        }
        let first = self.get_mut(fullkey.as_str());
        match first {
            Some(x) => {
                let mut v = to;
                core::mem::swap(x, &mut v);
                Some(v)
            },
            None => {
                let second = self.get_mut(defkey.as_str());
                match second {
                    Some(x) => {
                        let mut v = to;
                        core::mem::swap(x, &mut v);
                        Some(v)
                    },
                    None => None,
                }
            },
        }
    }

    /// Checks whether a path resolves to a value.
    pub fn contains_key(&self, key: &str) -> (r: bool)
        requires
            self.wf(),
        ensures
            r == (m_get(self@, key@) is Some),
    {
        self.get(key).is_some()
    }
}

/// Mutable resolution of the remaining path `t` inside a list found midway.
fn get_mut_in_list<'a>(list: &'a mut Vec<CfgValue>, t: &String) -> (r: Option<&'a mut CfgValue>)
    requires
        forall|i: int| 0 <= i < old(list)@.len() ==> (#[trigger] old(list)@[i]).wf(),
    ensures
        r is Some <==> list_get(list_model(old(list)@), t@) is Some,
        r is None ==> list_model(final(list)@) == list_model(old(list)@) && (forall|i: int|
            0 <= i < final(list)@.len() ==> (#[trigger] final(list)@[i]).wf()),
        r is Some ==> (*r.unwrap())@ == list_get(list_model(old(list)@), t@).unwrap() && (*r.unwrap()).wf()
            && list_model(final(list)@) == list_update(
            list_model(old(list)@),
            t@,
            (*final(r.unwrap()))@,
        ) && ((*final(r.unwrap())).wf() ==> (forall|i: int|
            0 <= i < final(list)@.len() ==> (#[trigger] final(list)@[i]).wf())),
    decreases t@.len(),
{
    broadcast use crate::value::lemma_list_model_update_auto;
    broadcast use crate::value::lemma_seq_update_same_auto;

    proof {
        lemma_sep_pos(t@);
        lemma_list_model(old(list)@);
        lemma_parse_index_bounds(t@.subrange(0, sep_pos(t@)));
    }
    let (ix_str, new_t) = split_once(t.as_str());
    proof {
        assert(t@.subrange(0, sep_pos(t@)) =~= ix_str@) by {
            if sep_pos(t@) == t@.len() {
                assert(t@.subrange(0, sep_pos(t@)) =~= t@);
            }
        }
    }
    match parse_usize(ix_str.as_str()) {
        None => None,
        Some(ix) => {
            if ix >= list.len() {
                None
            } else {
                let ghost l0 = list@;
                proof {
                    assert(l0[ix as int].wf());
                    assert(list_model(l0)[ix as int] == l0[ix as int].model());
                }
                match new_t {
                    None => {
                        let el = list_index_mut(list, ix);
                        Some(el)
                    },
                    Some(t2) => {
                        let kind_map = matches!(&list[ix], CfgValue::Submap(_));
                        if kind_map {
                            let el = list_index_mut(list, ix);
                            match el {
                                CfgValue::Submap(m2) => m2.get_mut(t2.as_str()),
                                _ => None,
                            }
                        } else {
                            None
                        }
                    },
                }
            }
        },
    }
}

impl CfgValue {
    /// Assumes the value is a nested map and resolves a path inside it;
    /// `None` if the value is not a map or the path does not resolve.
    pub fn get(&self, key: &str) -> (r: Option<&CfgValue>)
        requires
            self.wf(),
        ensures
            match r {
                Some(v) => self@ is Submap && m_get(self@->Submap_0, key@) == Some(v@) && v.wf(),
                None => !(self@ is Submap) || m_get(self@->Submap_0, key@) is None,
            },
    {
        match self {
            CfgValue::Submap(m) => m.get(key),
            _ => None,
        }
    }

    /// Assumes the value is a nested map and resolves a path inside it for
    /// mutation; `None` if the value is not a map or the path does not
    /// resolve.
    pub fn get_mut(&mut self, key: &str) -> (r: Option<&mut CfgValue>)
        requires
            old(self).wf(),
        ensures
            !((*old(self)) is Submap) ==> r is None && *final(self) == *old(self),
            (*old(self)) is Submap ==> ((r is Some <==> m_get((*old(self))@->Submap_0, key@)
                is Some) && (r is None ==> final(self)@ == old(self)@ && final(self).wf()) && (r
                is Some ==> (*r.unwrap())@ == m_get((*old(self))@->Submap_0, key@).unwrap()
                && (*r.unwrap()).wf() && final(self)@ == Val::Submap(
                m_update((*old(self))@->Submap_0, key@, (*final(r.unwrap()))@),
            ) && ((*final(r.unwrap())).wf() ==> final(self).wf()))),
    {
        match self {
            CfgValue::Submap(m) => m.get_mut(key),
            _ => None,
        }
    }
}

} // verus!
