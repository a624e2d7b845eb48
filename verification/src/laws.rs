//! General laws of the store and of the predicate algebra, proved over the
//! abstract model that the executable functions' contracts speak of.

use vstd::prelude::*;

verus! {

use crate::is_sep;
use crate::model::{
    Val, MapModel, m_get, m_update, m_add, m_remove, list_get, list_update, sep_pos, last_sep_pos,
    lemma_sep_pos, lemma_sep_pos_is, lemma_last_sep_pos,
};
use crate::conditions::{Condition, eval};

/// A condition that tests only the kind of a value.
pub open spec fn is_kind_test(c: Condition) -> bool {
    ||| c is IsInt
    ||| c is IsFloat
    ||| c is IsStr
    ||| c is IsBool
    ||| c is IsMap
    ||| c is IsList
    ||| c is IsNull
    ||| c is IsDatetime
}

/// Each kind test holds exactly of the values of its kind.
pub proof fn lemma_kind_tests(v: Val)
    ensures
        eval(Condition::IsInt, v) <==> v is Int,
        eval(Condition::IsFloat, v) <==> v is Float,
        eval(Condition::IsStr, v) <==> v is Str,
        eval(Condition::IsBool, v) <==> v is Bool,
        eval(Condition::IsMap, v) <==> v is Submap,
        eval(Condition::IsList, v) <==> v is List,
        eval(Condition::IsNull, v) <==> v is Null,
        eval(Condition::IsDatetime, v) <==> v is Datetime,
{
}

/// No value satisfies two distinct kind tests at once.
pub proof fn lemma_kind_tests_exclusive(v: Val, c1: Condition, c2: Condition)
    requires
        is_kind_test(c1),
        is_kind_test(c2),
        c1 != c2,
    ensures
        !(eval(c1, v) && eval(c2, v)),
{
}

/// Over an empty list, `IsListWith` holds vacuously, whatever the inner
/// condition.
pub proof fn lemma_is_list_with_empty(c: Box<Condition>)
    ensures
        eval(Condition::IsListWith(c), Val::List(Seq::empty())),
{
}

/// A path whose characters hold no separator splits as a single segment.
pub proof fn lemma_no_sep_single_segment(p: Seq<char>)
    requires
        last_sep_pos(p) < 0,
    ensures
        sep_pos(p) == p.len(),
{
    lemma_last_sep_pos(p);
    lemma_sep_pos_is(p, p.len() as int);
}

/// Extending a path that resolves to a nested map resolves inside it.
pub proof fn lemma_m_get_extend(m: MapModel, q: Seq<char>, t: Seq<char>)
    requires
        m_get(m, q) is Some,
        m_get(m, q).unwrap() is Submap,
    ensures
        m_get(m, q + seq!['/'] + t) == m_get(m_get(m, q).unwrap()->Submap_0, t),
    decreases q.len(),
{
    let p = q + seq!['/'] + t;
    lemma_sep_pos(q);
    let j = sep_pos(q);
    if j == q.len() {
        lemma_sep_pos_is(p, j);
        assert(p.subrange(0, j) =~= q);
        assert(p.skip(j + 1) =~= t);
    } else {
        lemma_sep_pos_is(p, j);
        assert(p.subrange(0, j) =~= q.subrange(0, j));
        assert(p.skip(j + 1) =~= q.skip(j + 1) + seq!['/'] + t);
        let h = q.subrange(0, j);
        match m.entries[h] {
            Val::Submap(sub) => {
                lemma_m_get_extend(sub, q.skip(j + 1), t);
            },
            Val::List(items) => {
                lemma_list_get_extend(items, q.skip(j + 1), t);
            },
            _ => {},
        }
    }
}

/// The list-side companion of `lemma_m_get_extend`.
pub proof fn lemma_list_get_extend(items: Seq<Val>, q: Seq<char>, t: Seq<char>)
    requires
        list_get(items, q) is Some,
        list_get(items, q).unwrap() is Submap,
    ensures
        list_get(items, q + seq!['/'] + t) == m_get(list_get(items, q).unwrap()->Submap_0, t),
    decreases q.len(),
{
    let p = q + seq!['/'] + t;
    lemma_sep_pos(q);
    let j = sep_pos(q);
    lemma_sep_pos_is(p, j);
    assert(p.subrange(0, j) =~= q.subrange(0, j));
    if j == q.len() {
        assert(q.subrange(0, j) =~= q);
        assert(p.skip(j + 1) =~= t);
    } else {
        assert(p.skip(j + 1) =~= q.skip(j + 1) + seq!['/'] + t);
        let ix = crate::model::parse_index(q.subrange(0, j)).unwrap();
        match items[ix] {
            Val::Submap(sub) => {
                lemma_m_get_extend(sub, q.skip(j + 1), t);
            },
            _ => {},
        }
    }
}

/// After overwriting the slot a path resolves to, that path resolves to
/// the new value.
pub proof fn lemma_m_get_update(m: MapModel, q: Seq<char>, nv: Val)
    requires
        m_get(m, q) is Some,
    ensures
        m_get(m_update(m, q, nv), q) == Some(nv),
    decreases q.len(),
{
    lemma_sep_pos(q);
    let j = sep_pos(q);
    if j != q.len() {
        let h = q.subrange(0, j);
        let t2 = q.skip(j + 1);
        match m.entries[h] {
            Val::Submap(sub) => {
                lemma_m_get_update(sub, t2, nv);
            },
            Val::List(items) => {
                lemma_list_get_update(items, t2, nv);
            },
            _ => {},
        }
    }
}

/// The list-side companion of `lemma_m_get_update`.
pub proof fn lemma_list_get_update(items: Seq<Val>, t: Seq<char>, nv: Val)
    requires
        list_get(items, t) is Some,
    ensures
        list_get(list_update(items, t, nv), t) == Some(nv),
    decreases t.len(),
{
    lemma_sep_pos(t);
    let j = sep_pos(t);
    let ix = crate::model::parse_index(t.subrange(0, j)).unwrap();
    if j != t.len() {
        match items[ix] {
            Val::Submap(sub) => {
                lemma_m_get_update(sub, t.skip(j + 1), nv);
            },
            _ => {},
        }
    }
}

/// A value added at a path is what the tree then yields at that path.
pub proof fn lemma_add_then_get(m: MapModel, p: Seq<char>, v: Val)
    requires
        m_add(m, p, v) is Ok,
    ensures
        m_get(m_add(m, p, v).unwrap().0, p) == Some(v),
{
    let j = last_sep_pos(p);
    lemma_last_sep_pos(p);
    if j < 0 {
        lemma_no_sep_single_segment(p);
    } else {
        let q = p.subrange(0, j);
        let fin = p.skip(j + 1);
        let sub = m_get(m, q).unwrap()->Submap_0;
        let sub2 = MapModel { entries: sub.entries.insert(fin, v), default: sub.default };
        let m2 = m_update(m, q, Val::Submap(sub2));
        lemma_m_get_update(m, q, Val::Submap(sub2));
        lemma_m_get_extend(m2, q, fin);
        assert(p =~= q + seq!['/'] + fin);
        assert(forall|i: int| 0 <= i < fin.len() ==> !is_sep(fin[i]));
        lemma_sep_pos_is(fin, fin.len() as int);
    }
}

/// Adding twice at one path: the second `add` reports the first value and
/// a lookup then yields the second.
pub proof fn lemma_add_twice(m: MapModel, p: Seq<char>, v1: Val, v2: Val)
    requires
        m_add(m, p, v1) is Ok,
    ensures
        ({
            let m1 = m_add(m, p, v1).unwrap().0;
            m_add(m1, p, v2) is Ok && m_add(m1, p, v2).unwrap().1 == Some(v1) && m_get(
                m_add(m1, p, v2).unwrap().0,
                p,
            ) == Some(v2)
        }),
{
    let j = last_sep_pos(p);
    lemma_last_sep_pos(p);
    let m1 = m_add(m, p, v1).unwrap().0;
    if j < 0 {
        lemma_no_sep_single_segment(p);
        lemma_add_then_get(m1, p, v2);
    } else {
        let q = p.subrange(0, j);
        let fin = p.skip(j + 1);
        let sub = m_get(m, q).unwrap()->Submap_0;
        let sub2 = MapModel { entries: sub.entries.insert(fin, v1), default: sub.default };
        lemma_m_get_update(m, q, Val::Submap(sub2));
        assert(m_get(m1, q) == Some(Val::Submap(sub2)));
        lemma_add_then_get(m1, p, v2);
    }
}

/// After a removal that removed something, the path no longer resolves;
/// and removing an absent path changes nothing. The law does not cover a
/// path whose final segment indexes a list, where nothing is removed.
pub proof fn lemma_remove_clears(m: MapModel, p: Seq<char>)
    requires
        m_remove(m, p).1 is Some || m_get(m, p) is None,
    ensures
        m_get(m_remove(m, p).0, p) is None,
        m_remove(m, p).1 is None ==> m_remove(m, p).0 == m,
{
    let j = last_sep_pos(p);
    lemma_last_sep_pos(p);
    if m_remove(m, p).1 is Some {
        if j < 0 {
            lemma_no_sep_single_segment(p);
        } else {
            let q = p.subrange(0, j);
            let fin = p.skip(j + 1);
            let sub = m_get(m, q).unwrap()->Submap_0;
            let sub2 = MapModel { entries: sub.entries.remove(fin), default: sub.default };
            let m2 = m_update(m, q, Val::Submap(sub2));
            lemma_m_get_update(m, q, Val::Submap(sub2));
            lemma_m_get_extend(m2, q, fin);
            assert(p =~= q + seq!['/'] + fin);
            assert(forall|i: int| 0 <= i < fin.len() ==> !is_sep(fin[i]));
            lemma_sep_pos_is(fin, fin.len() as int);
        }
    }
}

} // verus!
