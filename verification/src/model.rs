//! The mathematical model of the configuration tree.
//!
//! `Val` is the abstract value of a node: scalars carry their plain value
//! (a float is identified by its IEEE 754 bit pattern), strings are
//! character sequences, a nested map is a mathematical `Map` from key to
//! value together with its default-lookup prefix, and a list is a sequence.
//! The spec functions below define, over this model, what the path-addressed
//! operations of the store return and how they change the tree.

use vstd::prelude::*;

verus! {

use crate::is_sep;

/// Abstract value of one node of the configuration tree.
#[verifier::ext_equal]
pub enum Val {
    Int(i64),
    Float(u64),
    Str(Seq<char>),
    Bool(bool),
    Submap(MapModel),
    List(Seq<Val>),
    Datetime(Seq<char>),
    Null,
    BadValue,
    Alias(usize),
}

/// Abstract value of a configuration map: its entries and the
/// default-lookup prefix consulted by option fallback.
#[verifier::ext_equal]
pub struct MapModel {
    pub entries: Map<Seq<char>, Val>,
    pub default: Seq<char>,
}

/// Index of the first separator in `p`, or `p.len()` if there is none.
pub open spec fn sep_pos(p: Seq<char>) -> int
    decreases p.len(),
{
    if p.len() == 0 {
        0
    } else if is_sep(p[0]) {
        0
    } else {
        1 + sep_pos(p.skip(1))
    }
}

pub proof fn lemma_sep_pos(p: Seq<char>)
    ensures
        0 <= sep_pos(p) <= p.len(),
        sep_pos(p) < p.len() ==> is_sep(p[sep_pos(p)]),
        forall|i: int| 0 <= i < sep_pos(p) ==> !is_sep(p[i]),
    decreases p.len(),
{
    if p.len() != 0 && !is_sep(p[0]) {
        lemma_sep_pos(p.skip(1));
        assert forall|i: int| 0 <= i < sep_pos(p) implies !is_sep(p[i]) by {
            if i > 0 {
                assert(p[i] == p.skip(1)[i - 1]);
            }
        }
    }
}

/// Index of the last separator in `p`, or `-1` if there is none.
pub open spec fn last_sep_pos(p: Seq<char>) -> int
    decreases p.len(),
{
    if p.len() == 0 {
        -1
    } else if is_sep(p.last()) {
        p.len() - 1
    } else {
        last_sep_pos(p.drop_last())
    }
}

pub proof fn lemma_last_sep_pos(p: Seq<char>)
    ensures
        -1 <= last_sep_pos(p) < p.len(),
        last_sep_pos(p) >= 0 ==> is_sep(p[last_sep_pos(p)]),
        forall|i: int| last_sep_pos(p) < i < p.len() ==> !is_sep(p[i]),
    decreases p.len(),
{
    if p.len() != 0 && !is_sep(p.last()) {
        lemma_last_sep_pos(p.drop_last());
        assert forall|i: int| last_sep_pos(p) < i < p.len() implies !is_sep(p[i]) by {
            if i < p.len() - 1 {
                assert(p[i] == p.drop_last()[i]);
            }
        }
    }
}

/// A position with no separator before it, and a separator (or the end) at
/// it, is the first separator position.
pub proof fn lemma_sep_pos_is(p: Seq<char>, j: int)
    requires
        0 <= j <= p.len(),
        forall|i: int| 0 <= i < j ==> !is_sep(p[i]),
        j < p.len() ==> is_sep(p[j]),
    ensures
        sep_pos(p) == j,
{
    lemma_sep_pos(p);
    if sep_pos(p) < j {
        assert(!is_sep(p[sep_pos(p)]));
    }
    if sep_pos(p) > j {
        assert(!is_sep(p[j]));
    }
}

/// A position with no separator after it, and a separator (or nothing) at
/// it, is the last separator position.
pub proof fn lemma_last_sep_pos_is(p: Seq<char>, j: int)
    requires
        -1 <= j < p.len(),
        forall|i: int| j < i < p.len() ==> !is_sep(p[i]),
        j >= 0 ==> is_sep(p[j]),
    ensures
        last_sep_pos(p) == j,
{
    lemma_last_sep_pos(p);
    if last_sep_pos(p) > j {
        assert(!is_sep(p[last_sep_pos(p)]));
    }
    if last_sep_pos(p) < j {
        assert(!is_sep(p[j]));
    }
}

pub open spec fn is_digit(c: char) -> bool {
    '0' <= c && c <= '9'
}

pub open spec fn all_digits(s: Seq<char>) -> bool {
    forall|i: int| 0 <= i < s.len() ==> is_digit(s[i])
}

/// Numeric value of a sequence of decimal digits, most significant first.
pub open spec fn digits_val(s: Seq<char>) -> int
    decreases s.len(),
{
    if s.len() == 0 {
        0
    } else {
        digits_val(s.drop_last()) * 10 + (s.last() as int - '0' as int)
    }
}

/// Appending digits to a digit string never shrinks its value.
pub proof fn lemma_digits_val_prefix(s: Seq<char>, j: int)
    requires
        all_digits(s),
        0 <= j <= s.len(),
    ensures
        0 <= digits_val(s.take(j)) <= digits_val(s),
    decreases s.len() - j,
{
    if j == s.len() {
        assert(s.take(j) =~= s);
        lemma_digits_val_nonneg(s);
    } else {
        lemma_digits_val_prefix(s, j + 1);
        let t = s.take(j + 1);
        assert(t.drop_last() =~= s.take(j));
        assert(is_digit(t.last()));
        lemma_digits_val_nonneg(s.take(j));
    }
}

pub proof fn lemma_digits_val_nonneg(s: Seq<char>)
    requires
        all_digits(s),
    ensures
        digits_val(s) >= 0,
    decreases s.len(),
{
    if s.len() > 0 {
        assert(all_digits(s.drop_last()));
        lemma_digits_val_nonneg(s.drop_last());
        assert(is_digit(s.last()));
    }
}

/// The list-index meaning of one path segment, following the grammar of an
/// unsigned decimal integer: an optional leading '+', then at least one
/// digit, with a value that fits in `usize`.
pub open spec fn parse_index(s: Seq<char>) -> Option<int> {
    let d = if s.len() > 0 && s[0] == '+' {
        s.skip(1)
    } else {
        s
    };
    if d.len() > 0 && all_digits(d) && digits_val(d) <= usize::MAX {
        Some(digits_val(d))
    } else {
        None
    }
}


/// A parsed index is a `usize` value.
pub proof fn lemma_parse_index_bounds(s: Seq<char>)
    ensures
        parse_index(s) is Some ==> 0 <= parse_index(s).unwrap() <= usize::MAX,
{
    let d = if s.len() > 0 && s[0] == '+' {
        s.skip(1)
    } else {
        s
    };
    if d.len() > 0 && all_digits(d) && digits_val(d) <= usize::MAX {
        lemma_digits_val_nonneg(d);
    }
}

/// What `get` returns: the first segment is a map key; a nested map found
/// midway is entered, a list found midway is indexed by the next segment,
/// and a list element continues resolution only if it is itself a map.
/// Every failure (missing key, wrong kind, bad index) is `None`.
pub open spec fn m_get(m: MapModel, p: Seq<char>) -> Option<Val>
    decreases p.len(),
    via m_get_dec
{
    let j = sep_pos(p);
    if j == p.len() {
        if m.entries.contains_key(p) {
            Some(m.entries[p])
        } else {
            None
        }
    } else {
        let h = p.subrange(0, j);
        let t = p.skip(j + 1);
        if m.entries.contains_key(h) {
            match m.entries[h] {
                Val::Submap(sub) => m_get(sub, t),
                Val::List(items) => list_get(items, t),
                _ => None,
            }
        } else {
            None
        }
    }
}

/// Resolution of the remaining path `t` against a list: the first segment of
/// `t` must parse as an index in bounds; any further segments resolve inside
/// the indexed element, which must then be a map.
pub open spec fn list_get(items: Seq<Val>, t: Seq<char>) -> Option<Val>
    decreases t.len(),
    via list_get_dec
{
    let j = sep_pos(t);
    match parse_index(t.subrange(0, j)) {
        Some(ix) => {
            if !(0 <= ix < items.len()) {
                None
            } else if j == t.len() {
                Some(items[ix])
            } else {
                match items[ix] {
                    Val::Submap(sub) => m_get(sub, t.skip(j + 1)),
                    _ => None,
                }
            }
        },
        None => None,
    }
}

/// The tree after the slot that `p` resolves to is overwritten with `nv`;
/// the tree unchanged if `p` does not resolve.
pub open spec fn m_update(m: MapModel, p: Seq<char>, nv: Val) -> MapModel
    decreases p.len(),
    via m_update_dec
{
    let j = sep_pos(p);
    if j == p.len() {
        if m.entries.contains_key(p) {
            MapModel { entries: m.entries.insert(p, nv), default: m.default }
        } else {
            m
        }
    } else {
        let h = p.subrange(0, j);
        let t = p.skip(j + 1);
        if m.entries.contains_key(h) {
            match m.entries[h] {
                Val::Submap(sub) => MapModel {
                    entries: m.entries.insert(h, Val::Submap(m_update(sub, t, nv))),
                    default: m.default,
                },
                Val::List(items) => MapModel {
                    entries: m.entries.insert(h, Val::List(list_update(items, t, nv))),
                    default: m.default,
                },
                _ => m,
            }
        } else {
            m
        }
    }
}

/// The list after the slot that `t` resolves to is overwritten with `nv`.
pub open spec fn list_update(items: Seq<Val>, t: Seq<char>, nv: Val) -> Seq<Val>
    decreases t.len(),
    via list_update_dec
{
    let j = sep_pos(t);
    match parse_index(t.subrange(0, j)) {
        Some(ix) => {
            if !(0 <= ix < items.len()) {
                items
            } else if j == t.len() {
                items.update(ix, nv)
            } else {
                match items[ix] {
                    Val::Submap(sub) => items.update(ix, Val::Submap(m_update(sub, t.skip(j + 1), nv))),
                    _ => items,
                }
            }
        },
        None => items,
    }
}

#[via_fn]
proof fn m_get_dec(m: MapModel, p: Seq<char>) {
    lemma_sep_pos(p);
}

#[via_fn]
proof fn list_get_dec(items: Seq<Val>, t: Seq<char>) {
    lemma_sep_pos(t);
}

#[via_fn]
proof fn m_update_dec(m: MapModel, p: Seq<char>, nv: Val) {
    lemma_sep_pos(p);
}

#[via_fn]
proof fn list_update_dec(items: Seq<Val>, t: Seq<char>, nv: Val) {
    lemma_sep_pos(t);
}

/// What `add` does: the final segment is inserted into the map addressed by
/// the rest of the path (the whole map itself when the path has no
/// separator); the previously held value, if any, is reported. The only
/// error is a parent path that does not resolve to a nested map.
pub open spec fn m_add(m: MapModel, p: Seq<char>, v: Val) -> Result<(MapModel, Option<Val>), ()> {
    let j = last_sep_pos(p);
    if j < 0 {
        Ok(
            (
                MapModel { entries: m.entries.insert(p, v), default: m.default },
                if m.entries.contains_key(p) {
                    Some(m.entries[p])
                } else {
                    None
                },
            ),
        )
    } else {
        let parent = p.subrange(0, j);
        let fin = p.skip(j + 1);
        match m_get(m, parent) {
            Some(Val::Submap(sub)) => Ok(
                (
                    m_update(
                        m,
                        parent,
                        Val::Submap(MapModel { entries: sub.entries.insert(fin, v), default: sub.default }),
                    ),
                    if sub.entries.contains_key(fin) {
                        Some(sub.entries[fin])
                    } else {
                        None
                    },
                ),
            ),
            _ => Err(()),
        }
    }
}

/// What `remove_entry` does: the final segment is removed from the map
/// addressed by the rest of the path; nothing changes when that map does not
/// resolve or does not hold the key.
pub open spec fn m_remove(m: MapModel, p: Seq<char>) -> (MapModel, Option<Val>) {
    let j = last_sep_pos(p);
    if j < 0 {
        if m.entries.contains_key(p) {
            (MapModel { entries: m.entries.remove(p), default: m.default }, Some(m.entries[p]))
        } else {
            (m, None)
        }
    } else {
        let parent = p.subrange(0, j);
        let fin = p.skip(j + 1);
        match m_get(m, parent) {
            Some(Val::Submap(sub)) => {
                if sub.entries.contains_key(fin) {
                    (
                        m_update(
                            m,
                            parent,
                            Val::Submap(
                                MapModel { entries: sub.entries.remove(fin), default: sub.default },
                            ),
                        ),
                        Some(sub.entries[fin]),
                    )
                } else {
                    (m, None)
                }
            },
            _ => (m, None),
        }
    }
}

/// Overwriting a resolved slot with the value it already holds leaves the
/// tree unchanged.
pub proof fn lemma_m_update_same(m: MapModel, p: Seq<char>, v: Val)
    requires
        m_get(m, p) == Some(v),
    ensures
        m_update(m, p, v) == m,
    decreases p.len(),
{
    let j = sep_pos(p);
    lemma_sep_pos(p);
    if j == p.len() {
        assert(m.entries.insert(p, v) =~= m.entries);
        assert(m_update(m, p, v) =~= m);
    } else {
        let h = p.subrange(0, j);
        let t = p.skip(j + 1);
        match m.entries[h] {
            Val::Submap(sub) => {
                lemma_m_update_same(sub, t, v);
                assert(m.entries.insert(h, Val::Submap(sub)) =~= m.entries);
                assert(m_update(m, p, v) =~= m);
            },
            Val::List(items) => {
                lemma_list_update_same(items, t, v);
                assert(m.entries.insert(h, Val::List(items)) =~= m.entries);
                assert(m_update(m, p, v) =~= m);
            },
            _ => {},
        }
    }
}

pub proof fn lemma_list_update_same(items: Seq<Val>, t: Seq<char>, v: Val)
    requires
        list_get(items, t) == Some(v),
    ensures
        list_update(items, t, v) == items,
    decreases t.len(),
{
    let j = sep_pos(t);
    lemma_sep_pos(t);
    let ix = parse_index(t.subrange(0, j)).unwrap();
    if j == t.len() {
        assert(items.update(ix, v) =~= items);
    } else {
        match items[ix] {
            Val::Submap(sub) => {
                lemma_m_update_same(sub, t.skip(j + 1), v);
                assert(items.update(ix, Val::Submap(sub)) =~= items);
            },
            _ => {},
        }
    }
}

} // verus!
