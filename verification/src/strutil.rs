//! Verified string helpers: path splitting around the separator, character
//! comparison, and decimal index parsing.

use vstd::prelude::*;

verus! {

use crate::is_sep;
use crate::model::{
    sep_pos, last_sep_pos, parse_index, all_digits, digits_val, is_digit, lemma_sep_pos,
    lemma_sep_pos_is, lemma_last_sep_pos_is, lemma_digits_val_prefix, lemma_digits_val_nonneg,
};
use vstd::string::StrSliceExecFns;
use vstd::string::StringExecFns;

/// Two string slices hold the same characters.
pub fn str_eq(a: &str, b: &str) -> (r: bool)
    ensures
        r == (a@ == b@),
{
    let n = a.unicode_len();
    if n != b.unicode_len() {
        return false;
    }
    let mut i: usize = 0;
    while i < n
        invariant
            n == a@.len(),
            n == b@.len(),
            0 <= i <= n,
            forall|j: int| 0 <= j < i ==> a@[j] == b@[j],
        decreases n - i,
    {
        if a.get_char(i) != b.get_char(i) {
            return false;
        }
        i += 1;
    }
    proof {
        assert(a@ =~= b@);
    }
    true
}

/// Splits at the first separator: the head segment, and the rest of the
/// path if a separator was found.
pub fn split_once(s: &str) -> (r: (String, Option<String>))
    ensures
        ({
            let j = sep_pos(s@);
            if j == s@.len() {
                r.0@ == s@ && r.1 is None
            } else {
                r.0@ == s@.subrange(0, j) && r.1 is Some && r.1.unwrap()@ == s@.skip(j + 1)
            }
        }),
{
    let n = s.unicode_len();
    let mut i: usize = 0;
    while i < n
        invariant
            n == s@.len(),
            0 <= i <= n,
            forall|j: int| 0 <= j < i ==> !is_sep(s@[j]),
        decreases n - i,
    {
        if s.get_char(i) == '/' {
            proof {
                lemma_sep_pos_is(s@, i as int);
            }
            let head = s.substring_char(0, i).to_owned();
            let tail = s.substring_char(i + 1, n).to_owned();
            return (head, Some(tail));
        }
        i += 1;
    }
    proof {
        lemma_sep_pos_is(s@, n as int);
    }
    (s.to_owned(), None)
}

/// Splits at the last separator: the leading path if a separator was found,
/// and the final segment.
pub fn rsplit_once(s: &str) -> (r: (Option<String>, String))
    ensures
        ({
            let j = last_sep_pos(s@);
            if j < 0 {
                r.0 is None && r.1@ == s@
            } else {
                r.0 is Some && r.0.unwrap()@ == s@.subrange(0, j) && r.1@ == s@.skip(j + 1)
            }
        }),
{
    let n = s.unicode_len();
    let mut i: usize = n;
    while i > 0
        invariant
            n == s@.len(),
            0 <= i <= n,
            forall|j: int| i <= j < n ==> !is_sep(s@[j]),
        decreases i,
    {
        i -= 1;
        if s.get_char(i) == '/' {
            proof {
                lemma_last_sep_pos_is(s@, i as int);
            }
            let head = s.substring_char(0, i).to_owned();
            let tail = s.substring_char(i + 1, n).to_owned();
            return (Some(head), tail);
        }
    }
    proof {
        lemma_last_sep_pos_is(s@, -1);
    }
    (None, s.to_owned())
}

/// Parses a path segment as a non-negative list index: an optional leading
/// '+', then decimal digits, rejecting overflow, as `parse_index` defines.
pub fn parse_usize(s: &str) -> (r: Option<usize>)
    ensures
        r == match parse_index(s@) {
            Some(v) => Some(v as usize),
            None => None::<usize>,
        },
{
    let n = s.unicode_len();
    if n == 0 {
        return None;
    }
    let start: usize = if s.get_char(0) == '+' {
        1
    } else {
        0
    };
    let ghost d = if s@[0] == '+' {
        s@.skip(1)
    } else {
        s@
    };
    proof {
        assert(d =~= s@.skip(start as int));
    }
    if start >= n {
        return None;
    }
    let mut acc: u128 = 0;
    let mut i: usize = start;
    while i < n
        invariant
            n == s@.len(),
            start <= i <= n,
            start < n,
            start == (if s@[0] == '+' { 1int } else { 0int }),
            d == s@.skip(start as int),
            d.len() == n - start,
            all_digits(d.take(i - start)),
            acc == digits_val(d.take(i - start)),
            acc <= usize::MAX,
        decreases n - i,
    {
        let c = s.get_char(i);
        let cu = c as u32;
        if cu < 48 || cu > 57 {
            proof {
                assert(d == (if s@.len() > 0 && s@[0] == '+' { s@.skip(1) } else { s@ }));
                assert(0 <= i - start < d.len());
                assert(d[i - start] == s@[i as int]);
                assert(!is_digit(d[i - start]));
                assert(!all_digits(d));
            }
            return None;
        }
        let dv: u128 = (cu - 48) as u128;
        proof {
            assert(is_digit(s@[i as int]));
            assert(d.take(i - start + 1).drop_last() =~= d.take(i - start));
            assert(d.take(i - start + 1).last() == s@[i as int]);
            assert(dv == s@[i as int] as int - '0' as int);
        }
        acc = acc * 10 + dv;
        i += 1;
        if acc > (usize::MAX as u128) {
            proof {
                assert(d == (if s@.len() > 0 && s@[0] == '+' { s@.skip(1) } else { s@ }));
                assert(digits_val(d.take(i - start)) == acc);
                if all_digits(d) {
                    lemma_digits_val_prefix(d, i - start);
                    assert(d.take(d.len() as int) =~= d);
                    assert(digits_val(d) > usize::MAX);
                }
            }
            return None;
        }
    }
    proof {
        assert(d == (if s@.len() > 0 && s@[0] == '+' { s@.skip(1) } else { s@ }));
        assert(d.take(d.len() as int) =~= d);
        lemma_digits_val_nonneg(d);
    }
    Some(acc as usize)
}

} // verus!
