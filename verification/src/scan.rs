//! The character scanner: find a delimiter in a region of the input, and
//! copy a region out as an owned string.

use vstd::prelude::*;
use vstd::string::StrSliceExecFns;
use vstd::string::StringExecFns;

use crate::model::first_index;
use crate::model::lemma_first_index_determined;

verus! {

/// Index of the first occurrence of `c` in `s` within `[from, to)`.
pub(crate) fn find_char_in(s: &str, from: usize, to: usize, c: char) -> (r: Option<usize>)
    requires
        from <= to <= s@.len(),
    ensures
        match r {
            Some(i) => from <= i < to && s@[i as int] == c && (forall|j: int|
                from <= j < i ==> s@[j] != c),
            None => forall|j: int| from <= j < to ==> s@[j] != c,
        },
{
    let mut i: usize = from;
    while i < to
        invariant
            from <= i <= to <= s@.len(),
            forall|j: int| from <= j < i ==> s@[j] != c,
        decreases to - i,
    {
        if s.get_char(i) == c {
            return Some(i);
        }
        i = i + 1;
    }
    None
}

/// What a scan over `[from, to)` says about the subrange: its result, shifted,
/// is the first occurrence within `s.subrange(from, to)`.
pub proof fn lemma_find_in_subrange(s: Seq<char>, from: int, to: int, c: char, r: Option<int>)
    requires
        0 <= from <= to <= s.len(),
        match r {
            Some(i) => from <= i < to && s[i] == c && (forall|j: int| from <= j < i ==> s[j] != c),
            None => forall|j: int| from <= j < to ==> s[j] != c,
        },
    ensures
        first_index(s.subrange(from, to), c) == match r {
            Some(i) => Some(i - from),
            None => None::<int>,
        },
{
    let sub = s.subrange(from, to);
    let shifted = match r {
        Some(i) => Some(i - from),
        None => None::<int>,
    };
    match r {
        Some(i) => {
            assert forall|j: int| 0 <= j < i - from implies sub[j] != c by {
                assert(sub[j] == s[from + j]);
            }
        },
        None => {
            assert forall|j: int| 0 <= j < sub.len() implies sub[j] != c by {
                assert(sub[j] == s[from + j]);
            }
        },
    }
    lemma_first_index_determined(sub, c, shifted);
}

/// Copy of `s[from..to]` as an owned string.
pub(crate) fn string_of(s: &str, from: usize, to: usize) -> (r: String)
    requires
        from <= to <= s@.len(),
    ensures
        r@ == s@.subrange(from as int, to as int),
{
    String::from_str(s.substring_char(from, to))
}

} // verus!
