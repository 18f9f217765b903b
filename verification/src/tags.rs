//! Tag parsing.
//!
//! A tag is a string of the form `"key=value"`. It is split at the first
//! `=`; a tag with no `=` yields the pair `("", "")`, passing the
//! malformed input through rather than rejecting it.

use vstd::prelude::*;
use vstd::string::StrSliceExecFns;

verus! {

/// Whether the character sequence holds at least one `=`.
pub open spec fn contains_eq(s: Seq<char>) -> bool {
    exists|i: int| 0 <= i < s.len() && s[i] == '='
}

/// The index of the first `=` in the sequence (meaningful only when
/// `contains_eq(s)` holds).
pub open spec fn first_eq(s: Seq<char>) -> int {
    choose|i: int|
        0 <= i < s.len() && s[i] == '=' && (forall|j: int| 0 <= j < i ==> s[j] != '=')
}

/// The key part of a tag: what stands before the first `=`, or the empty
/// sequence when the tag has none.
pub open spec fn spec_tag_key(s: Seq<char>) -> Seq<char> {
    if contains_eq(s) {
        s.subrange(0, first_eq(s))
    } else {
        Seq::<char>::empty()
    }
}

/// The value part of a tag: what stands after the first `=`, or the empty
/// sequence when the tag has none.
pub open spec fn spec_tag_value(s: Seq<char>) -> Seq<char> {
    if contains_eq(s) {
        s.subrange(first_eq(s) + 1, s.len() as int)
    } else {
        Seq::<char>::empty()
    }
}

/// A position that holds `=` with no `=` before it is exactly the first
/// `=` of the sequence.
pub proof fn lemma_first_eq_at(s: Seq<char>, i: int)
    requires
        0 <= i < s.len(),
        s[i] == '=',
        forall|j: int| 0 <= j < i ==> s[j] != '=',
    ensures
        contains_eq(s),
        first_eq(s) == i,
{
    assert(contains_eq(s));
    let f = first_eq(s);
    assert(0 <= f < s.len() && s[f] == '=' && (forall|j: int| 0 <= j < f ==> s[j] != '='));
    if f < i {
        assert(s[f] != '=');
    }
    if i < f {
        assert(s[i] != '=');
    }
}

/// Splits a tag at its first `=` into `(key, value)`; a tag with no `=`
/// yields `("", "")`.
pub fn parse_tag(tag: &str) -> (r: (String, String))
    ensures
        r.0@ == spec_tag_key(tag@),
        r.1@ == spec_tag_value(tag@),
{
    let n: usize = tag.unicode_len();
    let mut i: usize = 0;
    while i < n
        invariant
            n == tag@.len(),
            i <= n,
            forall|j: int| 0 <= j < i ==> tag@[j] != '=',
        decreases n - i,
    {
        if tag.get_char(i) == '=' {
            proof {
                lemma_first_eq_at(tag@, i as int);
            }
            let key = tag.substring_char(0, i).to_owned();
            let value = tag.substring_char(i + 1, n).to_owned();
            return (key, value);
        }
        i = i + 1;
    }
    assert(!contains_eq(tag@));
    (String::new(), String::new())
}

} // verus!
