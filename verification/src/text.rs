//! Prefix, suffix and equality tests on names.

use vstd::prelude::*;

verus! {

/// The text is the one character `c`.
pub open spec fn is_letter(text: Seq<char>, c: char) -> bool {
    text.len() == 1 && text[0] == c
}

/// Whether `part` stands in `whole` from the place `at` on.
pub fn matches_at(whole: &str, at: usize, part: &str) -> (r: bool)
    ensures
        r == (at + part@.len() <= whole@.len() && whole@.subrange(
            at as int,
            at + part@.len(),
        ) == part@),
{
    let n = whole.unicode_len();
    let p = part.unicode_len();
    if at > n || p > n - at {
        return false;
    }
    let mut i: usize = 0;
    while i < p
        invariant
            i <= p,
            p == part@.len(),
            n == whole@.len(),
            at + p <= n,
            forall|k: int| 0 <= k < i ==> whole@[at + k] == part@[k],
        decreases p - i,
    {
        if whole.get_char(at + i) != part.get_char(i) {
            assert(whole@.subrange(at as int, at + p)[i as int] != part@[i as int]);
            return false;
        }
        i += 1;
    }
    assert(whole@.subrange(at as int, at + p) =~= part@);
    true
}

/// Whether the characters of `prefix` open `name`.
pub fn starts_with(name: &str, prefix: &str) -> (r: bool)
    ensures
        r == prefix@.is_prefix_of(name@),
{
    matches_at(name, 0, prefix)
}

/// Whether the characters of `suffix` close `name`.
pub fn ends_with(name: &str, suffix: &str) -> (r: bool)
    ensures
        r == suffix@.is_suffix_of(name@),
{
    let n = name.unicode_len();
    let s = suffix.unicode_len();
    if s > n {
        return false;
    }
    matches_at(name, n - s, suffix)
}

/// Whether both texts hold the same characters.
pub fn same_text(a: &str, b: &str) -> (r: bool)
    ensures
        r == (a@ == b@),
{
    let left = a.to_owned();
    let right = b.to_owned();
    left == right
}

} // verus!
