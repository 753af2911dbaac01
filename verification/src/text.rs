//! Title text handling: conversion between strings and character vectors,
//! and the normalization applied to every title before comparison — removal
//! of trailing whitespace, then Unicode lowercasing.

use vstd::prelude::*;

verus! {

/// The lowercase form of a character sequence, as `str::to_lowercase`
/// computes it: a function of the characters alone, named here and never
/// restated.
pub uninterp spec fn lower_of(s: Seq<char>) -> Seq<char>;

/// The whitespace characters removed from the end of a title.
pub open spec fn is_wsp(c: char) -> bool {
    c == ' ' || c == '\t' || c == '\n' || c == '\r'
}

/// The sequence without its trailing whitespace.
pub open spec fn trim_wsp(s: Seq<char>) -> Seq<char>
    decreases s.len(),
{
    if s.len() > 0 && is_wsp(s.last()) {
        trim_wsp(s.drop_last())
    } else {
        s
    }
}

/// Title normalization: drop trailing whitespace, then lowercase.
pub open spec fn norm_spec(s: Seq<char>) -> Seq<char> {
    lower_of(trim_wsp(s))
}

/// A sequence of whitespace only.
pub open spec fn all_wsp(s: Seq<char>) -> bool {
    forall|i: int| 0 <= i < s.len() ==> is_wsp(#[trigger] s[i])
}

/// Two sequences that differ only in letter case: the lowercase mapping
/// sends them to the same sequence.
pub open spec fn case_eq(a: Seq<char>, b: Seq<char>) -> bool {
    lower_of(a) == lower_of(b)
}

/// Exec counterpart of `is_wsp`.
pub fn is_wsp_exec(c: char) -> (r: bool)
    ensures
        r == is_wsp(c),
{
    c == ' ' || c == '\t' || c == '\n' || c == '\r'
}

/// The characters of a string, in order.
pub fn chars_of(s: &str) -> (r: Vec<char>)
    ensures
        r@ == s@,
{
    let n = s.unicode_len();
    let mut r: Vec<char> = Vec::new();
    let mut i: usize = 0;
    while i < n
        invariant
            i <= n,
            n == s@.len(),
            r@ == s@.take(i as int),
        decreases n - i,
    {
        let c = s.get_char(i);
        r.push(c);
        i = i + 1;
        assert(r@ =~= s@.take(i as int));
    }
    assert(r@ =~= s@);
    r
}

/// Relies on `str::to_lowercase`: the lowercase form depends on the
/// characters alone, and an empty sequence stays empty.
#[verifier::external_body]
fn lowercase_chars(v: &Vec<char>) -> (r: Vec<char>)
    ensures
        r@ == lower_of(v@),
        v@.len() == 0 ==> r@.len() == 0,
{
    let s: String = v.iter().collect();
    s.to_lowercase().chars().collect()
}

/// Normalizes a title: removes trailing whitespace, then lowercases.
pub fn normalize(s: &str) -> (r: Vec<char>)
    ensures
        r@ == norm_spec(s@),
{
    let mut v = chars_of(s);
    while v.len() > 0 && is_wsp_exec(v[v.len() - 1])
        invariant
            trim_wsp(v@) == trim_wsp(s@),
        decreases v@.len(),
    {
        assert(v@.drop_last() =~= v@.take(v@.len() - 1));
        v.pop();
    }
    lowercase_chars(&v)
}

/// Character-wise equality of two vectors.
pub fn chars_eq(a: &Vec<char>, b: &Vec<char>) -> (r: bool)
    ensures
        r == (a@ == b@),
{
    if a.len() != b.len() {
        assert(a@ != b@);
        return false;
    }
    let mut i: usize = 0;
    while i < a.len()
        invariant
            i <= a@.len(),
            a@.len() == b@.len(),
            forall|k: int| 0 <= k < i ==> a@[k] == b@[k],
        decreases a@.len() - i,
    {
        if a[i] != b[i] {
            return false;
        }
        i = i + 1;
    }
    assert(a@ =~= b@);
    true
}

/// Relies on `core::iter::Iterator::collect` for `String`: collecting
/// characters yields the string of exactly those characters, in order.
#[verifier::external_body]
pub(crate) fn string_of_chars(v: &Vec<char>) -> (r: String)
    ensures
        r@ == v@,
{
    v.iter().collect()
}

/// Appending whitespace does not change the trimmed sequence.
pub proof fn lemma_trim_wsp_trailing(s: Seq<char>, w: Seq<char>)
    requires
        all_wsp(w),
    ensures
        trim_wsp(s + w) == trim_wsp(s),
    decreases w.len(),
{
    if w.len() == 0 {
        assert(s + w =~= s);
    } else {
        assert((s + w).last() == w.last());
        assert(is_wsp(w.last()));
        assert((s + w).drop_last() =~= s + w.drop_last());
        lemma_trim_wsp_trailing(s, w.drop_last());
    }
}

/// Normalization is insensitive to trailing whitespace: appending whitespace
/// to a title leaves its normalized form unchanged.
pub proof fn lemma_norm_trailing_wsp(s: Seq<char>, w: Seq<char>)
    requires
        all_wsp(w),
    ensures
        norm_spec(s + w) == norm_spec(s),
{
    lemma_trim_wsp_trailing(s, w);
}

/// Titles whose trimmed forms the lowercase mapping identifies normalize
/// alike.
pub proof fn lemma_norm_case(s: Seq<char>, t: Seq<char>)
    requires
        case_eq(trim_wsp(s), trim_wsp(t)),
    ensures
        norm_spec(s) == norm_spec(t),
{
}

} // verus!
