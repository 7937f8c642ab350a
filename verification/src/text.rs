//! Character-level helpers on text: conversion to characters, the order in
//! which names are emitted, the last segment of a reference, and removal of a
//! fixed marker.

use vstd::prelude::*;
use vstd::std_specs::iter::IteratorSpec;
use vstd::string::*;

verus! {

/// The characters of `s`, in order.
pub fn to_chars(s: &str) -> (out: Vec<char>)
    ensures
        out@ == s@,
{
    let mut out: Vec<char> = Vec::new();
    for c in it: s.chars()
        invariant
            it.seq() == s@,
            out@ == it.seq().take(it.index()),
    {
        out.push(c);
        assert(it.seq().take(it.index() + 1) == it.seq().take(it.index()).push(c));
    }
    assert(s@.take(s@.len() as int) == s@);
    out
}

/// Whether `a` comes before `b` when both agree on their first `i`
/// characters: decided by the first position from `i` on at which they
/// differ, by code point, and by length if one is a prefix of the other.
pub open spec fn name_lt_from(a: Seq<char>, b: Seq<char>, i: int) -> bool
    decreases a.len() - i,
{
    if i >= b.len() {
        false
    } else if i >= a.len() {
        true
    } else if a[i] != b[i] {
        (a[i] as int) < (b[i] as int)
    } else {
        name_lt_from(a, b, i + 1)
    }
}

/// The lexicographic order on names, character by character. This is the
/// order in which generated operations are emitted.
pub open spec fn name_lt(a: Seq<char>, b: Seq<char>) -> bool {
    name_lt_from(a, b, 0)
}

/// No name comes before itself.
pub proof fn lemma_name_lt_irreflexive(a: Seq<char>, i: int)
    requires
        0 <= i,
    ensures
        !name_lt_from(a, a, i),
    decreases a.len() - i,
{
    if i < a.len() {
        lemma_name_lt_irreflexive(a, i + 1);
    }
}

/// The order is transitive.
pub proof fn lemma_name_lt_transitive(a: Seq<char>, b: Seq<char>, c: Seq<char>, i: int)
    requires
        0 <= i,
        name_lt_from(a, b, i),
        name_lt_from(b, c, i),
    ensures
        name_lt_from(a, c, i),
    decreases a.len() - i,
{
    if i < a.len() && a[i] == b[i] && b[i] == c[i] {
        lemma_name_lt_transitive(a, b, c, i + 1);
    }
}

/// Two names of which neither comes before the other are equal from `i` on.
pub proof fn lemma_name_lt_total(a: Seq<char>, b: Seq<char>, i: int)
    requires
        0 <= i <= a.len(),
        i <= b.len(),
        !name_lt_from(a, b, i),
        !name_lt_from(b, a, i),
    ensures
        a.skip(i) == b.skip(i),
    decreases a.len() - i,
{
    if i < b.len() {
        assert(i < a.len());
        assert(a[i] == b[i]);
        lemma_name_lt_total(a, b, i + 1);
        assert(a.skip(i) =~= seq![a[i]] + a.skip(i + 1));
        assert(b.skip(i) =~= seq![b[i]] + b.skip(i + 1));
    } else {
        assert(a.skip(i) =~= b.skip(i));
    }
}

/// Of two names exactly one holds: the first comes before the second, they
/// are equal, or the second comes before the first.
pub proof fn lemma_name_order(a: Seq<char>, b: Seq<char>)
    ensures
        name_lt(a, b) ==> a != b && !name_lt(b, a),
        !name_lt(a, b) && !name_lt(b, a) ==> a == b,
{
    lemma_name_lt_irreflexive(a, 0);
    if name_lt(a, b) && name_lt(b, a) {
        lemma_name_lt_transitive(a, b, a, 0);
    }
    if !name_lt(a, b) && !name_lt(b, a) {
        lemma_name_lt_total(a, b, 0);
        assert(a.skip(0) =~= a);
        assert(b.skip(0) =~= b);
    }
}

/// How two names stand to each other in the emission order.
#[derive(Clone, Copy, Debug, PartialEq, Eq, Structural)]
pub enum NameOrder {
    Before,
    Same,
    After,
}

/// The place of `a` relative to `b` in the emission order.
pub open spec fn name_order(a: Seq<char>, b: Seq<char>) -> NameOrder {
    if name_lt(a, b) {
        NameOrder::Before
    } else if a == b {
        NameOrder::Same
    } else {
        NameOrder::After
    }
}

/// Compares two names in the emission order.
pub fn compare_names(a: &str, b: &str) -> (r: NameOrder)
    ensures
        r == name_order(a@, b@),
        r == NameOrder::Before <==> name_lt(a@, b@),
        r == NameOrder::Same <==> a@ == b@,
        r == NameOrder::After <==> name_lt(b@, a@),
{
    let ca = to_chars(a);
    let cb = to_chars(b);
    proof {
        lemma_name_order(a@, b@);
        lemma_name_order(b@, a@);
    }
    let mut i: usize = 0;
    while i < ca.len() && i < cb.len()
        invariant
            ca@ == a@,
            cb@ == b@,
            i <= ca.len(),
            i <= cb.len(),
            forall|j: int| 0 <= j < i ==> ca@[j] == cb@[j],
            name_lt(a@, b@) == name_lt_from(a@, b@, i as int),
            name_lt(b@, a@) == name_lt_from(b@, a@, i as int),
        decreases ca.len() - i,
    {
        if ca[i] != cb[i] {
            if ca[i] < cb[i] {
                return NameOrder::Before;
            } else {
                return NameOrder::After;
            }
        }
        i = i + 1;
    }
    if i < cb.len() {
        NameOrder::Before
    } else if i < ca.len() {
        NameOrder::After
    } else {
        assert(a@ =~= b@);
        NameOrder::Same
    }
}

/// The position of the last `/` among the first `n` characters of `s`, or -1
/// if there is none.
pub open spec fn last_slash_upto(s: Seq<char>, n: int) -> int
    decreases n,
{
    if n <= 0 {
        -1
    } else if s[n - 1] == '/' {
        n - 1
    } else {
        last_slash_upto(s, n - 1)
    }
}

/// What follows the last `/` of a reference; the whole reference if it has
/// none.
pub open spec fn last_segment_of(s: Seq<char>) -> Seq<char> {
    s.skip(last_slash_upto(s, s.len() as int) + 1)
}

/// The last segment of a reference such as `#/components/parameters/id`.
pub fn last_segment<'a>(reference: &'a str) -> (r: &'a str)
    ensures
        r@ == last_segment_of(reference@),
{
    let chars = to_chars(reference);
    let n = chars.len();
    let mut i: usize = n;
    while i > 0 && chars[i - 1] != '/'
        invariant
            chars@ == reference@,
            n == chars.len(),
            i <= n,
            last_slash_upto(reference@, n as int) == last_slash_upto(reference@, i as int),
        decreases i,
    {
        i = i - 1;
    }
    assert(last_slash_upto(reference@, i as int) == i - 1);
    let r = reference.substring_char(i, n);
    assert(reference@.subrange(i as int, n as int) =~= reference@.skip(i as int));
    r
}

/// `s` with every occurrence of `marker` taken out, found from left to right
/// without overlap. An empty marker takes nothing out.
pub open spec fn without_marker(s: Seq<char>, marker: Seq<char>) -> Seq<char>
    decreases s.len(),
{
    if marker.len() == 0 || s.len() < marker.len() {
        s
    } else if s.take(marker.len() as int) == marker {
        without_marker(s.skip(marker.len() as int), marker)
    } else {
        seq![s[0]] + without_marker(s.skip(1), marker)
    }
}

/// Whether `marker` stands in `s` at position `at`.
fn occurs_at(s: &Vec<char>, marker: &Vec<char>, at: usize) -> (r: bool)
    requires
        at + marker.len() <= s.len(),
    ensures
        r == (s@.subrange(at as int, at + marker.len()) == marker@),
{
    let mut k: usize = 0;
    while k < marker.len()
        invariant
            at + marker.len() <= s.len(),
            k <= marker.len(),
            forall|j: int| 0 <= j < k ==> s@[at + j] == marker@[j],
        decreases marker.len() - k,
    {
        if s[at + k] != marker[k] {
            assert(s@.subrange(at as int, at + marker.len())[k as int] != marker@[k as int]);
            return false;
        }
        k = k + 1;
    }
    assert(s@.subrange(at as int, at + marker.len()) =~= marker@);
    true
}

/// Removes every occurrence of `marker` from `text`.
pub fn strip_marker(text: &str, marker: &str) -> (out: String)
    ensures
        out@ == without_marker(text@, marker@),
{
    let s = to_chars(text);
    let m = to_chars(marker);
    let n = s.len();
    let mut out = String::new();
    if m.len() == 0 {
        out.append(text);
        return out;
    }
    let mut start: usize = 0;
    let mut i: usize = 0;
    assert(text@.subrange(0, 0) =~= Seq::<char>::empty());
    assert(text@.skip(0) =~= text@);
    assert(out@ + text@.subrange(0, 0) + without_marker(text@, marker@) =~= without_marker(
        text@,
        marker@,
    ));
    while m.len() <= n - i
        invariant
            s@ == text@,
            m@ == marker@,
            n == s.len(),
            m.len() > 0,
            start <= i <= n,
            without_marker(text@, marker@) == out@ + text@.subrange(start as int, i as int)
                + without_marker(text@.skip(i as int), marker@),
        decreases n - i,
    {
        let ghost rest = text@.skip(i as int);
        if occurs_at(&s, &m, i) {
            assert(rest.take(m.len() as int) =~= s@.subrange(i as int, i + m.len()));
            assert(rest.skip(m.len() as int) =~= text@.skip(i + m.len()));
            let piece = text.substring_char(start, i);
            out.append(piece);
            i = i + m.len();
            start = i;
            assert(text@.subrange(start as int, i as int) =~= Seq::<char>::empty());
            assert(out@ + text@.subrange(start as int, i as int) =~= out@);
        } else {
            assert(rest.take(m.len() as int) =~= s@.subrange(i as int, i + m.len()));
            assert(rest.skip(1) =~= text@.skip(i + 1));
            assert(text@.subrange(start as int, i as int) + seq![rest[0]] =~= text@.subrange(
                start as int,
                i + 1,
            ));
            assert(out@ + text@.subrange(start as int, i as int) + (seq![rest[0]]
                + without_marker(rest.skip(1), marker@)) =~= out@ + (text@.subrange(
                start as int,
                i as int,
            ) + seq![rest[0]]) + without_marker(rest.skip(1), marker@));
            i = i + 1;
        }
    }
    assert(text@.subrange(start as int, i as int) + text@.skip(i as int) =~= text@.subrange(
        start as int,
        n as int,
    ));
    assert(out@ + text@.subrange(start as int, i as int) + text@.skip(i as int) =~= out@ + (
    text@.subrange(start as int, i as int) + text@.skip(i as int)));
    let tail = text.substring_char(start, n);
    out.append(tail);
    out
}

} // verus!
