//! Character-level text handling for the codec: conversion between strings
//! and character vectors, and splitting on a delimiter.

use vstd::prelude::*;
use vstd::std_specs::iter::IteratorSpec;

verus! {

broadcast use vstd::string::group_string_axioms;

/// Relies on `String::push`: appends one character at the end.
#[verifier::external_body]
fn push_char(s: &mut String, c: char)
    ensures
        final(s)@ == old(s)@.push(c),
{
    s.push(c)
}

/// The characters of `s`, in order.
pub fn chars_of(s: &str) -> (r: Vec<char>)
    ensures
        r@ == s@,
{
    let mut out: Vec<char> = Vec::new();
    for c in it: s.chars()
        invariant
            out@ == it.history(),
    {
        out.push(c);
    }
    out
}

/// The string made of the characters of `v`, in order.
pub fn string_of(v: &Vec<char>) -> (r: String)
    ensures
        r@ == v@,
{
    let mut out = String::new();
    let n = v.len();
    let mut i: usize = 0;
    while i < n
        invariant
            n == v.len(),
            i <= n,
            out@ == v@.subrange(0, i as int),
        decreases n - i,
    {
        push_char(&mut out, v[i]);
        assert(v@.subrange(0, i + 1) =~= v@.subrange(0, i as int).push(v@[i as int]));
        i = i + 1;
    }
    assert(v@.subrange(0, n as int) =~= v@);
    out
}


/// Splits `s` at every occurrence of `d`, scanning left to right, with `cur`
/// holding the characters of the field under construction.
#[verifier::opaque]
pub open spec fn split_acc(s: Seq<char>, d: Seq<char>, cur: Seq<char>) -> Seq<Seq<char>>
    decreases s.len(),
{
    if s.len() == 0 {
        seq![cur]
    } else if 0 < d.len() <= s.len() && s.subrange(0, d.len() as int) == d {
        seq![cur] + split_acc(s.subrange(d.len() as int, s.len() as int), d, Seq::empty())
    } else {
        split_acc(s.subrange(1, s.len() as int), d, cur.push(s[0]))
    }
}

/// The fields of `s` separated by the delimiter `d`: every occurrence of `d`,
/// found left to right without overlap, ends one field. There is always at
/// least one field, and the empty string has one empty field.
pub open spec fn split(s: Seq<char>, d: Seq<char>) -> Seq<Seq<char>> {
    split_acc(s, d, Seq::empty())
}

/// The views of a vector of character vectors.
pub open spec fn views(v: Seq<Vec<char>>) -> Seq<Seq<char>> {
    v.map_values(|f: Vec<char>| f@)
}

/// Whether `d` occurs in `s` at position `i`.
pub open spec fn occurs_at(s: Seq<char>, d: Seq<char>, i: int) -> bool {
    0 <= i && i + d.len() <= s.len() && s.subrange(i, i + d.len()) == d
}

/// Whether `d` occurs anywhere in `s`.
pub open spec fn contains(s: Seq<char>, d: Seq<char>) -> bool {
    exists|i: int| occurs_at(s, d, i)
}

fn occurs_at_exec(s: &Vec<char>, d: &Vec<char>, i: usize) -> (r: bool)
    requires
        i <= s.len(),
    ensures
        r == occurs_at(s@, d@, i as int),
{
    if d.len() > s.len() - i {
        return false;
    }
    let mut k: usize = 0;
    while k < d.len()
        invariant
            i + d.len() <= s.len(),
            k <= d.len(),
            forall|j: int| 0 <= j < k ==> s@[i + j] == d@[j],
        decreases d.len() - k,
    {
        if s[i + k] != d[k] {
            assert(s@.subrange(i as int, i + d.len())[k as int] != d@[k as int]);
            return false;
        }
        k = k + 1;
    }
    assert(s@.subrange(i as int, i + d.len()) =~= d@);
    true
}

/// Splits `s` at every occurrence of the non-empty delimiter `d`.
pub fn split_on(s: &Vec<char>, d: &Vec<char>) -> (r: Vec<Vec<char>>)
    requires
        d@.len() > 0,
    ensures
        views(r@) == split(s@, d@),
{
    reveal(split_acc);
    let n = s.len();
    let mut parts: Vec<Vec<char>> = Vec::new();
    let mut cur: Vec<char> = Vec::new();
    let mut i: usize = 0;
    assert(s@.subrange(0, n as int) =~= s@);
    assert(views(parts@) =~= Seq::<Seq<char>>::empty());
    while i < n
        invariant
            n == s.len(),
            i <= n,
            d@.len() > 0,
            views(parts@) + split_acc(s@.subrange(i as int, n as int), d@, cur@) == split(s@, d@),
        decreases n - i,
    {
        reveal(split_acc);
        let ghost t = s@.subrange(i as int, n as int);
        let hit = occurs_at_exec(s, d, i);
        if hit {
            assert(t.subrange(0, d@.len() as int) =~= s@.subrange(i as int, i + d@.len()));
            assert(t.subrange(d@.len() as int, t.len() as int) =~= s@.subrange(i + d@.len(), n as int));
            let done = cur;
            cur = Vec::new();
            proof {
                assert(views(parts@.push(done)) =~= views(parts@).push(done@));
            }
            parts.push(done);
            i = i + d.len();
        } else {
            assert(d@.len() <= t.len() ==> t.subrange(0, d@.len() as int) =~= s@.subrange(i as int, i + d@.len()));
            assert(t.subrange(1, t.len() as int) =~= s@.subrange(i + 1, n as int));
            cur.push(s[i]);
            i = i + 1;
        }
    }
    assert(views(parts@.push(cur)) =~= views(parts@).push(cur@));
    parts.push(cur);
    parts
}

/// Scanning past a stretch in which the delimiter does not start moves that
/// stretch into the current field.
pub proof fn lemma_split_skip(s: Seq<char>, d: Seq<char>, cur: Seq<char>, k: int)
    requires
        d.len() > 0,
        0 <= k <= s.len(),
        forall|j: int| 0 <= j < k ==> !occurs_at(s, d, j),
    ensures
        split_acc(s, d, cur) == split_acc(s.subrange(k, s.len() as int), d, cur + s.subrange(0, k)),
    decreases k,
{
    reveal(split_acc);
    if k == 0 {
        assert(s.subrange(0, s.len() as int) =~= s);
        assert(cur + s.subrange(0, 0) =~= cur);
    } else {
        let s1 = s.subrange(1, s.len() as int);
        assert(!occurs_at(s, d, 0));
        assert forall|j: int| 0 <= j < k - 1 implies !occurs_at(s1, d, j) by {
            assert(!occurs_at(s, d, j + 1));
            if occurs_at(s1, d, j) {
                assert(s1.subrange(j, j + d.len()) =~= s.subrange(j + 1, j + 1 + d.len()));
            }
        }
        lemma_split_skip(s1, d, cur.push(s[0]), k - 1);
        assert(s1.subrange(k - 1, s1.len() as int) =~= s.subrange(k, s.len() as int));
        assert(cur.push(s[0]) + s1.subrange(0, k - 1) =~= cur + s.subrange(0, k));
    }
}

/// A first field in which the delimiter does not start splits off whole.
pub proof fn lemma_split_first(f: Seq<char>, d: Seq<char>, rest: Seq<char>)
    requires
        d.len() > 0,
        forall|j: int| 0 <= j < f.len() ==> !occurs_at(f + d + rest, d, j),
    ensures
        split(f + d + rest, d) == seq![f] + split(rest, d),
{
    reveal(split_acc);
    let s = f + d + rest;
    lemma_split_skip(s, d, Seq::empty(), f.len() as int);
    let t = s.subrange(f.len() as int, s.len() as int);
    assert(t.subrange(0, d.len() as int) =~= d);
    assert(t.subrange(d.len() as int, t.len() as int) =~= rest);
    assert(Seq::<char>::empty() + s.subrange(0, f.len() as int) =~= f);
}

/// A string without the delimiter is a single field.
pub proof fn lemma_split_single(f: Seq<char>, d: Seq<char>)
    requires
        d.len() > 0,
        !contains(f, d),
    ensures
        split(f, d) == seq![f],
{
    reveal(split_acc);
    lemma_split_skip(f, d, Seq::empty(), f.len() as int);
    assert(f.subrange(f.len() as int, f.len() as int) =~= Seq::<char>::empty());
    assert(Seq::<char>::empty() + f.subrange(0, f.len() as int) =~= f);
}

/// Whether `a` and `b` hold the same characters.
pub fn same_chars(a: &Vec<char>, b: &Vec<char>) -> (r: bool)
    ensures
        r == (a@ == b@),
{
    if a.len() != b.len() {
        return false;
    }
    let mut i: usize = 0;
    while i < a.len()
        invariant
            a.len() == b.len(),
            i <= a.len(),
            forall|j: int| 0 <= j < i ==> a@[j] == b@[j],
        decreases a.len() - i,
    {
        if a[i] != b[i] {
            return false;
        }
        i = i + 1;
    }
    assert(a@ =~= b@);
    true
}

/// Appends the characters of `s` to `out`.
pub fn push_str_chars(out: &mut Vec<char>, s: &str)
    ensures
        final(out)@ == old(out)@ + s@,
{
    let mut cs = chars_of(s);
    out.append(&mut cs);
}

} // verus!
