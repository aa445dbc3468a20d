//! Character-level helpers shared by the range parser and the reconciler.

use vstd::prelude::*;

verus! {

/// The index of the first occurrence of `c` in `s`, or `s.len()` when `c`
/// does not occur.
pub open spec fn position(s: Seq<char>, c: char) -> int
    decreases s.len(),
{
    if s.len() == 0 || s[0] == c {
        0
    } else {
        1 + position(s.drop_first(), c)
    }
}

/// `c` occurs nowhere in `s`.
pub open spec fn free_of(s: Seq<char>, c: char) -> bool {
    forall|i: int| 0 <= i < s.len() ==> s[i] != c
}

/// The pieces of `s` between the occurrences of `sep`. There is always at
/// least one piece; an empty sequence has the single empty piece.
pub open spec fn split(s: Seq<char>, sep: char) -> Seq<Seq<char>>
    decreases s.len(),
{
    let i = position(s, sep);
    if 0 <= i < s.len() {
        seq![s.take(i)] + split(s.skip(i + 1), sep)
    } else {
        seq![s]
    }
}

/// `p` is a prefix of `s`.
pub open spec fn has_prefix(s: Seq<char>, p: Seq<char>) -> bool {
    p.len() <= s.len() && s.take(p.len() as int) == p
}

/// `position` lies within the sequence, nothing before it equals `c`, and
/// it points at `c` unless it is the length.
pub proof fn lemma_position_bounds(s: Seq<char>, c: char)
    ensures
        0 <= position(s, c) <= s.len(),
        free_of(s.take(position(s, c)), c),
        position(s, c) < s.len() ==> s[position(s, c)] == c,
    decreases s.len(),
{
    if s.len() == 0 || s[0] == c {
    } else {
        let t = s.drop_first();
        lemma_position_bounds(t, c);
        let p = position(t, c);
        let head = s.take(p + 1);
        assert forall|i: int| 0 <= i < head.len() implies #[trigger] head[i] != c by {
            if i > 0 {
                assert(t.take(p)[i - 1] == s[i]);
            }
        }
    }
}

/// An index is the `position` of `c` as soon as nothing before it equals
/// `c` and it is either the length or points at `c`.
pub proof fn lemma_position_is(s: Seq<char>, c: char, i: int)
    requires
        0 <= i <= s.len(),
        forall|j: int| 0 <= j < i ==> s[j] != c,
        i < s.len() ==> s[i] == c,
    ensures
        position(s, c) == i,
    decreases s.len(),
{
    if s.len() == 0 || s[0] == c {
    } else {
        let t = s.drop_first();
        assert forall|j: int| 0 <= j < i - 1 implies t[j] != c by {
            assert(t[j] == s[j + 1]);
        }
        lemma_position_is(t, c, i - 1);
    }
}

/// In a concatenation whose first part is free of `c`, the first `c` is
/// the first `c` of the second part.
pub proof fn lemma_position_concat(a: Seq<char>, b: Seq<char>, c: char)
    requires
        free_of(a, c),
    ensures
        position(a + b, c) == a.len() + position(b, c),
{
    lemma_position_bounds(b, c);
    let p = position(b, c);
    let s = a + b;
    assert forall|j: int| 0 <= j < a.len() + p implies s[j] != c by {
        if j >= a.len() {
            assert(b.take(p)[j - a.len()] == s[j]);
        }
    }
    lemma_position_is(s, c, a.len() + p);
}

/// A sequence free of the separator is its own single piece.
pub proof fn lemma_split_single(s: Seq<char>, sep: char)
    requires
        free_of(s, sep),
    ensures
        split(s, sep) == seq![s],
{
    lemma_position_is(s, sep, s.len() as int);
}

/// Splitting `a + [sep] + b`, with `a` free of the separator, gives `a`
/// followed by the pieces of `b`.
pub proof fn lemma_split_concat(a: Seq<char>, b: Seq<char>, sep: char)
    requires
        free_of(a, sep),
    ensures
        split(a + seq![sep] + b, sep) == seq![a] + split(b, sep),
{
    let s = a + seq![sep] + b;
    lemma_position_is(s, sep, a.len() as int);
    assert(s.take(a.len() as int) == a);
    assert(s.skip(a.len() as int + 1) == b);
}

/// The characters of `s`, in order.
pub fn chars_of(s: &str) -> (v: Vec<char>)
    ensures
        v@ == s@,
{
    let mut v: Vec<char> = Vec::new();
    for c in it: s.chars()
        invariant
            v@ == it.seq().take(it.index() as int),
            it.seq() == s@,
    {
        v.push(c);
    }
    v
}

/// The first index in `start..end` at which `chars` holds `c`, or `end`.
pub(crate) fn find_char(chars: &Vec<char>, start: usize, end: usize, c: char) -> (at: usize)
    requires
        start <= end <= chars.len(),
    ensures
        start <= at <= end,
        at - start == position(chars@.subrange(start as int, end as int), c),
{
    let mut at: usize = start;
    while at < end && chars[at] != c
        invariant
            start <= at <= end <= chars.len(),
            forall|j: int| start <= j < at ==> chars@[j] != c,
        decreases end - at,
    {
        at += 1;
    }
    proof {
        lemma_position_is(chars@.subrange(start as int, end as int), c, at - start);
    }
    at
}

/// Whether `s` begins with `prefix`.
pub fn starts_with(s: &Vec<char>, prefix: &Vec<char>) -> (b: bool)
    ensures
        b == has_prefix(s@, prefix@),
{
    if prefix.len() > s.len() {
        return false;
    }
    let mut i: usize = 0;
    while i < prefix.len()
        invariant
            i <= prefix.len() <= s.len(),
            forall|j: int| 0 <= j < i ==> s@[j] == prefix@[j],
        decreases prefix.len() - i,
    {
        if s[i] != prefix[i] {
            proof {
                assert(s@.take(prefix.len() as int)[i as int] != prefix@[i as int]);
            }
            return false;
        }
        i += 1;
    }
    proof {
        assert(s@.take(prefix.len() as int) =~= prefix@);
    }
    true
}

} // verus!
