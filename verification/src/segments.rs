//! Searching a text for a word, cutting it at a separator, and joining
//! the pieces again.

use vstd::prelude::*;
use vstd::string::{StrSliceExecFns, StringExecFns};
use crate::text::chars_of;

verus! {

/// `word` stands in `s` at index `i`.
pub open spec fn occurs_at(s: Seq<char>, word: Seq<char>, i: int) -> bool {
    0 <= i && i + word.len() <= s.len() && s.subrange(i, i + word.len()) == word
}

/// The index of the first place at which `word` stands in `s`, or
/// `s.len()` when it stands nowhere. (Meant for a `word` that is not
/// empty.)
pub open spec fn seek(s: Seq<char>, word: Seq<char>) -> int
    decreases s.len(),
{
    if s.len() < word.len() || s.len() == 0 {
        s.len() as int
    } else if s.take(word.len() as int) == word {
        0
    } else {
        1 + seek(s.drop_first(), word)
    }
}

/// `word` stands somewhere in `s`.
pub open spec fn contains_word(s: Seq<char>, word: Seq<char>) -> bool {
    exists|i: int| occurs_at(s, word, i)
}

/// The pieces of `s` between the places at which `sep` stands, taken
/// from the left and without overlap. There is always at least one
/// piece. (Meant for a `sep` that is not empty.)
pub open spec fn split_on(s: Seq<char>, sep: Seq<char>) -> Seq<Seq<char>>
    decreases s.len(),
{
    let i = seek(s, sep);
    if 0 <= i && i + sep.len() <= s.len() && sep.len() > 0 {
        seq![s.take(i)] + split_on(s.skip(i + sep.len()), sep)
    } else {
        seq![s]
    }
}

/// The pieces, with `sep` between each two of them.
pub open spec fn join(parts: Seq<Seq<char>>, sep: Seq<char>) -> Seq<char>
    decreases parts.len(),
{
    if parts.len() == 0 {
        Seq::empty()
    } else if parts.len() == 1 {
        parts[0]
    } else {
        join(parts.drop_last(), sep) + sep + parts.last()
    }
}

/// `s` with `with` in the place of `word`, wherever `word` stands, from
/// the left and without overlap.
pub open spec fn replaced(s: Seq<char>, word: Seq<char>, with: Seq<char>) -> Seq<char> {
    join(split_on(s, word), with)
}

/// The texts as the contracts see them.
pub open spec fn texts(parts: Seq<String>) -> Seq<Seq<char>> {
    Seq::new(parts.len(), |i: int| parts[i]@)
}

/// An index is what `seek` finds as soon as the word stands at no index
/// before it, and it is the length or the word stands at it.
pub proof fn lemma_seek_is(s: Seq<char>, word: Seq<char>, i: int)
    requires
        word.len() > 0,
        0 <= i <= s.len(),
        forall|j: int| 0 <= j < i ==> !occurs_at(s, word, j),
        i < s.len() ==> occurs_at(s, word, i),
    ensures
        seek(s, word) == i,
    decreases s.len(),
{
    if s.len() == 0 {
    } else if s.len() < word.len() {
        if i < s.len() {
            assert(occurs_at(s, word, i));
        }
    } else if s.take(word.len() as int) == word {
        assert(s.subrange(0, word.len() as int) == s.take(word.len() as int));
        assert(occurs_at(s, word, 0));
    } else {
        let t = s.drop_first();
        assert(s.subrange(0, word.len() as int) == s.take(word.len() as int));
        assert(!occurs_at(s, word, 0));
        assert forall|j: int| 0 <= j < i - 1 implies !occurs_at(t, word, j) by {
            if occurs_at(t, word, j) {
                assert(s.subrange(j + 1, j + 1 + word.len()) =~= t.subrange(j, j + word.len()));
                assert(occurs_at(s, word, j + 1));
            }
        }
        if i < s.len() {
            assert(t.subrange(i - 1, i - 1 + word.len()) =~= s.subrange(i, i + word.len()));
        }
        lemma_seek_is(t, word, i - 1);
    }
}

/// What `seek` finds lies within the text; the word stands at no index
/// before it, and stands at it unless it is the length.
pub proof fn lemma_seek_bounds(s: Seq<char>, word: Seq<char>)
    requires
        word.len() > 0,
    ensures
        0 <= seek(s, word) <= s.len(),
        forall|j: int| 0 <= j < seek(s, word) ==> !occurs_at(s, word, j),
        seek(s, word) < s.len() ==> occurs_at(s, word, seek(s, word)),
        seek(s, word) < s.len() <==> contains_word(s, word),
    decreases s.len(),
{
    if s.len() == 0 || s.len() < word.len() {
        assert forall|j: int| !occurs_at(s, word, j) by {}
    } else if s.take(word.len() as int) == word {
        assert(s.subrange(0, word.len() as int) == s.take(word.len() as int));
        assert(occurs_at(s, word, 0));
    } else {
        let t = s.drop_first();
        lemma_seek_bounds(t, word);
        let p = seek(t, word);
        assert(s.subrange(0, word.len() as int) == s.take(word.len() as int));
        assert forall|j: int| 0 <= j < p + 1 implies !occurs_at(s, word, j) by {
            if j > 0 && occurs_at(s, word, j) {
                assert(t.subrange(j - 1, j - 1 + word.len()) =~= s.subrange(j, j + word.len()));
                assert(occurs_at(t, word, j - 1));
            }
        }
        if p < t.len() {
            assert(s.subrange(p + 1, p + 1 + word.len()) =~= t.subrange(p, p + word.len()));
            assert(occurs_at(s, word, p + 1));
        } else {
            assert forall|j: int| !occurs_at(s, word, j) by {
                if occurs_at(s, word, j) {
                    assert(j >= p + 1);
                }
            }
        }
    }
}

/// Whether `word` stands in `chars` at index `at`.
fn matches_at(chars: &Vec<char>, at: usize, word: &Vec<char>) -> (b: bool)
    requires
        at <= chars.len(),
    ensures
        b == occurs_at(chars@, word@, at as int),
{
    if word.len() > chars.len() - at {
        return false;
    }
    let mut k: usize = 0;
    while k < word.len()
        invariant
            k <= word.len(),
            at + word.len() <= chars.len(),
            forall|l: int| 0 <= l < k ==> chars@[at + l] == word@[l],
        decreases word.len() - k,
    {
        if chars[at + k] != word[k] {
            proof {
                assert(chars@.subrange(at as int, at + word.len())[k as int] != word@[k as int]);
            }
            return false;
        }
        k += 1;
    }
    proof {
        assert(chars@.subrange(at as int, at + word.len()) =~= word@);
    }
    true
}

/// The first index from `start` on at which `word` stands in `chars`, or
/// the length of `chars`.
pub(crate) fn find_text(chars: &Vec<char>, start: usize, word: &Vec<char>) -> (at: usize)
    requires
        word.len() > 0,
        start <= chars.len(),
    ensures
        start <= at <= chars.len(),
        at - start == seek(chars@.skip(start as int), word@),
        at < chars.len() ==> at + word.len() <= chars.len(),
{
    let ghost rest = chars@.skip(start as int);
    let mut at: usize = start;
    while at < chars.len()
        invariant
            start <= at <= chars.len(),
            word.len() > 0,
            rest == chars@.skip(start as int),
            forall|j: int| 0 <= j < at - start ==> !occurs_at(rest, word@, j),
        decreases chars.len() - at,
    {
        let found = matches_at(chars, at, word);
        proof {
            let j = at - start;
            if 0 <= j + word.len() <= rest.len() {
                assert(rest.subrange(j, j + word.len()) =~= chars@.subrange(
                    at as int,
                    at + word.len(),
                ));
            }
        }
        if found {
            proof {
                lemma_seek_is(rest, word@, at - start);
            }
            return at;
        }
        at += 1;
    }
    proof {
        lemma_seek_is(rest, word@, at - start);
    }
    at
}

/// Whether `word` stands somewhere in `s`.
pub(crate) fn contains_text(s: &str, word: &str) -> (b: bool)
    requires
        word@.len() > 0,
    ensures
        b == contains_word(s@, word@),
{
    let chars = chars_of(s);
    let pattern = chars_of(word);
    let at = find_text(&chars, 0, &pattern);
    proof {
        assert(chars@.skip(0) =~= s@);
        lemma_seek_bounds(s@, word@);
    }
    at < chars.len()
}

/// Cuts `s` at every place at which `sep` stands.
pub(crate) fn split_text(s: &str, sep: &str) -> (parts: Vec<String>)
    requires
        sep@.len() > 0,
    ensures
        texts(parts@) == split_on(s@, sep@),
{
    let chars = chars_of(s);
    let pattern = chars_of(sep);
    let len = chars.len();
    let mut parts: Vec<String> = Vec::new();
    let mut start: usize = 0;
    proof {
        assert(s@.skip(0) =~= s@);
        assert(texts(parts@) + split_on(s@.skip(0), sep@) =~= split_on(s@, sep@));
    }
    loop
        invariant_except_break
            split_on(s@, sep@) == texts(parts@) + split_on(s@.skip(start as int), sep@),
        invariant
            start <= len,
            len == chars.len(),
            chars@ == s@,
            pattern@ == sep@,
            sep@.len() > 0,
        ensures
            texts(parts@) == split_on(s@, sep@),
        decreases len - start,
    {
        let at = find_text(&chars, start, &pattern);
        let piece = s.substring_char(start, at).to_owned();
        let ghost before = texts(parts@);
        let ghost rest = s@.skip(start as int);
        parts.push(piece);
        proof {
            assert(texts(parts@) =~= before.push(s@.subrange(start as int, at as int)));
            assert(rest.take(at - start) =~= s@.subrange(start as int, at as int));
        }
        if at == len {
            proof {
                assert(rest.take(at - start) =~= rest);
                assert(texts(parts@) =~= before + seq![rest]);
            }
            break;
        }
        proof {
            assert(rest.skip(at - start + sep@.len()) =~= s@.skip(at + sep@.len()));
            assert(texts(parts@) + split_on(s@.skip(at + sep@.len()), sep@) =~= before + (
            seq![rest.take(at - start)] + split_on(s@.skip(at + sep@.len()), sep@)));
        }
        start = at + pattern.len();
    }
    parts
}

/// Joins the pieces, with `sep` between each two of them.
pub(crate) fn join_text(parts: &Vec<String>, sep: &str) -> (joined: String)
    ensures
        joined@ == join(texts(parts@), sep@),
{
    let mut joined = String::new();
    let mut i: usize = 0;
    proof {
        assert(texts(parts@).take(0) =~= Seq::empty());
    }
    while i < parts.len()
        invariant
            i <= parts.len(),
            joined@ == join(texts(parts@).take(i as int), sep@),
        decreases parts.len() - i,
    {
        let ghost before = texts(parts@).take(i as int);
        let ghost after = texts(parts@).take(i + 1);
        proof {
            assert(after.drop_last() =~= before);
            assert(after.last() == parts@[i as int]@);
        }
        if i > 0 {
            joined.append(sep);
        }
        joined.append(parts[i].as_str());
        proof {
            if i == 0 {
                assert(join(before, sep@) =~= Seq::<char>::empty());
                assert(joined@ =~= after[0]);
            } else {
                assert(joined@ =~= join(before, sep@) + sep@ + after.last());
            }
        }
        i += 1;
    }
    proof {
        assert(texts(parts@).take(parts.len() as int) =~= texts(parts@));
    }
    joined
}

} // verus!
