//! Substring containment, with or without regard to letter case.

use vstd::prelude::*;
use vstd::seq_lib::lemma_flatten_concat;

verus! {

/// Whether `needle` stands in `hay` at position `at`.
pub open spec fn occurs_at(hay: Seq<char>, needle: Seq<char>, at: int) -> bool {
    &&& 0 <= at
    &&& at + needle.len() <= hay.len()
    &&& hay.subrange(at, at + needle.len()) == needle
}

/// Whether `needle` is a contiguous part of `hay`.
pub open spec fn contains(hay: Seq<char>, needle: Seq<char>) -> bool {
    exists|at: int| occurs_at(hay, needle, at)
}

/// The characters that `char::to_lowercase` yields for `c`.
pub uninterp spec fn lowercase_of(c: char) -> Seq<char>;

/// `text` with each character replaced by its lowercase mapping. The mapping
/// of a character does not depend on its neighbours.
pub open spec fn fold_case(text: Seq<char>) -> Seq<char> {
    text.map_values(|c: char| lowercase_of(c)).flatten()
}

/// `text` as a search compares it: as it stands when `case_sensitive`, else
/// with its case folded.
pub open spec fn compared(text: Seq<char>, case_sensitive: bool) -> Seq<char> {
    if case_sensitive {
        text
    } else {
        fold_case(text)
    }
}

/// Whether `line` contains `query`, both taken as the search compares them.
pub open spec fn line_matches(line: Seq<char>, query: Seq<char>, case_sensitive: bool) -> bool {
    contains(compared(line, case_sensitive), compared(query, case_sensitive))
}

/// Folding distributes over concatenation.
pub proof fn lemma_fold_concat(a: Seq<char>, b: Seq<char>)
    ensures
        fold_case(a + b) == fold_case(a) + fold_case(b),
{
    let lower = |c: char| lowercase_of(c);
    assert((a + b).map_values(lower) =~= a.map_values(lower) + b.map_values(lower));
    lemma_flatten_concat(a.map_values(lower), b.map_values(lower));
}

/// Folding one more character appends its lowercase mapping.
pub proof fn lemma_fold_push(text: Seq<char>, c: char)
    ensures
        fold_case(text.push(c)) == fold_case(text) + lowercase_of(c),
{
    let lower = |c: char| lowercase_of(c);
    assert(text.push(c).map_values(lower) =~= text.map_values(lower).push(lowercase_of(c)));
    text.map_values(lower).lemma_flatten_push(lowercase_of(c));
}

/// The empty text is a part of every text.
pub proof fn lemma_contains_empty(hay: Seq<char>)
    ensures
        contains(hay, Seq::empty()),
{
    assert(hay.subrange(0, 0) =~= Seq::<char>::empty());
    assert(occurs_at(hay, Seq::empty(), 0));
}

/// A part of a text is, after folding, a part of the folded text.
pub proof fn lemma_fold_keeps_containment(hay: Seq<char>, needle: Seq<char>)
    requires
        contains(hay, needle),
    ensures
        contains(fold_case(hay), fold_case(needle)),
{
    let at = choose|at: int| occurs_at(hay, needle, at);
    let before = hay.take(at);
    let after = hay.skip(at + needle.len());
    assert(hay =~= before + needle + after);
    lemma_fold_concat(before + needle, after);
    lemma_fold_concat(before, needle);
    let folded = fold_case(hay);
    let start = fold_case(before).len() as int;
    assert(folded.subrange(start, start + fold_case(needle).len()) =~= fold_case(needle));
    assert(occurs_at(folded, fold_case(needle), start));
}

/// Calls `char::to_lowercase` and collects the characters that it yields.
/// Not proved: that these are [`lowercase_of`] of `c`, which is to say that
/// the standard library's mapping depends on nothing but the character.
#[verifier::external_body]
fn lowercase(c: char) -> (lower: Vec<char>)
    ensures
        lower@ == lowercase_of(c),
{
    c.to_lowercase().collect()
}

/// Replaces what `buffer` holds by the characters of `text`.
pub fn decode_into(buffer: &mut Vec<char>, text: &str)
    ensures
        final(buffer)@ == text@,
{
    buffer.clear();
    for c in it: text.chars()
        invariant
            it.seq() == text@,
            buffer@ == text@.take(it.index() as int),
    {
        buffer.push(c);
        assert(text@.take(it.index() + 1) =~= text@.take(it.index() as int).push(c));
    }
    assert(text@.take(text@.len() as int) =~= text@);
}

/// Replaces what `buffer` holds by the case-folded characters of `text`.
pub fn fold_into(buffer: &mut Vec<char>, text: &str)
    ensures
        final(buffer)@ == fold_case(text@),
{
    buffer.clear();
    assert(text@.take(0).map_values(|c: char| lowercase_of(c)) =~= Seq::<Seq<char>>::empty());
    for c in it: text.chars()
        invariant
            it.seq() == text@,
            buffer@ == fold_case(text@.take(it.index() as int)),
    {
        let mut lower = lowercase(c);
        buffer.append(&mut lower);
        proof {
            lemma_fold_push(text@.take(it.index() as int), c);
            assert(text@.take(it.index() + 1) =~= text@.take(it.index() as int).push(c));
        }
    }
    assert(text@.take(text@.len() as int) =~= text@);
}

/// Whether `needle` stands in `hay` at position `at`.
fn starts_at(hay: &[char], needle: &[char], at: usize) -> (found: bool)
    requires
        at + needle.len() <= hay.len(),
    ensures
        found == occurs_at(hay@, needle@, at as int),
{
    let mut i: usize = 0;
    while i < needle.len()
        invariant
            i <= needle.len(),
            at + needle.len() <= hay.len(),
            forall|j: int| 0 <= j < i ==> hay@[at + j] == needle@[j],
        decreases needle.len() - i,
    {
        if hay[at + i] != needle[i] {
            assert(hay@.subrange(at as int, at + needle.len())[i as int] != needle@[i as int]);
            return false;
        }
        i += 1;
    }
    assert(hay@.subrange(at as int, at + needle.len()) =~= needle@);
    true
}

/// Whether `needle` is a contiguous part of `hay`.
pub fn has_substring(hay: &[char], needle: &[char]) -> (found: bool)
    ensures
        found == contains(hay@, needle@),
{
    if needle.len() > hay.len() {
        return false;
    }
    let last = hay.len() - needle.len();
    let mut at: usize = 0;
    while at < last
        invariant
            last == hay.len() - needle.len(),
            at <= last,
            forall|j: int| 0 <= j < at ==> !occurs_at(hay@, needle@, j),
        decreases last - at,
    {
        if starts_at(hay, needle, at) {
            return true;
        }
        at += 1;
    }
    starts_at(hay, needle, last)
}

} // verus!
