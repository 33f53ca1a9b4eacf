//! Splitting a text into its lines.
//!
//! A line ends at a line feed. The line feed is not part of the line, and
//! neither is a carriage return that stands directly before it. Text after
//! the last line feed is a line of its own unless it is empty, so a final
//! line feed adds no empty line.

use crate::encoding::{
    lemma_ascii_absent, lemma_encode_ascii_char, lemma_encode_concat, lemma_encode_injective,
    lemma_encode_len, lemma_last_byte, lemma_prefix_boundary,
};
use vstd::prelude::*;
use vstd::string::StringSliceAdditionalSpecFns;
use vstd::utf8::encode_utf8;

verus! {

/// The byte that encodes a line feed.
const LINE_FEED: u8 = 0x0A;

/// The byte that encodes a carriage return.
const CARRIAGE_RETURN: u8 = 0x0D;

/// Number of characters before the first line feed of `text`, or the length
/// of `text` when it holds none.
pub open spec fn first_break(text: Seq<char>) -> nat
    decreases text.len(),
{
    if text.len() == 0 || text[0] == '\n' {
        0
    } else {
        1 + first_break(text.drop_first())
    }
}

/// `line` without the carriage return at its end, if it has one.
pub open spec fn without_carriage_return(line: Seq<char>) -> Seq<char> {
    if line.len() > 0 && line.last() == '\r' {
        line.drop_last()
    } else {
        line
    }
}

/// The lines of `text`, in order.
pub open spec fn lines_of(text: Seq<char>) -> Seq<Seq<char>>
    decreases text.len(),
{
    let k = first_break(text) as int;
    if text.len() == 0 {
        Seq::empty()
    } else if k >= text.len() {
        seq![text]
    } else {
        seq![without_carriage_return(text.take(k))] + lines_of(text.skip(k + 1))
    }
}

/// [`first_break`] is the position of the first line feed.
pub proof fn lemma_first_break(text: Seq<char>)
    ensures
        first_break(text) <= text.len(),
        forall|i: int| 0 <= i < first_break(text) ==> text[i] != '\n',
        first_break(text) < text.len() ==> text[first_break(text) as int] == '\n',
    decreases text.len(),
{
    if !(text.len() == 0 || text[0] == '\n') {
        let rest = text.drop_first();
        lemma_first_break(rest);
        assert forall|i: int| 0 <= i < first_break(text) implies text[i] != '\n' by {
            if i > 0 {
                assert(text[i] == rest[i - 1]);
            }
        }
    }
}

/// Where the first line feed stands in the encoding of `text`: directly
/// after the encoding of the characters before it.
proof fn lemma_break_offset(text: Seq<char>)
    ensures
        ({
            let k = first_break(text) as int;
            let bytes = encode_utf8(text);
            let at = encode_utf8(text.take(k)).len() as int;
            &&& k <= text.len()
            &&& at <= bytes.len()
            &&& forall|j: int| 0 <= j < at ==> bytes[j] != LINE_FEED
            &&& k < text.len() ==> at < bytes.len() && bytes[at] == LINE_FEED
            &&& k == text.len() ==> at == bytes.len()
        }),
{
    let k = first_break(text) as int;
    let before = text.take(k);
    let after = text.skip(k);
    lemma_first_break(text);
    assert(text =~= before + after);
    lemma_encode_concat(before, after);
    lemma_ascii_absent(before, '\n');
    assert('\n' as u8 == LINE_FEED);
    if k < text.len() {
        assert(after =~= seq!['\n'] + text.skip(k + 1));
        lemma_encode_concat(seq!['\n'], text.skip(k + 1));
        lemma_encode_ascii_char('\n');
    } else {
        assert(after =~= Seq::<char>::empty());
    }
}

/// Index of the first occurrence of `byte` in `bytes`, or their length when
/// there is none.
fn find_byte(bytes: &[u8], byte: u8) -> (at: usize)
    ensures
        at <= bytes@.len(),
        forall|j: int| 0 <= j < at ==> bytes@[j] != byte,
        at < bytes@.len() ==> bytes@[at as int] == byte,
{
    let mut at: usize = 0;
    while at < bytes.len() && bytes[at] != byte
        invariant
            at <= bytes@.len(),
            forall|j: int| 0 <= j < at ==> bytes@[j] != byte,
        decreases bytes@.len() - at,
    {
        at += 1;
    }
    at
}

/// Splits `s` into `head` and `tail`, given the length in bytes of `head`.
fn split_after<'a>(
    s: &'a str,
    mid: usize,
    Ghost(head): Ghost<Seq<char>>,
    Ghost(tail): Ghost<Seq<char>>,
) -> (parts: (&'a str, &'a str))
    requires
        s@ == head + tail,
        mid == encode_utf8(head).len(),
    ensures
        parts.0@ == head,
        parts.1@ == tail,
{
    proof {
        lemma_prefix_boundary(head, tail);
        lemma_encode_concat(head, tail);
    }
    let parts = s.split_at(mid);
    proof {
        assert(parts.0.spec_bytes() =~= encode_utf8(head));
        assert(parts.1.spec_bytes() =~= encode_utf8(tail));
        lemma_encode_injective(parts.0@, head);
        lemma_encode_injective(parts.1@, tail);
    }
    parts
}

/// `line` without the carriage return at its end, if it has one.
fn trim_carriage_return<'a>(line: &'a str) -> (trimmed: &'a str)
    ensures
        trimmed@ == without_carriage_return(line@),
{
    let bytes = line.as_bytes();
    let n = bytes.len();
    proof {
        lemma_encode_len(line@);
        assert('\r' as u8 == CARRIAGE_RETURN);
        if line@.len() > 0 {
            lemma_last_byte(line@, '\r');
        }
    }
    if n > 0 && bytes[n - 1] == CARRIAGE_RETURN {
        proof {
            assert(line@ =~= line@.drop_last() + seq!['\r']);
        }
        let ghost ending = seq!['\r'];
        let parts = split_after(line, n - 1, Ghost(line@.drop_last()), Ghost(ending));
        parts.0
    } else {
        line
    }
}

/// Splits `contents` into its lines. Each line borrows from `contents`.
pub fn split_lines<'a>(contents: &'a str) -> (lines: Vec<&'a str>)
    ensures
        lines.deep_view() == lines_of(contents@),
{
    let mut lines: Vec<&'a str> = Vec::new();
    let mut rest: &'a str = contents;
    assert(lines.deep_view() =~= Seq::<Seq<char>>::empty());
    loop
        invariant_except_break
            lines.deep_view() + lines_of(rest@) == lines_of(contents@),
        ensures
            lines.deep_view() == lines_of(contents@),
        decreases rest@.len(),
    {
        let ghost found = lines.deep_view();
        if rest.is_empty() {
            assert(found + lines_of(rest@) =~= found);
            break ;
        }
        let bytes = rest.as_bytes();
        let at = find_byte(bytes, LINE_FEED);
        let ghost k = first_break(rest@) as int;
        proof {
            lemma_break_offset(rest@);
        }
        if at == bytes.len() {
            lines.push(rest);
            assert(lines.deep_view() =~= found + lines_of(rest@));
            break ;
        }
        proof {
            lemma_first_break(rest@);
            assert(at == encode_utf8(rest@.take(k)).len());
            assert(rest@ =~= rest@.take(k) + rest@.skip(k));
            assert(rest@.skip(k) =~= seq!['\n'] + rest@.skip(k + 1));
            lemma_encode_ascii_char('\n');
        }
        let (head, tail) = split_after(rest, at, Ghost(rest@.take(k)), Ghost(rest@.skip(k)));
        let ghost feed = seq!['\n'];
        let (_, after) = split_after(tail, 1, Ghost(feed), Ghost(rest@.skip(k + 1)));
        let line = trim_carriage_return(head);
        lines.push(line);
        assert(lines.deep_view() + lines_of(after@) =~= found + lines_of(rest@));
        rest = after;
    }
    lines
}

} // verus!
