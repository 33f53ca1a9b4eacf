//! Facts about the UTF-8 encoding of text that let the line splitter work on
//! bytes while its contract speaks of characters.

use vstd::prelude::*;
use vstd::utf8::*;

verus! {

/// An ASCII scalar is encoded as the one byte of the same value; every byte
/// in the encoding of any other scalar has its high bit set.
pub proof fn lemma_scalar_bytes(s: u32)
    requires
        is_scalar(s),
    ensures
        s <= 0x7f ==> encode_scalar(s) == seq![s as u8],
        s > 0x7f ==> forall|j: int|
            0 <= j < encode_scalar(s).len() ==> #[trigger] encode_scalar(s)[j] >= 0x80,
        1 <= encode_scalar(s).len() <= 4,
{
    if has_width_1_encoding(s) {
        let b = leading_byte_width_1(s);
        assert(b == s as u8) by (bit_vector)
            requires
                b == (s & 0x7F) as u8,
                s <= 0x7f,
        ;
        assert(encode_scalar(s) =~= seq![s as u8]);
    } else {
        let lead2 = leading_byte_width_2(s);
        let lead3 = leading_byte_width_3(s);
        let lead4 = leading_byte_width_4(s);
        let last = last_continuation_byte(s);
        let second = second_last_continuation_byte(s);
        let third = third_last_continuation_byte(s);
        assert(lead2 >= 0x80) by (bit_vector)
            requires
                lead2 == 0xC0 | ((s >> 6) & 0x1F) as u8,
        ;
        assert(lead3 >= 0x80) by (bit_vector)
            requires
                lead3 == 0xE0 | ((s >> 12) & 0x0F) as u8,
        ;
        assert(lead4 >= 0x80) by (bit_vector)
            requires
                lead4 == 0xF0 | ((s >> 18) & 0x7) as u8,
        ;
        assert(last >= 0x80) by (bit_vector)
            requires
                last == 0x80 | (s & 0x3F) as u8,
        ;
        assert(second >= 0x80) by (bit_vector)
            requires
                second == 0x80 | ((s >> 6) & 0x3F) as u8,
        ;
        assert(third >= 0x80) by (bit_vector)
            requires
                third == 0x80 | ((s >> 12) & 0x3F) as u8,
        ;
    }
}

/// Encoding distributes over concatenation.
pub proof fn lemma_encode_concat(a: Seq<char>, b: Seq<char>)
    ensures
        encode_utf8(a + b) == encode_utf8(a) + encode_utf8(b),
    decreases a.len(),
{
    if a.len() == 0 {
        assert(a + b =~= b);
        assert(encode_utf8(a) + encode_utf8(b) =~= encode_utf8(b));
    } else {
        assert((a + b).drop_first() =~= a.drop_first() + b);
        lemma_encode_concat(a.drop_first(), b);
        assert(encode_utf8(a + b) =~= encode_utf8(a) + encode_utf8(b));
    }
}

/// Texts with the same encoding are the same text.
pub proof fn lemma_encode_injective(a: Seq<char>, b: Seq<char>)
    requires
        encode_utf8(a) == encode_utf8(b),
    ensures
        a == b,
{
    encode_utf8_decode_utf8(a);
    encode_utf8_decode_utf8(b);
}

/// The encoding of a single ASCII character.
pub proof fn lemma_encode_ascii_char(c: char)
    requires
        c as u32 <= 0x7f,
    ensures
        encode_utf8(seq![c]) == seq![c as u8],
{
    reveal_with_fuel(encode_utf8, 2);
    char_is_scalar(c);
    lemma_scalar_bytes(c as u32);
    assert(c as u8 == (c as u32) as u8);
    assert(encode_utf8(seq![c]) =~= seq![c as u8]);
}

/// A text has at least as many bytes as characters, so that only the empty
/// text has an empty encoding.
pub proof fn lemma_encode_len(text: Seq<char>)
    ensures
        text.len() <= encode_utf8(text).len(),
    decreases text.len(),
{
    if text.len() > 0 {
        char_is_scalar(text[0]);
        lemma_scalar_bytes(text[0] as u32);
        lemma_encode_len(text.drop_first());
    }
}

/// Where a text lacks an ASCII character, its encoding lacks that byte.
pub proof fn lemma_ascii_absent(text: Seq<char>, c: char)
    requires
        c as u32 <= 0x7f,
        forall|i: int| 0 <= i < text.len() ==> text[i] != c,
    ensures
        forall|j: int| 0 <= j < encode_utf8(text).len() ==> encode_utf8(text)[j] != c as u8,
    decreases text.len(),
{
    if text.len() > 0 {
        let first = text[0];
        char_is_scalar(first);
        lemma_scalar_bytes(first as u32);
        lemma_ascii_absent(text.drop_first(), c);
        let head = encode_scalar(first as u32);
        let tail = encode_utf8(text.drop_first());
        assert forall|j: int| 0 <= j < encode_utf8(text).len() implies encode_utf8(text)[j]
            != c as u8 by {
            if j < head.len() {
                assert(encode_utf8(text)[j] == head[j]);
                if first as u32 <= 0x7f {
                    char_u32_cast(first, first as u32);
                    char_u32_cast(c, c as u32);
                    assert(first as u32 != c as u32);
                    assert(c as u8 == (c as u32) as u8);
                }
            } else {
                assert(encode_utf8(text)[j] == tail[j - head.len()]);
            }
        }
    }
}

/// The last byte of a text's encoding is a given ASCII byte exactly when
/// the text ends in that character.
pub proof fn lemma_last_byte(text: Seq<char>, c: char)
    requires
        text.len() > 0,
        c as u32 <= 0x7f,
    ensures
        encode_utf8(text).len() > 0,
        (encode_utf8(text).last() == c as u8) <==> text.last() == c,
        text.last() == c ==> encode_utf8(text).drop_last() == encode_utf8(text.drop_last()),
{
    reveal_with_fuel(encode_utf8, 2);
    let last = text.last();
    assert(text =~= text.drop_last() + seq![last]);
    lemma_encode_concat(text.drop_last(), seq![last]);
    char_is_scalar(last);
    lemma_scalar_bytes(last as u32);
    char_u32_cast(last, last as u32);
    char_u32_cast(c, c as u32);
    assert(c as u8 == (c as u32) as u8);
    let front = encode_utf8(text.drop_last());
    let back = encode_scalar(last as u32);
    assert(encode_utf8(seq![last]) =~= back);
    assert(encode_utf8(text).last() == back.last());
    if last as u32 <= 0x7f {
        assert(back.last() == (last as u32) as u8);
    }
    if last == c {
        assert((front + back).drop_last() =~= front);
    }
}

/// The encoding of a prefix of a text ends where a character of the text
/// begins, or at the end of the text's encoding.
pub proof fn lemma_prefix_boundary(a: Seq<char>, b: Seq<char>)
    ensures
        is_char_boundary(encode_utf8(a + b), encode_utf8(a).len() as int),
    decreases a.len(),
{
    let whole = encode_utf8(a + b);
    encode_utf8_valid_utf8(a + b);
    if a.len() > 0 {
        char_is_scalar(a[0]);
        lemma_scalar_bytes(a[0] as u32);
        lemma_encode_concat(a, b);
        encode_utf8_first_scalar(a + b);
        assert((a + b).drop_first() =~= a.drop_first() + b);
        assert(pop_first_scalar(whole) =~= encode_utf8(a.drop_first() + b));
        lemma_prefix_boundary(a.drop_first(), b);
    }
}

} // verus!
