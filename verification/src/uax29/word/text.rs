//! Texts as bytes: where the characters of a text stand in its UTF-8 encoding.

use crate::uax29::word::model::{infos, offset};
use crate::uax29::word::properties::{char_info, utf8_len};
use vstd::prelude::*;
use vstd::utf8::{
    char_is_scalar, encode_scalar, encode_utf8, encode_utf8_decode_utf8, encode_utf8_first_scalar,
    encode_utf8_valid_utf8, is_char_boundary, is_char_boundary_iff_not_is_continuation_byte,
    is_leading_byte_width_1,
};

verus! {

/// The byte offset of the `k`-th character of a text.
pub open spec fn char_offset(text: Seq<char>, k: int) -> int {
    offset(infos(text), k)
}

/// Cutting the encoding of a text in front of a character cuts the text there.
pub proof fn lemma_suffix(text: Seq<char>, k: int)
    requires
        0 <= k <= text.len(),
    ensures
        0 <= char_offset(text, k) <= encode_utf8(text).len(),
        encode_utf8(text).subrange(char_offset(text, k), encode_utf8(text).len() as int)
            == encode_utf8(text.subrange(k, text.len() as int)),
    decreases k,
{
    let bytes = encode_utf8(text);
    if k == 0 {
        assert(text.subrange(0, text.len() as int) =~= text);
        assert(bytes.subrange(0, bytes.len() as int) =~= bytes);
    } else {
        lemma_suffix(text, k - 1);
        let rest = text.subrange(k - 1, text.len() as int);
        assert(rest.drop_first() =~= text.subrange(k, text.len() as int));
        char_is_scalar(rest[0]);
        let first = encode_scalar(rest[0] as u32);
        assert(first.len() == utf8_len(text[k - 1]));
        let tail = encode_utf8(rest.drop_first());
        assert(encode_utf8(rest) == first + tail);
        assert(char_offset(text, k) == char_offset(text, k - 1) + first.len());
        assert((first + tail).subrange(first.len() as int, (first + tail).len() as int) =~= tail);
        assert(bytes.subrange(char_offset(text, k), bytes.len() as int) =~= encode_utf8(
            rest,
        ).subrange(first.len() as int, encode_utf8(rest).len() as int));
    }
}

/// The end of the last character is the end of the encoding.
pub proof fn lemma_text_end(text: Seq<char>)
    ensures
        char_offset(text, text.len() as int) == encode_utf8(text).len(),
{
    let n = text.len() as int;
    lemma_suffix(text, n);
    assert(text.subrange(n, n) =~= Seq::<char>::empty());
    let bytes = encode_utf8(text);
    assert(bytes.subrange(char_offset(text, n), bytes.len() as int).len() == 0);
}

/// The character with the number of an ASCII byte.
pub proof fn lemma_byte_as_char(b: u8, c: char)
    requires
        (c as u32) < 0x80,
        c as u8 == b,
    ensures
        b as char == c,
{
}

proof fn lemma_char_as_byte(c: char)
    requires
        (c as u32) < 0x80,
    ensures
        c as u8 == c as u32,
{
}

/// The bytes of the `k`-th character: one below 128 that is the character itself, or several that
/// are all 128 or more.
pub proof fn lemma_char_bytes(text: Seq<char>, k: int)
    requires
        0 <= k < text.len(),
    ensures
        0 <= char_offset(text, k),
        char_offset(text, k + 1) == char_offset(text, k) + utf8_len(text[k]),
        char_offset(text, k + 1) <= encode_utf8(text).len(),
        (text[k] as u32) < 0x80 ==> encode_utf8(text)[char_offset(text, k)] == text[k] as u8,
        (text[k] as u32) >= 0x80 ==> forall|i: int|
            char_offset(text, k) <= i < char_offset(text, k + 1) ==> #[trigger] encode_utf8(text)[i]
                >= 0x80,
        is_char_boundary(encode_utf8(text), char_offset(text, k)),
{
    let bytes = encode_utf8(text);
    let at = char_offset(text, k);
    lemma_suffix(text, k);
    lemma_suffix(text, k + 1);
    encode_utf8_valid_utf8(text);
    let rest = text.subrange(k, text.len() as int);
    let suffix = encode_utf8(rest);
    encode_utf8_first_scalar(rest);
    char_is_scalar(rest[0]);
    assert(rest[0] == text[k]);
    assert(suffix.len() > 0);
    assert(bytes[at] == suffix[0]);
    let b = suffix[0];
    assert(b <= 0x7f ==> b & 0x7f == b) by (bit_vector);
    if (text[k] as u32) < 0x80 {
        assert(is_leading_byte_width_1(b));
        lemma_char_as_byte(text[k]);
    }
    is_char_boundary_iff_not_is_continuation_byte(bytes, at);
    assert forall|i: int| at <= i < char_offset(text, k + 1) && (text[k] as u32)
        >= 0x80 implies #[trigger] bytes[i] >= 0x80 by {
        assert(bytes[i] == suffix[i - at]);
    }
}

/// An ASCII byte in front of which a character ends is a character.
pub proof fn lemma_ascii_byte(text: Seq<char>, k: int)
    requires
        0 <= k < text.len(),
        encode_utf8(text)[char_offset(text, k)] < 0x80,
    ensures
        (text[k] as u32) < 0x80,
        text[k] as u8 == encode_utf8(text)[char_offset(text, k)],
        char_offset(text, k + 1) == char_offset(text, k) + 1,
        infos(text)[k] == char_info(text[k]),
{
    lemma_char_bytes(text, k);
}

/// An ASCII byte behind which a character starts is a character.
pub proof fn lemma_ascii_byte_before(text: Seq<char>, k: int)
    requires
        0 < k <= text.len(),
        encode_utf8(text)[char_offset(text, k) - 1] < 0x80,
    ensures
        (text[k - 1] as u32) < 0x80,
        text[k - 1] as u8 == encode_utf8(text)[char_offset(text, k) - 1],
        char_offset(text, k - 1) == char_offset(text, k) - 1,
{
    lemma_char_bytes(text, k - 1);
}

/// A character begins before the end of the text just if there is one.
pub proof fn lemma_offset_in_text(text: Seq<char>, k: int)
    requires
        0 <= k <= text.len(),
    ensures
        k < text.len() <==> char_offset(text, k) < encode_utf8(text).len(),
        0 <= char_offset(text, k) <= encode_utf8(text).len(),
{
    lemma_suffix(text, k);
    lemma_text_end(text);
    if k < text.len() {
        lemma_char_bytes(text, k);
        lemma_suffix(text, k + 1);
    }
}

/// The length of the UTF-8 encoding of a character.
pub fn len_utf8(c: char) -> (n: usize)
    ensures
        n == utf8_len(c),
{
    let v: u32 = c as u32;
    if v < 0x80 {
        1
    } else if v < 0x800 {
        2
    } else if v < 0x10000 {
        3
    } else {
        4
    }
}

/// The character that begins at byte `pos`.
pub(crate) fn char_at(text: &str, pos: usize, Ghost(k): Ghost<int>) -> (c: char)
    requires
        0 <= k < text@.len(),
        pos == char_offset(text@, k),
    ensures
        c == text@[k],
{
    proof {
        lemma_char_bytes(text@, k);
        lemma_suffix(text@, k);
    }
    let (_, rest) = text.split_at(pos);
    proof {
        encode_utf8_decode_utf8(rest@);
        encode_utf8_decode_utf8(text@.subrange(k, text@.len() as int));
        assert(rest@ == text@.subrange(k, text@.len() as int));
    }
    match rest.chars().next() {
        Some(c) => c,
        None => '\0',
    }
}

} // verus!
