//! What the character data makes of the characters of a text, and of its tokens.

use crate::uax29::word::laws::{
    break_index, law_token_has_what_a_character_has,
    law_token_props_are_those_of_its_characters, lemma_breakpoint_at, lemma_offsets_ascend,
    word_like_char,
};
use crate::uax29::word::model::{infos, offset, span_bits, text_breaks};
use crate::uax29::word::properties::{
    ascii_property, ascii_token_bits, char_info, extended_pictographic, general_category_code,
    ideographic, non_ascii_token_bits, pictographic, property_of_code, script_code,
    strictly_word_like, utf8_len, word_break_code, word_like_property, word_like_strict,
    WordBreakProperty,
};
use crate::uax29::word::rules::uax29_boundary;
use crate::uax29::word::text::{char_offset, lemma_text_end};
use crate::uax29::word::token::{
    lemma_masks, lemma_or, HAS_ASCII_UPPER_MASK, NON_ASCII_MASK, WORD_LIKE_MASK,
};
use vstd::prelude::*;
use vstd::utf8::{char_is_scalar, encode_scalar, encode_utf8};

verus! {

// ---------------------------------------------------------------------------------------------
// Characters
// ---------------------------------------------------------------------------------------------

/// Each `Word_Break` value has its one number in the character data; all other numbers are `Other`.
pub proof fn law_every_value_has_its_number(code: u16)
    ensures
        property_of_code(code) is ALetter <==> code == 1,
        property_of_code(code) is Format <==> code == 2,
        property_of_code(code) is Katakana <==> code == 3,
        property_of_code(code) is MidLetter <==> code == 4,
        property_of_code(code) is MidNum <==> code == 5,
        property_of_code(code) is Numeric <==> code == 6,
        property_of_code(code) is ExtendNumLet <==> code == 7,
        property_of_code(code) is CR <==> code == 8,
        property_of_code(code) is Extend <==> code == 9,
        property_of_code(code) is LF <==> code == 10,
        property_of_code(code) is MidNumLet <==> code == 11,
        property_of_code(code) is Newline <==> code == 12,
        property_of_code(code) is RegionalIndicator <==> code == 13,
        property_of_code(code) is HebrewLetter <==> code == 14,
        property_of_code(code) is SingleQuote <==> code == 15,
        property_of_code(code) is DoubleQuote <==> code == 16,
        property_of_code(code) is ZWJ <==> code == 21,
        property_of_code(code) is WSegSpace <==> code == 22,
{
}

/// The `Word_Break` values of the bytes: ASCII letters, digits, spaces, line ends, quotes and
/// punctuation have their own, and all else is `Other`.
pub proof fn law_values_of_ascii_bytes(b: u8)
    ensures
        ascii_property(b) is ALetter <==> 0x41 <= b <= 0x5a || 0x61 <= b <= 0x7a,
        ascii_property(b) is Numeric <==> 0x30 <= b <= 0x39,
        ascii_property(b) is ExtendNumLet <==> b == 0x5f,
        ascii_property(b) is WSegSpace <==> b == 0x20,
        ascii_property(b) is CR <==> b == 0x0d,
        ascii_property(b) is LF <==> b == 0x0a,
        ascii_property(b) is Newline <==> b == 0x0b || b == 0x0c,
        ascii_property(b) is SingleQuote <==> b == 0x27,
        ascii_property(b) is DoubleQuote <==> b == 0x22,
        ascii_property(b) is MidLetter <==> b == 0x3a,
        ascii_property(b) is MidNum <==> b == 0x2c || b == 0x3b,
        ascii_property(b) is MidNumLet <==> b == 0x2e,
        !(ascii_property(b) is Extend),
        !(ascii_property(b) is Format),
        !(ascii_property(b) is ZWJ),
        !(ascii_property(b) is Katakana),
        !(ascii_property(b) is HebrewLetter),
        !(ascii_property(b) is RegionalIndicator),
{
}

/// The boundaries of a text are computed from the `Word_Break` values that the character data gives
/// to its characters outside ASCII.
pub proof fn law_values_come_from_the_character_data(text: Seq<char>, k: int)
    requires
        0 <= k < text.len(),
        (text[k] as u32) >= 0x80,
    ensures
        infos(text)[k].prop == property_of_code(word_break_code(text[k])),
        infos(text)[k].prop is ALetter <==> word_break_code(text[k]) == 1,
        infos(text)[k].prop is Format <==> word_break_code(text[k]) == 2,
        infos(text)[k].prop is Katakana <==> word_break_code(text[k]) == 3,
        infos(text)[k].prop is MidLetter <==> word_break_code(text[k]) == 4,
        infos(text)[k].prop is MidNum <==> word_break_code(text[k]) == 5,
        infos(text)[k].prop is Numeric <==> word_break_code(text[k]) == 6,
        infos(text)[k].prop is ExtendNumLet <==> word_break_code(text[k]) == 7,
        infos(text)[k].prop is CR <==> word_break_code(text[k]) == 8,
        infos(text)[k].prop is Extend <==> word_break_code(text[k]) == 9,
        infos(text)[k].prop is LF <==> word_break_code(text[k]) == 10,
        infos(text)[k].prop is MidNumLet <==> word_break_code(text[k]) == 11,
        infos(text)[k].prop is Newline <==> word_break_code(text[k]) == 12,
        infos(text)[k].prop is RegionalIndicator <==> word_break_code(text[k]) == 13,
        infos(text)[k].prop is HebrewLetter <==> word_break_code(text[k]) == 14,
        infos(text)[k].prop is SingleQuote <==> word_break_code(text[k]) == 15,
        infos(text)[k].prop is DoubleQuote <==> word_break_code(text[k]) == 16,
        infos(text)[k].prop is ZWJ <==> word_break_code(text[k]) == 21,
        infos(text)[k].prop is WSegSpace <==> word_break_code(text[k]) == 22,
{
}

/// The `Word_Break` value of an ASCII character.
proof fn lemma_ascii_values(c: char)
    requires
        (c as u32) < 0x80,
    ensures
        char_info(c).prop is ALetter <==> 'A' <= c <= 'Z' || 'a' <= c <= 'z',
        char_info(c).prop is Numeric <==> '0' <= c <= '9',
        char_info(c).prop is ExtendNumLet <==> c == '_',
        char_info(c).prop is WSegSpace <==> c == ' ',
        char_info(c).prop is CR <==> c == '\r',
        char_info(c).prop is LF <==> c == '\n',
        char_info(c).prop is Newline <==> c == '\u{b}' || c == '\u{c}',
        char_info(c).prop is SingleQuote <==> c == '\'',
        char_info(c).prop is DoubleQuote <==> c == '"',
        char_info(c).prop is MidLetter <==> c == ':',
        char_info(c).prop is MidNum <==> c == ',' || c == ';',
        char_info(c).prop is MidNumLet <==> c == '.',
        !(char_info(c).prop is Extend),
        !(char_info(c).prop is Format),
        !(char_info(c).prop is ZWJ),
        !(char_info(c).prop is Katakana),
        !(char_info(c).prop is HebrewLetter),
        !(char_info(c).prop is RegionalIndicator),
{
    law_values_of_ascii_bytes(c as u8);
}

/// The `Word_Break` values of the ASCII characters of a text.
pub proof fn law_values_of_ascii_characters(text: Seq<char>, k: int)
    requires
        0 <= k < text.len(),
        (text[k] as u32) < 0x80,
    ensures
        infos(text)[k].prop is ALetter <==> 'A' <= text[k] <= 'Z' || 'a' <= text[k] <= 'z',
        infos(text)[k].prop is Numeric <==> '0' <= text[k] <= '9',
        infos(text)[k].prop is ExtendNumLet <==> text[k] == '_',
        infos(text)[k].prop is WSegSpace <==> text[k] == ' ',
        infos(text)[k].prop is CR <==> text[k] == '\r',
        infos(text)[k].prop is LF <==> text[k] == '\n',
        infos(text)[k].prop is Newline <==> text[k] == '\u{b}' || text[k] == '\u{c}',
        infos(text)[k].prop is SingleQuote <==> text[k] == '\'',
        infos(text)[k].prop is DoubleQuote <==> text[k] == '"',
        infos(text)[k].prop is MidLetter <==> text[k] == ':',
        infos(text)[k].prop is MidNum <==> text[k] == ',' || text[k] == ';',
        infos(text)[k].prop is MidNumLet <==> text[k] == '.',
        !(infos(text)[k].prop is Extend),
        !(infos(text)[k].prop is Format),
        !(infos(text)[k].prop is ZWJ),
        !(infos(text)[k].prop is Katakana),
        !(infos(text)[k].prop is HebrewLetter),
        !(infos(text)[k].prop is RegionalIndicator),
{
    lemma_ascii_values(text[k]);
}

/// Pictographs are what the character data lists as such, outside ASCII.
pub proof fn law_pictographs_come_from_the_character_data(text: Seq<char>, k: int)
    requires
        0 <= k < text.len(),
    ensures
        infos(text)[k].pictographic <==> (text[k] as u32) >= 0x80 && extended_pictographic(text[k]),
        pictographic(text[k]) <==> (text[k] as u32) >= 0x80 && extended_pictographic(text[k]),
{
}

/// A character is word-like on its own account if it is a pictograph, an ideograph, of category
/// `Other_Number` (11), or of a script that is none of `Common` (0), `Inherited` (1) and `Unknown`
/// (103), and only then.
pub proof fn law_strictly_word_like_by_data(
    pictographic: bool,
    ideographic: bool,
    category: u8,
    script: u16,
)
    ensures
        pictographic ==> strictly_word_like(pictographic, ideographic, category, script),
        ideographic ==> strictly_word_like(pictographic, ideographic, category, script),
        category == 11 ==> strictly_word_like(pictographic, ideographic, category, script),
        script != 0 && script != 1 && script != 103 ==> strictly_word_like(
            pictographic,
            ideographic,
            category,
            script,
        ),
        !pictographic && !ideographic && category != 11 && (script == 0 || script == 1 || script
            == 103) ==> !strictly_word_like(pictographic, ideographic, category, script),
{
}

/// What [`is_word_like_strict`](crate::uax29::word::properties::is_word_like_strict) says of a
/// character, in terms of the character data.
pub proof fn law_strictly_word_like_characters(c: char)
    ensures
        word_like_strict(c) <==> (extended_pictographic(c) || ideographic(c)
            || general_category_code(c) == 11 || (script_code(c) != 0 && script_code(c) != 1
            && script_code(c) != 103)),
{
}

/// What the `Word_Break` value of a character, and its being word-like on its own account, say about
/// the token it is in: letters and digits are word-like, and outside ASCII bit 1 is always set.
pub proof fn law_bits_of_characters_outside_ascii(prop: WordBreakProperty, strict: bool)
    ensures
        word_like_property(prop) <==> prop is ALetter || prop is HebrewLetter || prop is Numeric,
        non_ascii_token_bits(prop, strict) == if prop is ALetter || prop is HebrewLetter
            || prop is Numeric || strict {
            3u8
        } else {
            2u8
        },
{
    lemma_masks();
}

/// What an ASCII byte says about the token it is in: letters and digits are word-like, and capital
/// letters set bit 2 besides.
pub proof fn law_bits_of_ascii_bytes(b: u8)
    ensures
        ascii_token_bits(b) == if 0x41 <= b <= 0x5a {
            5u8
        } else if 0x61 <= b <= 0x7a || 0x30 <= b <= 0x39 {
            1u8
        } else {
            0u8
        },
{
    lemma_masks();
}

/// The masks of [`TokenProperties`](crate::uax29::word::token::TokenProperties) are bits 0, 1 and 2.
pub proof fn law_masks()
    ensures
        WORD_LIKE_MASK == 1,
        NON_ASCII_MASK == 2,
        HAS_ASCII_UPPER_MASK == 4,
{
}

/// The length of a character is that of its encoding.
pub proof fn law_lengths_are_those_of_the_encoding(c: char)
    ensures
        utf8_len(c) == encode_scalar(c as u32).len(),
{
    char_is_scalar(c);
}

// ---------------------------------------------------------------------------------------------
// Breakpoints
// ---------------------------------------------------------------------------------------------

/// Does a breakpoint of the text fall right before the `k`-th character, or at the end of the text?
pub open spec fn breaks_before(text: Seq<char>, k: int) -> bool {
    exists|n: int|
        0 <= n < text_breaks(text).len() && #[trigger] text_breaks(text)[n].0 == encode_utf8(
            text.take(k),
        ).len()
}

/// The first `k` characters end where the `k`-th one begins.
pub proof fn lemma_taken_length(text: Seq<char>, k: int)
    requires
        0 <= k <= text.len(),
    ensures
        char_offset(text, k) == encode_utf8(text.take(k)).len(),
{
    lemma_text_end(text.take(k));
    lemma_same_offset(text, k, k);
}

proof fn lemma_same_offset(text: Seq<char>, k: int, j: int)
    requires
        0 <= j <= k <= text.len(),
    ensures
        offset(infos(text), j) == offset(infos(text.take(k)), j),
    decreases j,
{
    if j > 0 {
        lemma_same_offset(text, k, j - 1);
        assert(infos(text)[j - 1] == infos(text.take(k))[j - 1]);
    }
}

/// The breakpoints fall where the rules put boundaries.
pub proof fn lemma_breaks_before(text: Seq<char>, k: int)
    requires
        0 <= k <= text.len(),
        text.len() > 0,
        encode_utf8(text).len() <= usize::MAX,
    ensures
        breaks_before(text, k) == uax29_boundary(infos(text), k),
{
    lemma_taken_length(text, k);
    lemma_breakpoint_at(text, k);
}

/// Two neighbouring letters, outside ASCII, are never divided: the character data decides what is a
/// letter (1).
pub proof fn law_letters_of_the_character_data_stay_together(text: Seq<char>, k: int)
    requires
        0 < k < text.len(),
        encode_utf8(text).len() <= usize::MAX,
        (text[k - 1] as u32) >= 0x80 && word_break_code(text[k - 1]) == 1,
        (text[k] as u32) >= 0x80 && word_break_code(text[k]) == 1,
    ensures
        !breaks_before(text, k),
{
    lemma_breaks_before(text, k);
}

/// A pictograph of the character data is never divided from the zero width joiner (21) before it,
/// unless the data had it end a line (8, 10, 12).
pub proof fn law_pictographs_of_the_character_data_stay_with_a_joiner(text: Seq<char>, k: int)
    requires
        0 < k < text.len(),
        encode_utf8(text).len() <= usize::MAX,
        (text[k - 1] as u32) >= 0x80 && word_break_code(text[k - 1]) == 21,
        (text[k] as u32) >= 0x80 && extended_pictographic(text[k]),
        word_break_code(text[k]) != 8 && word_break_code(text[k]) != 10 && word_break_code(text[k])
            != 12,
    ensures
        !breaks_before(text, k),
{
    lemma_breaks_before(text, k);
}

// ---------------------------------------------------------------------------------------------
// Tokens
// ---------------------------------------------------------------------------------------------

/// Does the `k`-th character lie in the token that ends at the `n`-th breakpoint?
pub open spec fn in_token(text: Seq<char>, n: int, k: int) -> bool {
    &&& 0 <= k < text.len()
    &&& text_breaks(text)[n - 1].0 <= encode_utf8(text.take(k)).len() < text_breaks(text)[n].0
}

/// Is the character word-like, by ASCII or by the character data?
spec fn told_word_like(c: char) -> bool {
    ||| 'A' <= c <= 'Z'
    ||| 'a' <= c <= 'z'
    ||| '0' <= c <= '9'
    ||| (c as u32) >= 0x80 && ({
        ||| word_break_code(c) == 1
        ||| word_break_code(c) == 6
        ||| word_break_code(c) == 14
        ||| extended_pictographic(c)
        ||| ideographic(c)
        ||| general_category_code(c) == 11
        ||| script_code(c) != 0 && script_code(c) != 1 && script_code(c) != 103
    })
}

/// The bits that are reported with a token are told by its characters. Bit 0: one of them is an ASCII
/// letter or digit, or is outside ASCII and a letter (1), a Hebrew letter (14) or a digit (6) for the
/// character data, a pictograph, an ideograph, of category `Other_Number` (11) or of a script that is
/// none of `Common` (0), `Inherited` (1) and `Unknown` (103). Bit 1: one of them is outside ASCII.
/// Bit 2: one of them is an ASCII capital letter. No other bit is set.
pub proof fn law_token_bits_come_from_the_character_data(text: Seq<char>, n: int)
    requires
        0 < n < text_breaks(text).len(),
        encode_utf8(text).len() <= usize::MAX,
    ensures
        (text_breaks(text)[n].1.0 & 1 != 0) <==> exists|k: int| #[trigger]
            in_token(text, n, k) && ({
                let c = text[k];
                ||| 'A' <= c <= 'Z'
                ||| 'a' <= c <= 'z'
                ||| '0' <= c <= '9'
                ||| (c as u32) >= 0x80 && ({
                    ||| word_break_code(c) == 1
                    ||| word_break_code(c) == 6
                    ||| word_break_code(c) == 14
                    ||| extended_pictographic(c)
                    ||| ideographic(c)
                    ||| general_category_code(c) == 11
                    ||| script_code(c) != 0 && script_code(c) != 1 && script_code(c) != 103
                })
            }),
        (text_breaks(text)[n].1.0 & 2 != 0) <==> exists|k: int| #[trigger]
            in_token(text, n, k) && (text[k] as u32) >= 0x80,
        (text_breaks(text)[n].1.0 & 4 != 0) <==> exists|k: int| #[trigger]
            in_token(text, n, k) && 'A' <= text[k] <= 'Z',
        text_breaks(text)[n].1.0 < 8,
{
    law_token_props_are_those_of_its_characters(text, n);
    let i = break_index(text, n - 1);
    let j = break_index(text, n);
    law_token_has_what_a_character_has(text, i, j);
    lemma_span_small(text, i, j);
    assert forall|k: int| 0 <= k < text.len() implies #[trigger] in_token(text, n, k) == (i <= k
        < j) by {
        lemma_taken_length(text, k);
        if k < i {
            lemma_offsets_ascend(text, k, i);
        } else if i < k {
            lemma_offsets_ascend(text, i, k);
        }
        if k < j {
            lemma_offsets_ascend(text, k, j);
        } else if j < k {
            lemma_offsets_ascend(text, j, k);
        }
    }
    let bits = text_breaks(text)[n].1.0;
    if bits & 1 != 0 {
        let k = choose|k: int| i <= k < j && word_like_char(#[trigger] text[k]);
        assert(in_token(text, n, k) && told_word_like(text[k]));
    }
    if bits & 2 != 0 {
        let k = choose|k: int| i <= k < j && (#[trigger] text[k] as u32) >= 0x80;
        assert(in_token(text, n, k));
    }
    if bits & 4 != 0 {
        let k = choose|k: int| i <= k < j && 'A' <= #[trigger] text[k] <= 'Z';
        assert(in_token(text, n, k));
    }
    assert forall|k: int| #[trigger] in_token(text, n, k) && told_word_like(text[k]) implies bits & 1
        != 0 by {
        assert(word_like_char(text[k]));
    }
    assert forall|k: int| #[trigger] in_token(text, n, k) && (text[k] as u32) >= 0x80 implies bits
        & 2 != 0 by {
        assert((text[k] as u32) >= 0x80);
    }
}

proof fn lemma_span_small(text: Seq<char>, i: int, j: int)
    requires
        0 <= i <= j <= text.len(),
    ensures
        span_bits(infos(text), i, j) < 8,
    decreases j - i,
{
    if i < j {
        lemma_span_small(text, i, j - 1);
        let x = span_bits(infos(text), i, j - 1);
        let y = infos(text)[j - 1].props.0;
        lemma_masks();
        law_bits_of_characters_outside_ascii(infos(text)[j - 1].prop, true);
        law_bits_of_characters_outside_ascii(infos(text)[j - 1].prop, false);
        lemma_or(x, y, 0);
    }
}

} // verus!
