//! Word boundaries in ASCII text.

use crate::uax29::word::automaton::{advance, law_automaton_follows_the_standard, mode, Mode};
use crate::uax29::word::model::{boundary, infos, offset};
use crate::uax29::word::properties::{
    ascii_property, ascii_token_bits, char_info, CharInfo, WordBreakProperty,
};
use crate::uax29::word::token::{
    lemma_masks, lemma_or, TokenProperties, HAS_ASCII_UPPER_MASK, WORD_LIKE_MASK,
};
use crate::uax29::word::transitions::{ignorable, state_alone, table, State};
use vstd::prelude::*;
use vstd::utf8::{encode_utf8, is_ascii_chars, is_ascii_chars_encode_utf8};

verus! {

/// Marks the bytes that continue a word in [`ascii_byte_info`].
pub const ASCII_WORD_CONTINUE: u8 = 0b1000_0000;

/// Is the byte part of a word-like run: one of `[a-zA-Z0-9_]`?
pub open spec fn word_byte(b: u8) -> bool {
    let p = ascii_property(b);
    p is ALetter || p is Numeric || p is ExtendNumLet
}

/// What the tokenizers keep of an ASCII byte: [`ASCII_WORD_CONTINUE`] if it continues a word, and
/// what it says about the token it is in. An underscore continues a word but is not word-like.
pub open spec fn byte_info(b: u8) -> u8 {
    if word_byte(b) {
        ASCII_WORD_CONTINUE | ascii_token_bits(b)
    } else {
        0
    }
}

pub fn ascii_byte_info(b: u8) -> (info: u8)
    ensures
        info == byte_info(b),
{
    proof {
        lemma_or(ASCII_WORD_CONTINUE, WORD_LIKE_MASK, HAS_ASCII_UPPER_MASK);
    }
    match b {
        0x61..=0x7a | 0x30..=0x39 => ASCII_WORD_CONTINUE | WORD_LIKE_MASK,
        0x41..=0x5a => ASCII_WORD_CONTINUE | WORD_LIKE_MASK | HAS_ASCII_UPPER_MASK,
        0x5f => ASCII_WORD_CONTINUE,
        _ => 0,
    }
}

/// The two parts of a byte's info, also of several bytes joined.
pub proof fn lemma_byte_info(acc: u8, b: u8)
    ensures
        0u8 & !ASCII_WORD_CONTINUE == 0,
        (byte_info(b) & ASCII_WORD_CONTINUE == 0) == !word_byte(b),
        byte_info(b) & !ASCII_WORD_CONTINUE == ascii_token_bits(b),
        (acc | byte_info(b)) & !ASCII_WORD_CONTINUE == (acc & !ASCII_WORD_CONTINUE)
            | ascii_token_bits(b),
{
    let t = ascii_token_bits(b);
    let i = byte_info(b);
    lemma_masks();
    assert((0x80u8 | t) & 0x80u8 != 0 && (0x80u8 | t) & !0x80u8 == t && 0u8 & 0x80u8 == 0 && 0u8
        & !0x80u8 == 0 && (acc | i) & !0x80u8 == (acc & !0x80u8) | (i & !0x80u8)) by (bit_vector)
        requires
            t == 0 || t == 1 || t == 5,
    ;
}

/// What the bytes from `i` up to `j` say about the token they are in.
pub open spec fn run_bits(bytes: Seq<u8>, i: int, j: int) -> u8
    decreases j - i,
{
    if i >= j {
        0
    } else {
        run_bits(bytes, i, j - 1) | ascii_token_bits(bytes[j - 1])
    }
}

/// The end of the run of word bytes that starts at `start`, and what the run says about its token.
pub fn scan_word(bytes: &[u8], start: usize) -> (run: (usize, u8))
    requires
        start <= bytes@.len(),
    ensures
        start <= run.0 <= bytes@.len(),
        forall|i: int| start <= i < run.0 ==> #[trigger] bytes@[i] < 0x80 && word_byte(bytes@[i]),
        run.0 < bytes@.len() ==> !(bytes@[run.0 as int] < 0x80 && word_byte(
            bytes@[run.0 as int],
        )),
        run.1 == run_bits(bytes@, start as int, run.0 as int),
{
    let mut pos: usize = start;
    let mut fast_acc: u8 = 0;
    proof {
        lemma_byte_info(0, 0);
    }
    while pos < bytes.len() && bytes[pos] < 0x80
        invariant
            start <= pos <= bytes@.len(),
            forall|i: int| start <= i < pos ==> #[trigger] bytes@[i] < 0x80 && word_byte(bytes@[i]),
            fast_acc & !ASCII_WORD_CONTINUE == run_bits(bytes@, start as int, pos as int),
        ensures
            pos < bytes@.len() ==> !(bytes@[pos as int] < 0x80 && word_byte(bytes@[pos as int])),
        decreases bytes@.len() - pos,
    {
        let info: u8 = ascii_byte_info(bytes[pos]);
        proof {
            lemma_byte_info(fast_acc, bytes@[pos as int]);
        }
        if info & ASCII_WORD_CONTINUE == 0 {
            break;
        }
        fast_acc = fast_acc | info;
        pos = pos + 1;
    }
    (pos, fast_acc & !ASCII_WORD_CONTINUE)
}

// ---------------------------------------------------------------------------------------------
// The rules that apply to ASCII
// ---------------------------------------------------------------------------------------------

/// Do the rules keep `current` together with `previous1`, where `previous2` comes before that and
/// `next` behind `current`? These are the rules that apply where no character is looked through:
/// `Other` stands for a neighbour that is not there.
pub open spec fn ascii_joined(
    previous2: WordBreakProperty,
    previous1: WordBreakProperty,
    current: WordBreakProperty,
    next: WordBreakProperty,
) -> bool {
    // WB3
    ||| previous1 is CR && current is LF
    // WB3d

    ||| previous1 is WSegSpace && current is WSegSpace
    // WB5, WB8, WB9, WB10, WB13a, WB13b

    ||| word_property(previous1) && word_property(current)
    // WB6, WB7

    ||| previous1 is ALetter && letter_bridge(current) && next is ALetter
    ||| previous2 is ALetter && letter_bridge(previous1) && current is ALetter
    // WB12, WB11

    ||| previous1 is Numeric && digit_bridge(current) && next is Numeric
    ||| previous2 is Numeric && digit_bridge(previous1) && current is Numeric
}

/// Letters, digits and connectors: no boundary falls between any two of them.
pub open spec fn word_property(p: WordBreakProperty) -> bool {
    p is ALetter || p is Numeric || p is ExtendNumLet
}

/// Punctuation that belongs to a word between two letters.
pub open spec fn letter_bridge(p: WordBreakProperty) -> bool {
    p is MidLetter || p is MidNumLet || p is SingleQuote
}

/// Punctuation that belongs to a number between two digits.
pub open spec fn digit_bridge(p: WordBreakProperty) -> bool {
    p is MidNum || p is MidNumLet || p is SingleQuote
}

/// All the ASCII break rules: is there a boundary between `previous1` and `current`?
pub fn ascii_is_break(
    previous2: WordBreakProperty,
    previous1: WordBreakProperty,
    current: WordBreakProperty,
    next: WordBreakProperty,
) -> (yes: bool)
    ensures
        yes == !ascii_joined(previous2, previous1, current, next),
{
    let do_not_break = (previous1 == WordBreakProperty::CR && current == WordBreakProperty::LF) || (
    previous1 == WordBreakProperty::WSegSpace && current == WordBreakProperty::WSegSpace) || (
    matches!(
        previous1,
        WordBreakProperty::ALetter | WordBreakProperty::Numeric | WordBreakProperty::ExtendNumLet
    ) && matches!(
        current,
        WordBreakProperty::ALetter | WordBreakProperty::Numeric | WordBreakProperty::ExtendNumLet
    )) || (previous1 == WordBreakProperty::ALetter && matches!(
        current,
        WordBreakProperty::MidLetter | WordBreakProperty::MidNumLet | WordBreakProperty::SingleQuote
    ) && next == WordBreakProperty::ALetter) || (previous1 == WordBreakProperty::Numeric
        && matches!(
        current,
        WordBreakProperty::MidNum | WordBreakProperty::MidNumLet | WordBreakProperty::SingleQuote
    ) && next == WordBreakProperty::Numeric) || (previous2 == WordBreakProperty::ALetter
        && matches!(
        previous1,
        WordBreakProperty::MidLetter | WordBreakProperty::MidNumLet | WordBreakProperty::SingleQuote
    ) && current == WordBreakProperty::ALetter) || (previous2 == WordBreakProperty::Numeric
        && matches!(
        previous1,
        WordBreakProperty::MidNum | WordBreakProperty::MidNumLet | WordBreakProperty::SingleQuote
    ) && current == WordBreakProperty::Numeric);
    !do_not_break
}

/// Has the character a property that ASCII characters can have? Then no rule looks through it.
pub open spec fn plain(c: CharInfo) -> bool {
    &&& !c.pictographic
    &&& !ignorable(c.prop)
    &&& !(c.prop is HebrewLetter)
    &&& !(c.prop is Katakana)
    &&& !(c.prop is RegionalIndicator)
}

/// The property of the `j`-th character, `Other` if there is none.
pub open spec fn property_at(cs: Seq<CharInfo>, j: int) -> WordBreakProperty {
    if 0 <= j < cs.len() {
        cs[j].prop
    } else {
        WordBreakProperty::Other
    }
}

/// The state after two plain characters does not depend on what came before them.
pub open spec fn state_after_two(p2: WordBreakProperty, p1: WordBreakProperty) -> State {
    table(state_alone(p2), p1).0
}

proof fn lemma_two_plain(m: Mode, c2: CharInfo, c1: CharInfo)
    requires
        plain(c2),
        plain(c1),
    ensures
        advance(advance(m, c2), c1) == (Mode {
            state: state_after_two(c2.prop, c1.prop),
            zwj: false,
        }),
{
}

/// Two plain characters are all that the automaton remembers.
pub proof fn law_two_plain_characters_fix_the_state(cs: Seq<CharInfo>, k: int)
    requires
        0 < k <= cs.len(),
        plain(cs[k - 1]),
        k >= 2 ==> plain(cs[k - 2]),
    ensures
        mode(cs, k) == (Mode {
            state: if k >= 2 {
                state_after_two(cs[k - 2].prop, cs[k - 1].prop)
            } else {
                state_alone(cs[k - 1].prop)
            },
            zwj: false,
        }),
{
    assert(mode(cs, k) == advance(mode(cs, k - 1), cs[k - 1]));
    if k >= 2 {
        assert(mode(cs, k - 1) == advance(mode(cs, k - 2), cs[k - 2]));
        lemma_two_plain(mode(cs, k - 2), cs[k - 2], cs[k - 1]);
    } else {
        assert(mode(cs, 0) == Mode { state: State::StartOfText, zwj: false });
    }
}

/// Among plain characters, whether there is a boundary can be seen from the two characters before
/// it and the two behind it.
pub proof fn law_plain_boundaries_are_local(cs: Seq<CharInfo>, k: int)
    requires
        0 < k < cs.len(),
        forall|j: int| k - 2 <= j <= k + 1 && 0 <= j < cs.len() ==> plain(#[trigger] cs[j]),
    ensures
        boundary(cs, k) == !ascii_joined(
            property_at(cs, k - 2),
            property_at(cs, k - 1),
            property_at(cs, k),
            property_at(cs, k + 1),
        ),
{
    law_two_plain_characters_fix_the_state(cs, k);
    law_automaton_follows_the_standard(cs, k);
    assert(plain(cs[k]));
    if k + 1 < cs.len() {
        assert(plain(cs[k + 1]));
    }
}

// ---------------------------------------------------------------------------------------------
// ASCII bytes as characters
// ---------------------------------------------------------------------------------------------

/// What the tokenizers know of an ASCII character.
pub open spec fn ascii_info(b: u8) -> CharInfo {
    CharInfo {
        prop: ascii_property(b),
        pictographic: false,
        props: TokenProperties(ascii_token_bits(b)),
        len: 1,
    }
}

/// ASCII characters are plain.
pub proof fn lemma_ascii_info(c: char)
    requires
        (c as u32) < 0x80,
    ensures
        char_info(c) == ascii_info(c as u8),
        plain(ascii_info(c as u8)),
{
}

/// In ASCII text, characters and bytes are the same.
pub proof fn lemma_ascii_text(text: Seq<char>)
    requires
        is_ascii_chars(text),
    ensures
        encode_utf8(text).len() == text.len(),
        forall|i: int|
            0 <= i < text.len() ==> (#[trigger] infos(text)[i] == ascii_info(encode_utf8(text)[i])
                && plain(infos(text)[i]) && encode_utf8(text)[i] < 0x80),
        forall|i: int| 0 <= i <= text.len() ==> #[trigger] offset(infos(text), i) == i,
{
    is_ascii_chars_encode_utf8(text);
    assert forall|i: int| 0 <= i < text.len() implies (#[trigger] infos(text)[i] == ascii_info(
        encode_utf8(text)[i],
    ) && plain(infos(text)[i]) && encode_utf8(text)[i] < 0x80) by {
        lemma_ascii_info(text[i]);
        assert(text[i] as u8 == encode_utf8(text)[i]);
    }
    assert forall|i: int| 0 <= i <= text.len() implies #[trigger] offset(infos(text), i) == i by {
        lemma_ascii_offset(text, i);
    }
}

proof fn lemma_ascii_offset(text: Seq<char>, i: int)
    requires
        is_ascii_chars(text),
        0 <= i <= text.len(),
    ensures
        offset(infos(text), i) == i,
    decreases i,
{
    if i > 0 {
        lemma_ascii_offset(text, i - 1);
        assert('\0' <= text[i - 1] <= '\u{7f}');
        lemma_ascii_info(text[i - 1]);
    }
}

} // verus!
