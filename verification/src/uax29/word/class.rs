//! One byte per ASCII character that answers every rule.

use crate::uax29::word::ascii::{
    ascii_byte_info, ascii_joined, digit_bridge, lemma_byte_info, letter_bridge, word_property,
};
use crate::uax29::word::properties::{
    ascii_property, ascii_token_bits, ascii_word_break_prop, WordBreakProperty,
};
use crate::uax29::word::token::{HAS_ASCII_UPPER_MASK, WORD_LIKE_MASK};
use vstd::prelude::*;

verus! {

/// `ALetter`.
pub const LETTER: u8 = 0b0000_0001;

/// `MidNum`, `MidNumLet` or `SingleQuote`.
pub const MID_NUM: u8 = 0b0000_0010;

/// `ALetter`, `Numeric` or `ExtendNumLet`.
pub const EXTEND: u8 = 0b0000_0100;

/// `MidLetter`, `MidNumLet` or `SingleQuote`.
pub const MID_LET: u8 = 0b0000_1000;

/// `Numeric`.
pub const NUMERIC: u8 = 0b0001_0000;

pub const CARRIAGE_RETURN: u8 = 0b0010_0000;

pub const LINE_FEED: u8 = 0b0100_0000;

/// `WSegSpace`.
pub const SPACE: u8 = 0b1000_0000;

/// The class byte of an ASCII character with this property.
pub open spec fn class_of_property(p: WordBreakProperty) -> u8 {
    match p {
        WordBreakProperty::ALetter => 0b0000_0101,
        WordBreakProperty::Numeric => 0b0001_0100,
        WordBreakProperty::ExtendNumLet => 0b0000_0100,
        WordBreakProperty::MidLetter => 0b0000_1000,
        WordBreakProperty::MidNum => 0b0000_0010,
        WordBreakProperty::MidNumLet | WordBreakProperty::SingleQuote => 0b0000_1010,
        WordBreakProperty::CR => 0b0010_0000,
        WordBreakProperty::LF => 0b0100_0000,
        WordBreakProperty::WSegSpace => 0b1000_0000,
        _ => 0,
    }
}

/// The class byte of an ASCII byte.
pub open spec fn class_byte(b: u8) -> u8 {
    class_of_property(ascii_property(b))
}

/// Has the class byte this bit?
pub open spec fn has(class: u8, bit: u8) -> bool {
    class & bit != 0
}

/// The rules that keep a character of class `t0` together with one of class `t1`, where one of class
/// `t2` comes before that and one of class `tn` behind. A class of 0 matches no rule.
pub open spec fn joined_class(t2: u8, t1: u8, t0: u8, tn: u8) -> bool {
    ||| has(t1, LETTER) && has(t0, MID_LET) && has(tn, LETTER)
    ||| has(t2, LETTER) && has(t1, MID_LET) && has(t0, LETTER)
    ||| has(t1, NUMERIC) && has(t0, MID_NUM) && has(tn, NUMERIC)
    ||| has(t2, NUMERIC) && has(t1, MID_NUM) && has(t0, NUMERIC)
    ||| has(t1, EXTEND) && has(t0, EXTEND)
    ||| has(t1, CARRIAGE_RETURN) && has(t0, LINE_FEED)
    ||| has(t1, SPACE) && has(t0, SPACE)
}

/// What the bits of a class byte mean.
pub proof fn lemma_class_bits(p: WordBreakProperty)
    ensures
        has(class_of_property(p), LETTER) == p is ALetter,
        has(class_of_property(p), MID_NUM) == digit_bridge(p),
        has(class_of_property(p), EXTEND) == word_property(p),
        has(class_of_property(p), MID_LET) == letter_bridge(p),
        has(class_of_property(p), NUMERIC) == p is Numeric,
        has(class_of_property(p), CARRIAGE_RETURN) == p is CR,
        has(class_of_property(p), LINE_FEED) == p is LF,
        has(class_of_property(p), SPACE) == p is WSegSpace,
{
    let t = class_of_property(p);
    assert((has(t, LETTER) == (t == 5)) && (has(t, MID_NUM) == (t == 2 || t == 10)) && (has(
        t,
        EXTEND,
    ) == (t == 5 || t == 20 || t == 4)) && (has(t, MID_LET) == (t == 8 || t == 10)) && (has(
        t,
        NUMERIC,
    ) == (t == 20)) && (has(t, CARRIAGE_RETURN) == (t == 32)) && (has(t, LINE_FEED) == (t == 64))
        && (has(t, SPACE) == (t == 128))) by (bit_vector)
        requires
            t == 5 || t == 20 || t == 4 || t == 8 || t == 2 || t == 10 || t == 32 || t == 64 || t
                == 128 || t == 0,
    ;
}

/// The class bytes decide as the properties do.
pub proof fn law_classes_decide_as_properties(
    p2: WordBreakProperty,
    p1: WordBreakProperty,
    p0: WordBreakProperty,
    pn: WordBreakProperty,
)
    ensures
        joined_class(
            class_of_property(p2),
            class_of_property(p1),
            class_of_property(p0),
            class_of_property(pn),
        ) == ascii_joined(p2, p1, p0, pn),
{
    lemma_class_bits(p2);
    lemma_class_bits(p1);
    lemma_class_bits(p0);
    lemma_class_bits(pn);
}

fn bit(set: bool, mask: u8) -> (r: u8)
    ensures
        r == if set {
            mask
        } else {
            0
        },
{
    if set {
        mask
    } else {
        0
    }
}

/// The class byte of an ASCII byte.
pub fn ascii_custom_byte(b: u8) -> (class: u8)
    ensures
        class == class_byte(b),
{
    let p = ascii_word_break_prop(b);
    let letter: u8 = bit(matches!(p, WordBreakProperty::ALetter), LETTER);
    let mid_num: u8 = bit(
        matches!(
            p,
            WordBreakProperty::MidNum | WordBreakProperty::MidNumLet
                | WordBreakProperty::SingleQuote
        ),
        MID_NUM,
    );
    let extend: u8 = bit(
        matches!(
            p,
            WordBreakProperty::ALetter | WordBreakProperty::Numeric
                | WordBreakProperty::ExtendNumLet
        ),
        EXTEND,
    );
    let mid_let: u8 = bit(
        matches!(
            p,
            WordBreakProperty::MidLetter | WordBreakProperty::MidNumLet
                | WordBreakProperty::SingleQuote
        ),
        MID_LET,
    );
    let numeric: u8 = bit(matches!(p, WordBreakProperty::Numeric), NUMERIC);
    let cr: u8 = bit(matches!(p, WordBreakProperty::CR), CARRIAGE_RETURN);
    let lf: u8 = bit(matches!(p, WordBreakProperty::LF), LINE_FEED);
    let wseg: u8 = bit(matches!(p, WordBreakProperty::WSegSpace), SPACE);
    let class: u8 = letter | mid_num | extend | mid_let | numeric | cr | lf | wseg;
    assert(class == ((letter + mid_num + extend + mid_let + numeric + cr + lf + wseg) as u8))
        by (bit_vector)
        requires
            letter == 0 || letter == 1,
            mid_num == 0 || mid_num == 2,
            extend == 0 || extend == 4,
            mid_let == 0 || mid_let == 8,
            numeric == 0 || numeric == 16,
            cr == 0 || cr == 32,
            lf == 0 || lf == 64,
            wseg == 0 || wseg == 128,
            class == letter | mid_num | extend | mid_let | numeric | cr | lf | wseg,
    ;
    class
}

/// The class bytes of all 128 ASCII bytes.
pub fn ascii_custom_byte_table() -> (table: [u8; 128])
    ensures
        forall|b: int| 0 <= b < 128 ==> #[trigger] table@[b] == class_byte(b as u8),
{
    let mut table: [u8; 128] = [0u8; 128];
    let mut i: usize = 0;
    while i < 128
        invariant
            i <= 128,
            forall|b: int| 0 <= b < i ==> #[trigger] table@[b] == class_byte(b as u8),
        decreases 128 - i,
    {
        table[i] = ascii_custom_byte(i as u8);
        i = i + 1;
    }
    table
}

/// The class byte of an ASCII byte, with two more bits: word-like, and uppercase.
pub open spec fn class_word(b: u8) -> u16 {
    (class_byte(b) as u16) | (if has(ascii_token_bits(b), WORD_LIKE_MASK) {
        0x100u16
    } else {
        0
    }) | (if has(ascii_token_bits(b), HAS_ASCII_UPPER_MASK) {
        0x200u16
    } else {
        0
    })
}

pub fn ascii_custom(b: u8) -> (class: u16)
    ensures
        class == class_word(b),
{
    let info: u8 = ascii_byte_info(b);
    let word_like: u16 = (info & WORD_LIKE_MASK) as u16;
    let ascii_upper: u16 = ((info & HAS_ASCII_UPPER_MASK) >> 2) as u16;
    proof {
        lemma_byte_info(0, b);
        let t = ascii_token_bits(b);
        assert((info & 1u8 == if t & 1u8 != 0 {
            1u8
        } else {
            0u8
        }) && ((info & 4u8) >> 2 == if t & 4u8 != 0 {
            1u8
        } else {
            0u8
        })) by (bit_vector)
            requires
                info & !0x80u8 == t,
        ;
        assert(1u16 << 8 == 0x100u16 && 0u16 << 8 == 0 && 1u16 << 9 == 0x200u16 && 0u16 << 9 == 0)
            by (bit_vector);
    }
    (ascii_custom_byte(b) as u16) | (word_like << 8) | (ascii_upper << 9)
}

} // verus!
