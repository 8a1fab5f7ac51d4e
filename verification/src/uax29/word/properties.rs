//! The `Word_Break` property of characters, and what a character says about the token it is in.

use crate::uax29::word::token::{
    lemma_masks, TokenProperties, HAS_ASCII_UPPER_MASK, NON_ASCII_MASK, WORD_LIKE_MASK,
};
use vstd::prelude::*;

verus! {

/// The values of the Unicode property `Word_Break`.
#[derive(Copy, Clone, Debug, PartialEq, Eq, Structural)]
pub enum WordBreakProperty {
    Other,
    ALetter,
    CR,
    DoubleQuote,
    Extend,
    ExtendNumLet,
    Format,
    HebrewLetter,
    Katakana,
    LF,
    MidLetter,
    MidNum,
    MidNumLet,
    Newline,
    Numeric,
    RegionalIndicator,
    SingleQuote,
    WSegSpace,
    ZWJ,
}

// ---------------------------------------------------------------------------------------------
// Character data of `icu_properties`
// ---------------------------------------------------------------------------------------------

/// The number that `icu_properties` has for the `Word_Break` value of `c`.
pub uninterp spec fn word_break_code(c: char) -> u16;

/// The number that `icu_properties` has for the `Script` value of `c`.
pub uninterp spec fn script_code(c: char) -> u16;

/// The number that `icu_properties` has for the `General_Category` value of `c`.
pub uninterp spec fn general_category_code(c: char) -> u8;

/// Does `icu_properties` list `c` as `Ideographic`?
pub uninterp spec fn ideographic(c: char) -> bool;

/// Does `icu_properties` list `c` as `Extended_Pictographic`?
pub uninterp spec fn extended_pictographic(c: char) -> bool;

/// Calls `icu_properties::CodePointMapData::<WordBreak>::get`. Claims that the number of the value
/// depends on the character alone.
#[verifier::external_body]
fn icu_word_break(c: char) -> (code: u16)
    ensures
        code == word_break_code(c),
{
    u16::from(icu_properties::CodePointMapData::<icu_properties::props::WordBreak>::new().get(c))
}

/// Calls `icu_properties::CodePointMapData::<Script>::get`. Claims that the number of the value
/// depends on the character alone.
#[verifier::external_body]
fn icu_script(c: char) -> (code: u16)
    ensures
        code == script_code(c),
{
    u16::from(icu_properties::CodePointMapData::<icu_properties::props::Script>::new().get(c))
}

/// Calls `icu_properties::CodePointMapData::<GeneralCategory>::get`. Claims that the number of the
/// value depends on the character alone.
#[verifier::external_body]
fn icu_general_category(c: char) -> (code: u8)
    ensures
        code == general_category_code(c),
{
    icu_properties::CodePointMapData::<icu_properties::props::GeneralCategory>::new().get(c) as u8
}

/// Calls `icu_properties::CodePointSetData::contains` on the set of `Ideographic`. Claims that the
/// answer depends on the character alone.
#[verifier::external_body]
fn icu_ideographic(c: char) -> (yes: bool)
    ensures
        yes == ideographic(c),
{
    icu_properties::CodePointSetData::new::<icu_properties::props::Ideographic>().contains(c)
}

/// Calls `icu_properties::CodePointSetData::contains` on the set of `Extended_Pictographic`. Claims
/// that the answer depends on the character alone.
#[verifier::external_body]
fn icu_extended_pictographic(c: char) -> (yes: bool)
    ensures
        yes == extended_pictographic(c),
{
    icu_properties::CodePointSetData::new::<
        icu_properties::props::ExtendedPictographic,
    >().contains(c)
}

// ---------------------------------------------------------------------------------------------
// Classification
// ---------------------------------------------------------------------------------------------

/// The numbers of `Script` values that belong to no writing system in particular.
pub const SCRIPT_COMMON: u16 = 0;

pub const SCRIPT_INHERITED: u16 = 1;

pub const SCRIPT_UNKNOWN: u16 = 103;

/// The number of the `General_Category` value `Other_Number`.
pub const CATEGORY_OTHER_NUMBER: u8 = 11;

/// The `Word_Break` value behind a number of `icu_properties`. Numbers without a value of their own
/// (some are reserved for values that no character has any more) stand for `Other`.
pub open spec fn property_of_code(code: u16) -> WordBreakProperty {
    match code {
        1 => WordBreakProperty::ALetter,
        2 => WordBreakProperty::Format,
        3 => WordBreakProperty::Katakana,
        4 => WordBreakProperty::MidLetter,
        5 => WordBreakProperty::MidNum,
        6 => WordBreakProperty::Numeric,
        7 => WordBreakProperty::ExtendNumLet,
        8 => WordBreakProperty::CR,
        9 => WordBreakProperty::Extend,
        10 => WordBreakProperty::LF,
        11 => WordBreakProperty::MidNumLet,
        12 => WordBreakProperty::Newline,
        13 => WordBreakProperty::RegionalIndicator,
        14 => WordBreakProperty::HebrewLetter,
        15 => WordBreakProperty::SingleQuote,
        16 => WordBreakProperty::DoubleQuote,
        21 => WordBreakProperty::ZWJ,
        22 => WordBreakProperty::WSegSpace,
        _ => WordBreakProperty::Other,
    }
}

/// Is a character with these properties word-like on its own account: a pictograph, an ideograph,
/// a number that is neither digit nor letter (`\u{2466}`, `\u{b2}`, `\u{bc}`), or a character of a
/// real writing system?
pub open spec fn strictly_word_like(
    pictographic: bool,
    ideographic: bool,
    category: u8,
    script: u16,
) -> bool {
    ||| pictographic
    ||| ideographic
    ||| category == CATEGORY_OTHER_NUMBER
    ||| (script != SCRIPT_COMMON && script != SCRIPT_INHERITED && script != SCRIPT_UNKNOWN)
}

/// The `Word_Break` value of an ASCII byte.
pub open spec fn ascii_property(b: u8) -> WordBreakProperty {
    if b == 0x0a {
        WordBreakProperty::LF
    } else if b == 0x0b || b == 0x0c {
        WordBreakProperty::Newline
    } else if b == 0x0d {
        WordBreakProperty::CR
    } else if b == 0x20 {
        WordBreakProperty::WSegSpace
    } else if b == 0x22 {
        WordBreakProperty::DoubleQuote
    } else if b == 0x27 {
        WordBreakProperty::SingleQuote
    } else if b == 0x2c || b == 0x3b {
        WordBreakProperty::MidNum
    } else if b == 0x2e {
        WordBreakProperty::MidNumLet
    } else if 0x30 <= b <= 0x39 {
        WordBreakProperty::Numeric
    } else if b == 0x3a {
        WordBreakProperty::MidLetter
    } else if 0x41 <= b <= 0x5a || 0x61 <= b <= 0x7a {
        WordBreakProperty::ALetter
    } else if b == 0x5f {
        WordBreakProperty::ExtendNumLet
    } else {
        WordBreakProperty::Other
    }
}

/// What an ASCII byte says about the token it is in: word-like if it is a letter or a digit, and
/// whether it is uppercase.
pub open spec fn ascii_token_bits(b: u8) -> u8 {
    if 0x41 <= b <= 0x5a {
        WORD_LIKE_MASK | HAS_ASCII_UPPER_MASK
    } else if 0x61 <= b <= 0x7a || 0x30 <= b <= 0x39 {
        WORD_LIKE_MASK
    } else {
        0
    }
}

/// Is every character with this `Word_Break` value word-like? Katakana is left out: its characters
/// are letters but for the prolonged sound mark, which no script claims.
pub open spec fn word_like_property(prop: WordBreakProperty) -> bool {
    prop is ALetter || prop is HebrewLetter || prop is Numeric
}

/// What a character outside ASCII says about the token it is in.
pub open spec fn non_ascii_token_bits(prop: WordBreakProperty, strict: bool) -> u8 {
    if word_like_property(prop) || strict {
        NON_ASCII_MASK | WORD_LIKE_MASK
    } else {
        NON_ASCII_MASK
    }
}

/// What the tokenizers know of a character.
#[derive(Copy, Clone, Debug, PartialEq, Eq, Structural)]
pub struct CharInfo {
    pub prop: WordBreakProperty,
    pub pictographic: bool,
    /// What the character says about the token it is in.
    pub props: TokenProperties,
    /// The length of its UTF-8 encoding.
    pub len: usize,
}

/// The length of the UTF-8 encoding of a character.
pub open spec fn utf8_len(c: char) -> usize {
    if (c as u32) < 0x80 {
        1
    } else if (c as u32) < 0x800 {
        2
    } else if (c as u32) < 0x10000 {
        3
    } else {
        4
    }
}

/// The `Word_Break` value of a character.
pub open spec fn property_of(c: char) -> WordBreakProperty {
    if (c as u32) < 0x80 {
        ascii_property(c as u8)
    } else {
        property_of_code(word_break_code(c))
    }
}

/// Is the character `Extended_Pictographic`? No ASCII character is.
pub open spec fn pictographic(c: char) -> bool {
    (c as u32) >= 0x80 && extended_pictographic(c)
}

/// Is the character word-like whatever its `Word_Break` value?
pub open spec fn word_like_strict(c: char) -> bool {
    strictly_word_like(
        extended_pictographic(c),
        ideographic(c),
        general_category_code(c),
        script_code(c),
    )
}

pub open spec fn char_info(c: char) -> CharInfo {
    CharInfo {
        prop: property_of(c),
        pictographic: pictographic(c),
        props: TokenProperties(
            if (c as u32) < 0x80 {
                ascii_token_bits(c as u8)
            } else {
                non_ascii_token_bits(property_of(c), word_like_strict(c))
            },
        ),
        len: utf8_len(c),
    }
}

/// The `Word_Break` value behind a number of `icu_properties`.
pub fn word_break_property_from_code(code: u16) -> (prop: WordBreakProperty)
    ensures
        prop == property_of_code(code),
{
    match code {
        1 => WordBreakProperty::ALetter,
        2 => WordBreakProperty::Format,
        3 => WordBreakProperty::Katakana,
        4 => WordBreakProperty::MidLetter,
        5 => WordBreakProperty::MidNum,
        6 => WordBreakProperty::Numeric,
        7 => WordBreakProperty::ExtendNumLet,
        8 => WordBreakProperty::CR,
        9 => WordBreakProperty::Extend,
        10 => WordBreakProperty::LF,
        11 => WordBreakProperty::MidNumLet,
        12 => WordBreakProperty::Newline,
        13 => WordBreakProperty::RegionalIndicator,
        14 => WordBreakProperty::HebrewLetter,
        15 => WordBreakProperty::SingleQuote,
        16 => WordBreakProperty::DoubleQuote,
        21 => WordBreakProperty::ZWJ,
        22 => WordBreakProperty::WSegSpace,
        _ => WordBreakProperty::Other,
    }
}

/// The `Word_Break` value of a character outside ASCII.
pub fn lookup_word_break_property_from_dictionary(c: char) -> (prop: WordBreakProperty)
    ensures
        prop == property_of_code(word_break_code(c)),
{
    word_break_property_from_code(icu_word_break(c))
}

/// Is a character with these properties word-like on its own account?
pub fn is_word_like_by_data(
    pictographic: bool,
    ideographic: bool,
    category: u8,
    script: u16,
) -> (yes: bool)
    ensures
        yes == strictly_word_like(pictographic, ideographic, category, script),
{
    pictographic || ideographic || category == CATEGORY_OTHER_NUMBER || (script != SCRIPT_COMMON
        && script != SCRIPT_INHERITED && script != SCRIPT_UNKNOWN)
}

/// Is the character word-like whatever its `Word_Break` value?
pub fn is_word_like_strict(c: char) -> (yes: bool)
    ensures
        yes == word_like_strict(c),
{
    is_word_like_by_data(
        icu_extended_pictographic(c),
        icu_ideographic(c),
        icu_general_category(c),
        icu_script(c),
    )
}

impl WordBreakProperty {
    /// Is the character `Extended_Pictographic`?
    pub fn is_ext_pictographic(c: char) -> (yes: bool)
        ensures
            yes == pictographic(c),
    {
        (c as u32) >= 0x80 && icu_extended_pictographic(c)
    }
}

/// The `Word_Break` value of an ASCII byte.
pub fn ascii_word_break_prop(b: u8) -> (prop: WordBreakProperty)
    ensures
        prop == ascii_property(b),
{
    match b {
        0x41..=0x5a | 0x61..=0x7a => WordBreakProperty::ALetter,
        0x30..=0x39 => WordBreakProperty::Numeric,
        0x20 => WordBreakProperty::WSegSpace,
        0x0a => WordBreakProperty::LF,
        0x0d => WordBreakProperty::CR,
        0x0b | 0x0c => WordBreakProperty::Newline,
        0x22 => WordBreakProperty::DoubleQuote,
        0x27 => WordBreakProperty::SingleQuote,
        0x2c | 0x3b => WordBreakProperty::MidNum,
        0x2e => WordBreakProperty::MidNumLet,
        0x3a => WordBreakProperty::MidLetter,
        0x5f => WordBreakProperty::ExtendNumLet,
        _ => WordBreakProperty::Other,
    }
}

/// What the `Word_Break` value of a character alone says about the token it is in.
pub fn word_break_contrib(prop: WordBreakProperty) -> (props: TokenProperties)
    ensures
        props == TokenProperties(
            if word_like_property(prop) {
                WORD_LIKE_MASK
            } else {
                0
            },
        ),
{
    match prop {
        WordBreakProperty::ALetter
        | WordBreakProperty::HebrewLetter
        | WordBreakProperty::Numeric => TokenProperties(WORD_LIKE_MASK),
        _ => TokenProperties(0),
    }
}

/// What a character outside ASCII, with this `Word_Break` value, says about the token it is in.
pub fn non_ascii_char_props(c: char, prop: WordBreakProperty) -> (props: TokenProperties)
    ensures
        props == TokenProperties(non_ascii_token_bits(prop, word_like_strict(c))),
{
    proof {
        lemma_masks();
    }
    let mut props = TokenProperties(NON_ASCII_MASK);
    core::ops::BitOrAssign::bitor_assign(&mut props, word_break_contrib(prop));
    if !props.is_word_like() && is_word_like_strict(c) {
        core::ops::BitOrAssign::bitor_assign(&mut props, TokenProperties(WORD_LIKE_MASK));
    }
    props
}

} // verus!
