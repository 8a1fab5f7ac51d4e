//! Tokenizer options and the properties that are reported with each token.

use vstd::prelude::*;

verus! {

/// For backwards compatibility, require caller to pass in options struct.
#[derive(Clone, Copy, Debug)]
#[non_exhaustive]
pub struct Options {}

impl Default for Options {
    fn default() -> (options: Self)
        ensures
            options == (Options {  }),
    {
        Options {  }
    }
}

/// Facts about the characters of a token, one bit each; the bits of a token are those of its
/// characters, joined.
///
/// - Bit 0 is set by a character that makes the token "word-like".
/// - Bit 1 is set by a character outside ASCII.
/// - Bit 2 is set by an ASCII uppercase letter.
#[derive(Copy, Clone, Debug, PartialEq, Eq, Structural)]
pub struct TokenProperties(pub u8);

impl Default for TokenProperties {
    fn default() -> (props: Self)
        ensures
            props == TokenProperties(0),
    {
        TokenProperties(0)
    }
}

pub const WORD_LIKE_MASK: u8 = 0b0000_0001;

pub const NON_ASCII_MASK: u8 = 0b0000_0010;

pub const HAS_ASCII_UPPER_MASK: u8 = 0b0000_0100;

/// Joining bits.
pub proof fn lemma_or(x: u8, y: u8, z: u8)
    by (bit_vector)
    ensures
        x | 0 == x,
        0 | x == x,
        (x | y) | z == x | (y | z),
        x < 8 && y < 8 ==> x | y < 8,
{
}

/// The masks do not overlap.
pub proof fn lemma_masks()
    by (bit_vector)
    ensures
        WORD_LIKE_MASK | HAS_ASCII_UPPER_MASK == 5,
        NON_ASCII_MASK | WORD_LIKE_MASK == 3,
        NON_ASCII_MASK | 0 == NON_ASCII_MASK,
        NON_ASCII_MASK & WORD_LIKE_MASK == 0,
        (NON_ASCII_MASK | WORD_LIKE_MASK) & WORD_LIKE_MASK != 0,
{
}

impl TokenProperties {
    /// Does the token contain a letter, a digit, an ideograph, a pictograph or any other character
    /// of a real writing system?
    pub fn is_word_like(&self) -> (yes: bool)
        ensures
            yes == (self.0 & WORD_LIKE_MASK != 0),
    {
        self.0 & WORD_LIKE_MASK != 0
    }

    /// Is every character of the token ASCII? True of the empty token.
    pub fn is_ascii(&self) -> (yes: bool)
        ensures
            yes == (self.0 & NON_ASCII_MASK == 0),
    {
        self.0 & NON_ASCII_MASK == 0
    }

    /// Does the token contain one of `A` to `Z`? False of the empty token.
    pub fn has_ascii_upper(&self) -> (yes: bool)
        ensures
            yes == (self.0 & HAS_ASCII_UPPER_MASK != 0),
    {
        self.0 & HAS_ASCII_UPPER_MASK != 0
    }
}

impl core::ops::BitOrAssign for TokenProperties {
    /// Adds the facts of `rhs`.
    fn bitor_assign(&mut self, rhs: Self)
        ensures
            final(self).0 == old(self).0 | rhs.0,
    {
        self.0 = self.0 | rhs.0;
    }
}

} // verus!
