//! Batched word-break decisions for windows of pure ASCII.
//!
//! Within a run of ASCII there are no characters that the rules look through, so WB4 cannot apply.
//! Neither can the rules about Hebrew letters, Katakana, regional indicators or pictographs, since
//! none of those properties occur below U+0080. What is left is decidable from four adjacent
//! character classes, so a whole window of boundaries can be computed at once instead of one
//! character at a time.
//!
//! The classes are packed one bit each so a single byte per character answers every rule.

use crate::uax29::word::ascii::{
    ascii_info, ascii_joined, digit_bridge, law_plain_boundaries_are_local, lemma_ascii_text,
    letter_bridge, property_at, state_after_two, word_property,
};
use crate::uax29::word::class::has;
use crate::uax29::word::model::{boundary, infos};
use crate::uax29::word::neon::{load_table_128, lookup, table_lookup32};
use crate::uax29::word::properties::{
    ascii_property, ascii_token_bits, ascii_word_break_prop, WordBreakProperty,
};
use crate::uax29::word::simd::{
    lane_sum, vaddv_u8, vandq_u8, vcgeq_u8, vcleq_u8, vdupq_n_u8, vextq_u8, vgetq_lane_u8, vld1q_u8,
    vmaxvq_u8, vmvnq_u8, vorrq_u8, vsetq_lane_u8, vtstq_u8, U8x16,
};
use vstd::prelude::*;
use vstd::slice::slice_subrange;
use vstd::utf8::{encode_utf8, is_ascii_chars};

verus! {

/// `ALetter`, `Numeric` or `ExtendNumLet`. Every ordered pair drawn from this set joins, via WB5,
/// WB8, WB9, WB10, WB13a and WB13b, so one bit covers six rules.
pub const CLS_W: u8 = 0b0000_0001;

pub const CLS_AL: u8 = 0b0000_0010;

pub const CLS_NU: u8 = 0b0000_0100;

/// `WSegSpace`. In ASCII this is U+0020 alone: tab is `Other`.
pub const CLS_SP: u8 = 0b0000_1000;

pub const CLS_CR: u8 = 0b0001_0000;

pub const CLS_LF: u8 = 0b0010_0000;

/// `MidLetter`, `MidNumLet` or `SingleQuote`: the characters that WB6 and WB7 bridge between letters
/// (`:.'`).
pub const CLS_MIDAL: u8 = 0b0100_0000;

/// `MidNum`, `MidNumLet` or `SingleQuote`: the characters that WB11 and WB12 bridge between digits
/// (`,;.'`).
pub const CLS_MIDNU: u8 = 0b1000_0000;

/// Bytes decided per window. Sixteen so the scalar and vector implementations agree lane for lane.
pub const WINDOW: usize = 16;

/// The class of an ASCII character with this property.
pub open spec fn cls_of_property(p: WordBreakProperty) -> u8 {
    match p {
        WordBreakProperty::ALetter => CLS_W | CLS_AL,
        WordBreakProperty::Numeric => CLS_W | CLS_NU,
        WordBreakProperty::ExtendNumLet => CLS_W,
        WordBreakProperty::WSegSpace => CLS_SP,
        WordBreakProperty::CR => CLS_CR,
        // WB3 is `CR × LF` specifically, so U+000A gets a bit of its own. Newline (U+000B, U+000C)
        // gets none: nothing joins to it, and no bits already means "always break".
        WordBreakProperty::LF => CLS_LF,
        WordBreakProperty::MidLetter => CLS_MIDAL,
        WordBreakProperty::MidNum => CLS_MIDNU,
        WordBreakProperty::MidNumLet | WordBreakProperty::SingleQuote => CLS_MIDAL | CLS_MIDNU,
        // A double quote only matters next to Hebrew letters. It breaks on both sides here, like
        // `Other`.
        _ => 0,
    }
}

/// The class of an ASCII byte.
pub open spec fn cls_of(b: u8) -> u8 {
    cls_of_property(ascii_property(b))
}

/// Do the rules keep a character of class `c` together with one of class `p`, where one of class
/// `pp` comes before that and one of class `n` behind? A class of 0 matches nothing.
pub open spec fn joins(pp: u8, p: u8, c: u8, n: u8) -> bool {
    // WB5, WB8, WB9, WB10, WB13a, WB13b
    ||| has(p, CLS_W) && has(c, CLS_W)
    // WB3d

    ||| has(p, CLS_SP) && has(c, CLS_SP)
    // WB3

    ||| has(p, CLS_CR) && has(c, CLS_LF)
    // WB6, WB7

    ||| has(p, CLS_AL) && has(c, CLS_MIDAL) && has(n, CLS_AL)
    ||| has(p, CLS_MIDAL) && has(c, CLS_AL) && has(pp, CLS_AL)
    // WB12, WB11

    ||| has(p, CLS_NU) && has(c, CLS_MIDNU) && has(n, CLS_NU)
    ||| has(p, CLS_MIDNU) && has(c, CLS_NU) && has(pp, CLS_NU)
}

/// Would a character of class `c` behind one of class `p` make the automaton wait?
pub open spec fn waits(p: u8, c: u8) -> bool {
    (has(p, CLS_AL) && has(c, CLS_MIDAL)) || (has(p, CLS_NU) && has(c, CLS_MIDNU))
}

/// What the bits of a class mean.
pub proof fn lemma_cls_bits(p: WordBreakProperty)
    ensures
        has(cls_of_property(p), CLS_W) == word_property(p),
        has(cls_of_property(p), CLS_AL) == p is ALetter,
        has(cls_of_property(p), CLS_NU) == p is Numeric,
        has(cls_of_property(p), CLS_SP) == p is WSegSpace,
        has(cls_of_property(p), CLS_CR) == p is CR,
        has(cls_of_property(p), CLS_LF) == p is LF,
        has(cls_of_property(p), CLS_MIDAL) == letter_bridge(p),
        has(cls_of_property(p), CLS_MIDNU) == digit_bridge(p),
        has(cls_of_property(p), CLS_AL | CLS_NU) == (p is ALetter || p is Numeric),
{
    let t = cls_of_property(p);
    assert((CLS_W | CLS_AL == 3) && (CLS_W | CLS_NU == 5) && (CLS_MIDAL | CLS_MIDNU == 192) && (
    CLS_AL | CLS_NU == 6)) by (bit_vector);
    assert((has(t, CLS_W) == (t == 3 || t == 5 || t == 1)) && (has(t, CLS_AL) == (t == 3)) && (has(
        t,
        CLS_NU,
    ) == (t == 5)) && (has(t, CLS_SP) == (t == 8)) && (has(t, CLS_CR) == (t == 16)) && (has(
        t,
        CLS_LF,
    ) == (t == 32)) && (has(t, CLS_MIDAL) == (t == 64 || t == 192)) && (has(t, CLS_MIDNU) == (t
        == 128 || t == 192)) && (has(t, 6) == (t == 3 || t == 5))) by (bit_vector)
        requires
            t == 3 || t == 5 || t == 1 || t == 8 || t == 16 || t == 32 || t == 64 || t == 128 || t
                == 192 || t == 0,
    ;
}

/// The class of an ASCII byte.
pub fn class_of(b: u8) -> (class: u8)
    ensures
        class == cls_of(b),
{
    match ascii_word_break_prop(b) {
        WordBreakProperty::ALetter => CLS_W | CLS_AL,
        WordBreakProperty::Numeric => CLS_W | CLS_NU,
        WordBreakProperty::ExtendNumLet => CLS_W,
        WordBreakProperty::WSegSpace => CLS_SP,
        WordBreakProperty::CR => CLS_CR,
        WordBreakProperty::LF => CLS_LF,
        WordBreakProperty::MidLetter => CLS_MIDAL,
        WordBreakProperty::MidNum => CLS_MIDNU,
        WordBreakProperty::MidNumLet
        | WordBreakProperty::SingleQuote => CLS_MIDAL | CLS_MIDNU,
        _ => 0,
    }
}

/// The classes of all 128 ASCII bytes.
pub fn ascii_class() -> (table: [u8; 128])
    ensures
        forall|b: int| 0 <= b < 128 ==> #[trigger] table@[b] == cls_of(b as u8),
{
    let mut table: [u8; 128] = [0u8; 128];
    let mut i: usize = 0;
    while i < 128
        invariant
            i <= 128,
            forall|b: int| 0 <= b < i ==> #[trigger] table@[b] == cls_of(b as u8),
        decreases 128 - i,
    {
        table[i] = class_of(i as u8);
        i = i + 1;
    }
    table
}

/// Is there a boundary between the characters classified `p` and `c`?
///
/// `pp` is the class two characters back and `n` the class one ahead; both are `0` (matching
/// nothing) where no such character exists.
pub fn is_break(pp: u8, p: u8, c: u8, n: u8) -> (yes: bool)
    ensures
        yes == !joins(pp, p, c, n),
{
    assert((p & c & CLS_W != 0) == (has(p, CLS_W) && has(c, CLS_W)) && (p & c & CLS_SP != 0) == (
    has(p, CLS_SP) && has(c, CLS_SP))) by (bit_vector);
    let joined = (p & c & CLS_W != 0) || (p & c & CLS_SP != 0) || (p & CLS_CR != 0 && c & CLS_LF
        != 0) || (p & CLS_AL != 0 && c & CLS_MIDAL != 0 && n & CLS_AL != 0) || (p & CLS_MIDAL != 0
        && c & CLS_AL != 0 && pp & CLS_AL != 0) || (p & CLS_NU != 0 && c & CLS_MIDNU != 0 && n
        & CLS_NU != 0) || (p & CLS_MIDNU != 0 && c & CLS_NU != 0 && pp & CLS_NU != 0);
    !joined
}

/// Would the automaton be waiting after a character of class `c` that follows one of class `p`?
///
/// WB6, WB7, WB11 and WB12 are the only ASCII rules that need a character which a window may not
/// contain, so a window must not end on such a character. It is shortened by one byte instead, which
/// always resolves because the byte before a bridge is a letter or digit.
pub fn defers(p: u8, c: u8) -> (yes: bool)
    ensures
        yes == waits(p, c),
{
    (p & CLS_AL != 0 && c & CLS_MIDAL != 0) || (p & CLS_NU != 0 && c & CLS_MIDNU != 0)
}

// ---------------------------------------------------------------------------------------------
// What the classes promise
// ---------------------------------------------------------------------------------------------

/// The classes decide as the properties do.
pub proof fn law_window_classes_decide_as_properties(
    p2: WordBreakProperty,
    p1: WordBreakProperty,
    p0: WordBreakProperty,
    pn: WordBreakProperty,
)
    ensures
        joins(
            cls_of_property(p2),
            cls_of_property(p1),
            cls_of_property(p0),
            cls_of_property(pn),
        ) == ascii_joined(p2, p1, p0, pn),
{
    lemma_cls_bits(p2);
    lemma_cls_bits(p1);
    lemma_cls_bits(p0);
    lemma_cls_bits(pn);
}

/// The classes of the last two bytes tell whether the automaton would be waiting.
pub proof fn law_classes_tell_of_waits(b1: u8, b0: u8)
    ensures
        waits(cls_of(b1), cls_of(b0)) == state_after_two(
            ascii_property(b1),
            ascii_property(b0),
        ).deferred(),
{
    lemma_cls_bits(ascii_property(b1));
    lemma_cls_bits(ascii_property(b0));
}

/// A window that is shortened by one byte because it would end in a wait does not end in a wait.
pub proof fn law_shortened_window_does_not_wait(b2: u8, b1: u8, b0: u8)
    requires
        waits(cls_of(b1), cls_of(b0)),
    ensures
        !waits(cls_of(b2), cls_of(b1)),
{
    lemma_cls_bits(ascii_property(b1));
    lemma_cls_bits(ascii_property(b0));
}

/// The class behind a character matters only if the character makes the automaton wait.
pub proof fn law_next_class_matters_in_a_wait(pp: u8, p: u8, c: u8, n1: u8, n2: u8)
    requires
        !waits(p, c),
    ensures
        joins(pp, p, c, n1) == joins(pp, p, c, n2),
{
}

/// A character that makes the automaton wait says nothing about the token it is in.
pub proof fn law_waits_carry_no_properties(b1: u8, b0: u8)
    requires
        waits(cls_of(b1), cls_of(b0)),
    ensures
        ascii_token_bits(b0) == 0,
{
    lemma_cls_bits(ascii_property(b0));
}

/// Letters, digits and connectors join in every order.
pub proof fn law_word_characters_join(pp: u8, b1: u8, b0: u8, n: u8)
    requires
        word_property(ascii_property(b1)),
        word_property(ascii_property(b0)),
    ensures
        joins(pp, cls_of(b1), cls_of(b0), n),
{
    lemma_cls_bits(ascii_property(b1));
    lemma_cls_bits(ascii_property(b0));
}

/// Nothing joins a character without a class, and it joins nothing.
pub proof fn law_classless_characters_break(pp: u8, c: u8, n: u8)
    ensures
        !joins(pp, 0, c, n),
        !joins(pp, c, 0, n),
{
    lemma_cls_bits(WordBreakProperty::Other);
}

// ---------------------------------------------------------------------------------------------
// Windows
// ---------------------------------------------------------------------------------------------

/// One window's worth of decisions. Bit `i` of a mask describes the byte at `pos + i`.
#[derive(Copy, Clone, Debug, PartialEq, Eq)]
pub struct Decisions {
    /// Bit `i`: a boundary falls between `pos + i - 1` and `pos + i`.
    pub breaks: u16,
    /// Bit `i`: the byte is `[a-zA-Z0-9]`.
    pub word_like: u16,
    /// Bit `i`: the byte is `[A-Z]`.
    pub upper: u16,
    /// Class of the last byte in the window, to test [`defers`] on the handoff.
    pub last_class: u8,
    /// Class of the second-to-last byte, likewise.
    pub prev_last_class: u8,
    /// The last two bytes themselves: classes conflate everything that always breaks.
    pub last_byte: u8,
    pub prev_last_byte: u8,
}

/// Bit `i` of a mask.
pub open spec fn lane16(mask: u16, i: u16) -> bool {
    (mask >> i) & 1 == 1
}

/// The class `i` bytes into the window at `pos`, where `pp` and `p` are the classes of the two bytes
/// before it and `n` that of the byte behind it.
pub open spec fn context(bytes: Seq<u8>, pos: int, pp: u8, p: u8, n: u8, i: int) -> u8 {
    if i == -2 {
        pp
    } else if i == -1 {
        p
    } else if i == 16 {
        n
    } else {
        cls_of(bytes[pos + i])
    }
}

/// There is a window of ASCII at `pos`.
pub open spec fn window_at(bytes: Seq<u8>, pos: int) -> bool {
    pos + 16 <= bytes.len() && forall|i: int|
        0 <= i < 16 ==> #[trigger] bytes[pos + i] < 0x80
}

/// `d` says what is the case in the window at `pos`.
pub open spec fn decided(d: Decisions, bytes: Seq<u8>, pos: int, pp: u8, p: u8, n: u8) -> bool {
    &&& forall|i: u16|
        i < 16 ==> #[trigger] lane16(d.breaks, i) == !joins(
            context(bytes, pos, pp, p, n, i - 2),
            context(bytes, pos, pp, p, n, i - 1),
            context(bytes, pos, pp, p, n, i as int),
            context(bytes, pos, pp, p, n, i + 1),
        )
    &&& forall|i: u16|
        i < 16 ==> #[trigger] lane16(d.word_like, i) == has(
            cls_of(bytes[pos + i]),
            CLS_AL | CLS_NU,
        )
    &&& forall|i: u16|
        i < 16 ==> #[trigger] lane16(d.upper, i) == (0x41 <= bytes[pos + i] <= 0x5a)
    &&& d.last_class == cls_of(bytes[pos + 15])
    &&& d.prev_last_class == cls_of(bytes[pos + 14])
    &&& d.last_byte == bytes[pos + 15]
    &&& d.prev_last_byte == bytes[pos + 14]
}

/// A bit is added to a mask.
proof fn lemma_add_lane16(mask: u16, v: u16, i: u16)
    by (bit_vector)
    requires
        v <= 1,
        i < 16,
    ensures
        forall|j: u16|
            j < 16 ==> #[trigger] lane16(mask | (v << i), j) == (lane16(mask, j) || (j == i && v
                == 1)),
        forall|j: u16| j < 16 ==> !#[trigger] lane16(0, j),
{
}

/// 1 for `true`.
fn one(b: bool) -> (r: u16)
    ensures
        r == if b {
            1u16
        } else {
            0
        },
{
    if b {
        1
    } else {
        0
    }
}

/// Decides a window of [`WINDOW`] bytes starting at `pos`; `None` if there are not as many, or one
/// of them is not ASCII.
///
/// `pp` and `p` are the classes of the two bytes preceding `pos`. `n` is the class of the byte at
/// `pos + WINDOW`, or `0` at the end of the text.
pub fn decide_window(bytes: &[u8], pos: usize, pp: u8, p: u8, n: u8) -> (d: Option<Decisions>)
    ensures
        d is Some <==> window_at(bytes@, pos as int),
        d matches Some(d) ==> decided(d, bytes@, pos as int, pp, p, n),
{
    if pos > bytes.len() || bytes.len() - pos < WINDOW {
        return None;
    }
    let mut classes: [u8; 16] = [0u8; 16];
    let mut i: usize = 0;
    while i < WINDOW
        invariant
            i <= 16,
            pos + 16 <= bytes@.len(),
            bytes@.len() == bytes.len(),
            forall|j: int| 0 <= j < i ==> #[trigger] bytes@[pos + j] < 0x80,
            forall|j: int| 0 <= j < i ==> #[trigger] classes@[j] == cls_of(bytes@[pos + j]),
        decreases 16 - i,
    {
        let b: u8 = bytes[pos + i];
        if b >= 0x80 {
            assert(bytes@[pos + i] == b);
            return None;
        }
        classes[i] = class_of(b);
        i = i + 1;
    }
    let mut breaks: u16 = 0;
    let mut word_like: u16 = 0;
    let mut upper: u16 = 0;
    let mut i: usize = 0;
    proof {
        lemma_add_lane16(0, 0, 0);
    }
    while i < WINDOW
        invariant
            i <= 16,
            pos + 16 <= bytes@.len(),
            bytes@.len() == bytes.len(),
            forall|j: int| 0 <= j < 16 ==> #[trigger] classes@[j] == cls_of(bytes@[pos + j]),
            forall|j: u16|
                j < 16 ==> #[trigger] lane16(breaks, j) == (j < i && !joins(
                    context(bytes@, pos as int, pp, p, n, j - 2),
                    context(bytes@, pos as int, pp, p, n, j - 1),
                    context(bytes@, pos as int, pp, p, n, j as int),
                    context(bytes@, pos as int, pp, p, n, j + 1),
                )),
            forall|j: u16|
                j < 16 ==> #[trigger] lane16(word_like, j) == (j < i && has(
                    cls_of(bytes@[pos + j]),
                    CLS_AL | CLS_NU,
                )),
            forall|j: u16|
                j < 16 ==> #[trigger] lane16(upper, j) == (j < i && 0x41 <= bytes@[pos + j]
                    <= 0x5a),
        decreases 16 - i,
    {
        let c_pp: u8 = if i >= 2 {
            classes[i - 2]
        } else if i == 1 {
            p
        } else {
            pp
        };
        let c_p: u8 = if i >= 1 {
            classes[i - 1]
        } else {
            p
        };
        let c_n: u8 = if i + 1 < WINDOW {
            classes[i + 1]
        } else {
            n
        };
        let b: u8 = bytes[pos + i];
        let is_break_here: u16 = one(is_break(c_pp, c_p, classes[i], c_n));
        let is_word_like: u16 = one(classes[i] & (CLS_AL | CLS_NU) != 0);
        let is_upper: u16 = one(0x41 <= b && b <= 0x5a);
        proof {
            lemma_add_lane16(breaks, is_break_here, i as u16);
            lemma_add_lane16(word_like, is_word_like, i as u16);
            lemma_add_lane16(upper, is_upper, i as u16);
        }
        breaks = breaks | (is_break_here << (i as u16));
        word_like = word_like | (is_word_like << (i as u16));
        upper = upper | (is_upper << (i as u16));
        i = i + 1;
    }
    Some(
        Decisions {
            breaks,
            word_like,
            upper,
            last_class: classes[15],
            prev_last_class: classes[14],
            last_byte: bytes[pos + 15],
            prev_last_byte: bytes[pos + 14],
        },
    )
}

// ---------------------------------------------------------------------------------------------
// Windows as vectors
// ---------------------------------------------------------------------------------------------

/// All bits set for `true`, none for `false`.
spec fn flag(b: bool) -> u8 {
    if b {
        0xFF
    } else {
        0
    }
}

proof fn lemma_flags(a: bool, b: bool)
    by (bit_vector)
    ensures
        flag(a) & flag(b) == flag(a && b),
        !flag(a) == flag(!a),
{
}

/// The sum of eight different bits.
proof fn lemma_bit_sum(
    m0: u8,
    m1: u8,
    m2: u8,
    m3: u8,
    m4: u8,
    m5: u8,
    m6: u8,
    m7: u8,
    sum: u16,
    i: u16,
)
    by (bit_vector)
    requires
        m0 == 0 || m0 == 1,
        m1 == 0 || m1 == 2,
        m2 == 0 || m2 == 4,
        m3 == 0 || m3 == 8,
        m4 == 0 || m4 == 16,
        m5 == 0 || m5 == 32,
        m6 == 0 || m6 == 64,
        m7 == 0 || m7 == 128,
        sum == m0 + m1 + m2 + m3 + m4 + m5 + m6 + m7,
        i < 8,
    ensures
        sum < 256,
        lane16(sum, i) == ((i == 0 && m0 != 0) || (i == 1 && m1 != 0) || (i == 2 && m2 != 0) || (i
            == 3 && m3 != 0) || (i == 4 && m4 != 0) || (i == 5 && m5 != 0) || (i == 6 && m6 != 0)
            || (i == 7 && m7 != 0)),
{
}

/// Gathers one bit per lane from a vector of lanes with all bits set or none.
fn movemask(v: U8x16) -> (mask: u16)
    requires
        forall|i: int| 0 <= i < 16 ==> #[trigger] v@[i] == 0 || v@[i] == 0xFF,
    ensures
        forall|i: u16| i < 16 ==> #[trigger] lane16(mask, i) == (v@[i as int] != 0),
{
    let bits = U8x16([1, 2, 4, 8, 16, 32, 64, 128, 1, 2, 4, 8, 16, 32, 64, 128]);
    let m = vandq_u8(v, bits);
    let low: u16 = vaddv_u8(m, 0) as u16;
    let high: u16 = vaddv_u8(m, 1) as u16;
    let mask: u16 = low | (high << 8);
    proof {
        assert forall|i: u16| i < 16 implies #[trigger] lane16(mask, i) == (v@[i as int]
            != 0) by {
            reveal_with_fuel(lane_sum, 9);
            let half: int = if i < 8 {
                0
            } else {
                8
            };
            let j = (i - half) as u16;
            assert forall|k: int| 0 <= k < 16 implies (#[trigger] m@[k] == if v@[k] != 0 {
                bits@[k]
            } else {
                0
            }) by {
                assert(v@[k] == 0 || v@[k] == 0xFF);
                lemma_select(bits@[k]);
            }
            let sum = (m@[half] + m@[half + 1] + m@[half + 2] + m@[half + 3] + m@[half + 4]
                + m@[half + 5] + m@[half + 6] + m@[half + 7]) as u16;
            lemma_bit_sum(
                m@[half],
                m@[half + 1],
                m@[half + 2],
                m@[half + 3],
                m@[half + 4],
                m@[half + 5],
                m@[half + 6],
                m@[half + 7],
                sum,
                j,
            );
            assert(sum == if i < 8 {
                low
            } else {
                high
            });
            assert(lane16(mask, i) == lane16(sum, j)) by (bit_vector)
                requires
                    mask == low | (high << 8),
                    low < 256,
                    high < 256,
                    i < 16,
                    i < 8 ==> j == i && sum == low,
                    i >= 8 ==> j == i - 8 && sum == high,
            ;
        }
    }
    mask
}

/// All bits or none select all or nothing.
proof fn lemma_select(x: u8)
    by (bit_vector)
    ensures
        0u8 & x == 0,
        0xFFu8 & x == x,
{
}

/// The rules on flags of one lane, each with its neighbours'.
spec fn joins_lane(pp: u8, p: u8, c: u8, n: u8) -> u8 {
    ((flag(has(p, CLS_W)) & flag(has(c, CLS_W)) | flag(has(p, CLS_SP)) & flag(has(c, CLS_SP))) | (
    flag(has(p, CLS_CR)) & flag(has(c, CLS_LF)) | (flag(has(p, CLS_AL)) & flag(
        has(c, CLS_MIDAL),
    )) & flag(has(n, CLS_AL)))) | (((flag(has(p, CLS_MIDAL)) & flag(has(c, CLS_AL))) & flag(
        has(pp, CLS_AL),
    ) | (flag(has(p, CLS_NU)) & flag(has(c, CLS_MIDNU))) & flag(has(n, CLS_NU))) | (flag(
        has(p, CLS_MIDNU),
    ) & flag(has(c, CLS_NU))) & flag(has(pp, CLS_NU)))
}

proof fn lemma_joins_lane(pp: u8, p: u8, c: u8, n: u8)
    by (bit_vector)
    ensures
        joins_lane(pp, p, c, n) == flag(joins(pp, p, c, n)),
{
}

/// The rules on vectors of classes.
fn joins_vector(prevprev: U8x16, prev: U8x16, cls: U8x16, next: U8x16) -> (joined: U8x16)
    ensures
        forall|i: int|
            0 <= i < 16 ==> #[trigger] joined@[i] == flag(
                joins(prevprev@[i], prev@[i], cls@[i], next@[i]),
            ),
{
    let w_c = vtstq_u8(cls, vdupq_n_u8(CLS_W));
    let w_p = vtstq_u8(prev, vdupq_n_u8(CLS_W));
    let sp_c = vtstq_u8(cls, vdupq_n_u8(CLS_SP));
    let sp_p = vtstq_u8(prev, vdupq_n_u8(CLS_SP));
    let lf_c = vtstq_u8(cls, vdupq_n_u8(CLS_LF));
    let cr_p = vtstq_u8(prev, vdupq_n_u8(CLS_CR));
    let al_c = vtstq_u8(cls, vdupq_n_u8(CLS_AL));
    let al_p = vtstq_u8(prev, vdupq_n_u8(CLS_AL));
    let al_n = vtstq_u8(next, vdupq_n_u8(CLS_AL));
    let al_pp = vtstq_u8(prevprev, vdupq_n_u8(CLS_AL));
    let nu_c = vtstq_u8(cls, vdupq_n_u8(CLS_NU));
    let nu_p = vtstq_u8(prev, vdupq_n_u8(CLS_NU));
    let nu_n = vtstq_u8(next, vdupq_n_u8(CLS_NU));
    let nu_pp = vtstq_u8(prevprev, vdupq_n_u8(CLS_NU));
    let midal_c = vtstq_u8(cls, vdupq_n_u8(CLS_MIDAL));
    let midal_p = vtstq_u8(prev, vdupq_n_u8(CLS_MIDAL));
    let midnu_c = vtstq_u8(cls, vdupq_n_u8(CLS_MIDNU));
    let midnu_p = vtstq_u8(prev, vdupq_n_u8(CLS_MIDNU));
    // The seven no-break rules, in the same order as `is_break`.
    let joined = vorrq_u8(
        vorrq_u8(
            vorrq_u8(vandq_u8(w_p, w_c), vandq_u8(sp_p, sp_c)),
            vorrq_u8(vandq_u8(cr_p, lf_c), vandq_u8(vandq_u8(al_p, midal_c), al_n)),
        ),
        vorrq_u8(
            vorrq_u8(
                vandq_u8(vandq_u8(midal_p, al_c), al_pp),
                vandq_u8(vandq_u8(nu_p, midnu_c), nu_n),
            ),
            vandq_u8(vandq_u8(midnu_p, nu_c), nu_pp),
        ),
    );
    proof {
        assert forall|i: int| 0 <= i < 16 implies #[trigger] joined@[i] == flag(
            joins(prevprev@[i], prev@[i], cls@[i], next@[i]),
        ) by {
            lemma_joins_lane(prevprev@[i], prev@[i], cls@[i], next@[i]);
        }
    }
    joined
}

/// The classes of a window of ASCII.
fn load_classes(bytes: &[u8], pos: usize) -> (cls: U8x16)
    requires
        window_at(bytes@, pos as int),
    ensures
        forall|i: int| 0 <= i < 16 ==> #[trigger] cls@[i] == cls_of(bytes@[pos + i]),
{
    assert(bytes@.len() == bytes.len());
    let table = ascii_class();
    let (lo, hi) = load_table_128(&table);
    let window = slice_subrange(bytes, pos, pos + 16);
    let cls = table_lookup32(lo, hi, window);
    proof {
        assert forall|i: int| 0 <= i < 16 implies #[trigger] cls@[i] == cls_of(bytes@[pos + i]) by {
            let b = bytes@[pos + i];
            assert(window@[i] == b);
            assert(lookup(lo, hi, b) == table@[b as int]);
        }
    }
    cls
}

/// The classes two back, one back and one ahead, for every lane at once.
fn neighbours(pp: u8, p: u8, cls: U8x16, n: u8) -> (r: (U8x16, U8x16, U8x16))
    ensures
        forall|i: int|
            0 <= i < 16 ==> #[trigger] r.0@[i] == if i == 0 {
                pp
            } else if i == 1 {
                p
            } else {
                cls@[i - 2]
            },
        forall|i: int|
            0 <= i < 16 ==> #[trigger] r.1@[i] == if i == 0 {
                p
            } else {
                cls@[i - 1]
            },
        forall|i: int|
            0 <= i < 16 ==> #[trigger] r.2@[i] == if i == 15 {
                n
            } else {
                cls@[i + 1]
            },
{
    let zero = vdupq_n_u8(0);
    let prev = vextq_u8(vsetq_lane_u8(p, zero, 15), cls, 15);
    let prevprev = vextq_u8(vsetq_lane_u8(p, vsetq_lane_u8(pp, zero, 14), 15), cls, 14);
    let next = vextq_u8(cls, vsetq_lane_u8(n, zero, 0), 1);
    (prevprev, prev, next)
}

/// The uppercase letters.
fn uppercase(raw: U8x16) -> (r: U8x16)
    ensures
        forall|i: int| 0 <= i < 16 ==> #[trigger] r@[i] == flag(0x41 <= raw@[i] <= 0x5a),
{
    let from_a = vcgeq_u8(raw, vdupq_n_u8(0x41));
    let to_z = vcleq_u8(raw, vdupq_n_u8(0x5a));
    let r = vandq_u8(from_a, to_z);
    proof {
        assert forall|i: int| 0 <= i < 16 implies #[trigger] r@[i] == flag(
            0x41 <= raw@[i] <= 0x5a,
        ) by {
            lemma_flags(raw@[i] >= 0x41, raw@[i] <= 0x5a);
        }
    }
    r
}

/// The same rules as [`decide_window`], evaluated lane-wise across the whole window, with three
/// horizontal reductions at the end to hand back bitmasks.
///
/// The shifted class vectors are what make the lookahead rules cheap: one [`vextq_u8`] produces "the
/// class of the previous character" for all sixteen lanes at once.
pub fn decide_window_neon(bytes: &[u8], pos: usize, pp: u8, p: u8, n: u8) -> (d: Option<Decisions>)
    ensures
        d is Some <==> window_at(bytes@, pos as int),
        d matches Some(d) ==> decided(d, bytes@, pos as int, pp, p, n),
{
    if pos > bytes.len() || bytes.len() - pos < WINDOW {
        return None;
    }
    let raw = vld1q_u8(bytes, pos);
    // One horizontal max rejects the window if any byte is non-ASCII.
    if vmaxvq_u8(raw) >= 0x80 {
        proof {
            let bad = choose|i: int| 0 <= i < 16 && #[trigger] raw@[i] >= 0x80;
            assert(bytes@[pos + bad] >= 0x80);
        }
        return None;
    }
    proof {
        assert forall|i: int| 0 <= i < 16 implies #[trigger] bytes@[pos + i] < 0x80 by {
            assert(raw@[i] == bytes@[pos + i]);
        }
    }
    let cls = load_classes(bytes, pos);
    let (prevprev, prev, next) = neighbours(pp, p, cls, n);
    let joined = joins_vector(prevprev, prev, cls, next);
    let breaks_lanes = vmvnq_u8(joined);
    let word_like_lanes = vtstq_u8(cls, vdupq_n_u8(CLS_AL | CLS_NU));
    let upper_lanes = uppercase(raw);
    proof {
        assert forall|i: int| 0 <= i < 16 implies #[trigger] breaks_lanes@[i] == flag(
            !joins(
                context(bytes@, pos as int, pp, p, n, i - 2),
                context(bytes@, pos as int, pp, p, n, i - 1),
                context(bytes@, pos as int, pp, p, n, i),
                context(bytes@, pos as int, pp, p, n, i + 1),
            ),
        ) by {
            lemma_flags(joins(prevprev@[i], prev@[i], cls@[i], next@[i]), true);
        }
    }
    Some(
        Decisions {
            breaks: movemask(breaks_lanes),
            word_like: movemask(word_like_lanes),
            upper: movemask(upper_lanes),
            last_class: vgetq_lane_u8(cls, 15),
            prev_last_class: vgetq_lane_u8(cls, 14),
            last_byte: vgetq_lane_u8(raw, 15),
            prev_last_byte: vgetq_lane_u8(raw, 14),
        },
    )
}

/// Masks with the same bits are the same.
proof fn lemma_same_lanes(a: u16, b: u16)
    requires
        forall|i: u16| i < 16 ==> #[trigger] lane16(a, i) == lane16(b, i),
    ensures
        a == b,
{
    assert(lane16(a, 0) == lane16(b, 0) && lane16(a, 1) == lane16(b, 1) && lane16(a, 2) == lane16(
        b,
        2,
    ) && lane16(a, 3) == lane16(b, 3) && lane16(a, 4) == lane16(b, 4) && lane16(a, 5) == lane16(
        b,
        5,
    ) && lane16(a, 6) == lane16(b, 6) && lane16(a, 7) == lane16(b, 7) && lane16(a, 8) == lane16(
        b,
        8,
    ) && lane16(a, 9) == lane16(b, 9) && lane16(a, 10) == lane16(b, 10) && lane16(a, 11) == lane16(
        b,
        11,
    ) && lane16(a, 12) == lane16(b, 12) && lane16(a, 13) == lane16(b, 13) && lane16(a, 14)
        == lane16(b, 14) && lane16(a, 15) == lane16(b, 15));
    assert(a == b) by (bit_vector)
        requires
            lane16(a, 0) == lane16(b, 0) && lane16(a, 1) == lane16(b, 1) && lane16(a, 2) == lane16(
                b,
                2,
            ) && lane16(a, 3) == lane16(b, 3) && lane16(a, 4) == lane16(b, 4) && lane16(a, 5)
                == lane16(b, 5) && lane16(a, 6) == lane16(b, 6) && lane16(a, 7) == lane16(b, 7)
                && lane16(a, 8) == lane16(b, 8) && lane16(a, 9) == lane16(b, 9) && lane16(a, 10)
                == lane16(b, 10) && lane16(a, 11) == lane16(b, 11) && lane16(a, 12) == lane16(
                b,
                12,
            ) && lane16(a, 13) == lane16(b, 13) && lane16(a, 14) == lane16(b, 14) && lane16(a, 15)
                == lane16(b, 15),
    ;
}

/// Window, context and classes leave nothing open: [`decide_window`] and [`decide_window_neon`] give
/// the same decisions.
pub proof fn law_decisions_are_unique(
    d1: Decisions,
    d2: Decisions,
    bytes: Seq<u8>,
    pos: int,
    pp: u8,
    p: u8,
    n: u8,
)
    requires
        decided(d1, bytes, pos, pp, p, n),
        decided(d2, bytes, pos, pp, p, n),
    ensures
        d1 == d2,
{
    lemma_same_lanes(d1.breaks, d2.breaks);
    lemma_same_lanes(d1.word_like, d2.word_like);
    lemma_same_lanes(d1.upper, d2.upper);
}

/// The class of the byte at `j`, none if there is no such byte.
pub open spec fn cls_at(bytes: Seq<u8>, j: int) -> u8 {
    if 0 <= j < bytes.len() {
        cls_of(bytes[j])
    } else {
        0
    }
}

/// In ASCII text, what is decided of a window with the classes of the bytes around it are the
/// boundaries of the text.
pub proof fn law_decisions_are_boundaries(d: Decisions, text: Seq<char>, pos: int, i: u16)
    requires
        is_ascii_chars(text),
        0 <= pos,
        pos + 16 <= encode_utf8(text).len(),
        decided(
            d,
            encode_utf8(text),
            pos,
            cls_at(encode_utf8(text), pos - 2),
            cls_at(encode_utf8(text), pos - 1),
            cls_at(encode_utf8(text), pos + 16),
        ),
        i < 16,
    ensures
        lane16(d.breaks, i) == boundary(infos(text), pos + i),
{
    let cs = infos(text);
    let bytes = encode_utf8(text);
    let k = pos + i;
    lemma_ascii_text(text);
    assert forall|j: int| #[trigger] cls_at(bytes, j) == cls_of_property(property_at(cs, j)) by {
        if 0 <= j < bytes.len() {
            assert(cs[j] == ascii_info(bytes[j]));
        }
    }
    law_window_classes_decide_as_properties(
        property_at(cs, k - 2),
        property_at(cs, k - 1),
        property_at(cs, k),
        property_at(cs, k + 1),
    );
    assert(lane16(d.breaks, i) == !joins(
        cls_at(bytes, k - 2),
        cls_at(bytes, k - 1),
        cls_at(bytes, k),
        cls_at(bytes, k + 1),
    ));
    if 0 < k {
        law_plain_boundaries_are_local(cs, k);
    }
}

} // verus!
