//! What class bytes, masks and window decisions say of the bytes of a text.

use crate::uax29::word::ascii::{
    ascii_joined, byte_info, digit_bridge, lemma_byte_info, letter_bridge, run_bits, word_byte,
    word_property, ASCII_WORD_CONTINUE,
};
use crate::uax29::word::ascii_window::{
    cls_of, decided, joins, lane16, lemma_cls_bits, waits, window_at, Decisions,
};
use crate::uax29::word::character_laws::{law_bits_of_ascii_bytes, law_values_of_ascii_bytes};
use crate::uax29::word::class::{class_byte, class_word, has, joined_class, lemma_class_bits};
use crate::uax29::word::laws::lemma_mask_bits;
use crate::uax29::word::neon::{lemma_unpack, lookup, nibble_mark, pack_hi, pack_lo};
use crate::uax29::word::properties::{ascii_property, ascii_token_bits, WordBreakProperty};
use crate::uax29::word::simd::U8x16x4;
use crate::uax29::word::window::{
    ascii_window, breaks_at, decides, lane, lemma_class_word, WindowTokens,
};
use vstd::prelude::*;

verus! {

// ---------------------------------------------------------------------------------------------
// Bytes
// ---------------------------------------------------------------------------------------------

/// Words go on at ASCII letters, digits and underscores.
pub proof fn law_word_bytes(b: u8)
    ensures
        word_byte(b) <==> 0x41 <= b <= 0x5a || 0x61 <= b <= 0x7a || 0x30 <= b <= 0x39 || b == 0x5f,
{
}

/// What is kept of an ASCII byte: bit 7 says that it continues a word, and the others what it says
/// about its token.
pub proof fn law_byte_info(b: u8)
    ensures
        byte_info(b) & 0x80 != 0 <==> 0x41 <= b <= 0x5a || 0x61 <= b <= 0x7a || 0x30 <= b <= 0x39
            || b == 0x5f,
        byte_info(b) & !ASCII_WORD_CONTINUE == if 0x41 <= b <= 0x5a {
            5u8
        } else if 0x61 <= b <= 0x7a || 0x30 <= b <= 0x39 {
            1u8
        } else {
            0u8
        },
{
    lemma_byte_info(0, b);
    law_bits_of_ascii_bytes(b);
}

/// Letters, digits and connectors; what bridges letters; what bridges digits.
pub proof fn law_kinds_of_ascii_properties(p: WordBreakProperty)
    ensures
        word_property(p) <==> p is ALetter || p is Numeric || p is ExtendNumLet,
        letter_bridge(p) <==> p is MidLetter || p is MidNumLet || p is SingleQuote,
        digit_bridge(p) <==> p is MidNum || p is MidNumLet || p is SingleQuote,
{
}

/// Which of four neighbouring characters stay together where no rule looks through any of them.
pub proof fn law_ascii_rules(
    p2: WordBreakProperty,
    p1: WordBreakProperty,
    p0: WordBreakProperty,
    pn: WordBreakProperty,
)
    ensures
        p1 is CR && p0 is LF ==> ascii_joined(p2, p1, p0, pn),
        p1 is WSegSpace && p0 is WSegSpace ==> ascii_joined(p2, p1, p0, pn),
        (p1 is ALetter || p1 is Numeric || p1 is ExtendNumLet) && (p0 is ALetter || p0 is Numeric
            || p0 is ExtendNumLet) ==> ascii_joined(p2, p1, p0, pn),
        p1 is ALetter && pn is ALetter && (p0 is MidLetter || p0 is MidNumLet || p0 is SingleQuote)
            ==> ascii_joined(p2, p1, p0, pn),
        p2 is ALetter && p0 is ALetter && (p1 is MidLetter || p1 is MidNumLet || p1 is SingleQuote)
            ==> ascii_joined(p2, p1, p0, pn),
        p1 is Numeric && pn is Numeric && (p0 is MidNum || p0 is MidNumLet || p0 is SingleQuote)
            ==> ascii_joined(p2, p1, p0, pn),
        p2 is Numeric && p0 is Numeric && (p1 is MidNum || p1 is MidNumLet || p1 is SingleQuote)
            ==> ascii_joined(p2, p1, p0, pn),
        // Nothing stays together with a character of one of these values.
        p1 is Other || p1 is DoubleQuote || p1 is LF || p1 is Newline || p0 is Other || p0
            is DoubleQuote || p0 is CR || p0 is Newline ==> !ascii_joined(p2, p1, p0, pn),
        // A carriage return, a line feed or a space stays with one other character at most.
        p1 is CR && !(p0 is LF) ==> !ascii_joined(p2, p1, p0, pn),
        p0 is LF && !(p1 is CR) ==> !ascii_joined(p2, p1, p0, pn),
        (p1 is WSegSpace) != (p0 is WSegSpace) ==> !ascii_joined(p2, p1, p0, pn),
        // Punctuation needs its two letters or its two digits.
        (p0 is MidLetter || p0 is MidNum || p0 is MidNumLet || p0 is SingleQuote) && !(p1 is ALetter
            && pn is ALetter) && !(p1 is Numeric && pn is Numeric) ==> !ascii_joined(
            p2,
            p1,
            p0,
            pn,
        ),
        (p1 is MidLetter || p1 is MidNum || p1 is MidNumLet || p1 is SingleQuote) && !(p2 is ALetter
            && p0 is ALetter) && !(p2 is Numeric && p0 is Numeric) ==> !ascii_joined(
            p2,
            p1,
            p0,
            pn,
        ),
        // A colon bridges no digits, and a comma no letters.
        p0 is MidLetter && !(p1 is ALetter) ==> !ascii_joined(p2, p1, p0, pn),
        p1 is MidLetter && !(p0 is ALetter) ==> !ascii_joined(p2, p1, p0, pn),
        p0 is MidNum && !(p1 is Numeric) ==> !ascii_joined(p2, p1, p0, pn),
        p1 is MidNum && !(p0 is Numeric) ==> !ascii_joined(p2, p1, p0, pn),
{
}

/// A run of bytes is word-like if it has an ASCII letter or digit, and with uppercase if it has an
/// ASCII capital letter.
pub proof fn law_run_bits(bytes: Seq<u8>, i: int, j: int)
    requires
        0 <= i <= j <= bytes.len(),
    ensures
        run_bits(bytes, i, j) & 1 != 0 <==> exists|k: int|
            i <= k < j && {
                let b = #[trigger] bytes[k];
                0x41 <= b <= 0x5a || 0x61 <= b <= 0x7a || 0x30 <= b <= 0x39
            },
        run_bits(bytes, i, j) & 4 != 0 <==> exists|k: int|
            i <= k < j && 0x41 <= #[trigger] bytes[k] <= 0x5a,
    decreases j - i,
{
    if i < j {
        law_run_bits(bytes, i, j - 1);
        lemma_token_bits(bytes[j - 1]);
        lemma_mask_bits(run_bits(bytes, i, j - 1), ascii_token_bits(bytes[j - 1]));
    } else {
        lemma_mask_bits(0, 0);
    }
}

// ---------------------------------------------------------------------------------------------
// Class bytes
// ---------------------------------------------------------------------------------------------

/// The eight bits of a class byte: letter, digit bridge, word character, letter bridge, digit,
/// carriage return, line feed, space.
pub proof fn law_bits_of_a_class_byte(b: u8)
    ensures
        class_byte(b) & 0x01 != 0 <==> 0x41 <= b <= 0x5a || 0x61 <= b <= 0x7a,
        class_byte(b) & 0x02 != 0 <==> b == 0x2c || b == 0x3b || b == 0x2e || b == 0x27,
        class_byte(b) & 0x04 != 0 <==> 0x41 <= b <= 0x5a || 0x61 <= b <= 0x7a || 0x30 <= b <= 0x39
            || b == 0x5f,
        class_byte(b) & 0x08 != 0 <==> b == 0x3a || b == 0x2e || b == 0x27,
        class_byte(b) & 0x10 != 0 <==> 0x30 <= b <= 0x39,
        class_byte(b) & 0x20 != 0 <==> b == 0x0d,
        class_byte(b) & 0x40 != 0 <==> b == 0x0a,
        class_byte(b) & 0x80 != 0 <==> b == 0x20,
{
    lemma_class_bits(ascii_property(b));
    law_values_of_ascii_bytes(b);
}

/// The two bits that a class word has besides: word-like, and uppercase.
pub proof fn law_bits_of_a_class_word(b: u8)
    ensures
        (class_word(b) as u32 >> 8) & 1 == 1 <==> 0x41 <= b <= 0x5a || 0x61 <= b <= 0x7a || 0x30
            <= b <= 0x39,
        (class_word(b) as u32 >> 9) & 1 == 1 <==> 0x41 <= b <= 0x5a,
{
    lemma_class_word(b);
    lemma_token_bits(b);
}

proof fn lemma_token_bits(b: u8)
    ensures
        has(ascii_token_bits(b), 1) <==> 0x41 <= b <= 0x5a || 0x61 <= b <= 0x7a || 0x30 <= b
            <= 0x39,
        has(ascii_token_bits(b), 4) <==> 0x41 <= b <= 0x5a,
{
    law_bits_of_ascii_bytes(b);
    assert(5u8 & 1 != 0 && 5u8 & 4 != 0 && 1u8 & 1 != 0 && 1u8 & 4 == 0 && 0u8 & 1 == 0 && 0u8 & 4
        == 0) by (bit_vector);
}

/// Which class bytes stay together, bit by bit.
pub proof fn law_rules_on_class_bytes(t2: u8, t1: u8, t0: u8, tn: u8)
    ensures
        joined_class(t2, t1, t0, tn) <==> {
            ||| t1 & 0x01 != 0 && t0 & 0x08 != 0 && tn & 0x01 != 0
            ||| t2 & 0x01 != 0 && t1 & 0x08 != 0 && t0 & 0x01 != 0
            ||| t1 & 0x10 != 0 && t0 & 0x02 != 0 && tn & 0x10 != 0
            ||| t2 & 0x10 != 0 && t1 & 0x02 != 0 && t0 & 0x10 != 0
            ||| t1 & 0x04 != 0 && t0 & 0x04 != 0
            ||| t1 & 0x20 != 0 && t0 & 0x40 != 0
            ||| t1 & 0x80 != 0 && t0 & 0x80 != 0
        },
{
}

/// The eight bits of a class: word character, letter, digit, space, carriage return, line feed,
/// letter bridge, digit bridge.
pub proof fn law_bits_of_a_class(b: u8)
    ensures
        cls_of(b) & 0x01 != 0 <==> 0x41 <= b <= 0x5a || 0x61 <= b <= 0x7a || 0x30 <= b <= 0x39 || b
            == 0x5f,
        cls_of(b) & 0x02 != 0 <==> 0x41 <= b <= 0x5a || 0x61 <= b <= 0x7a,
        cls_of(b) & 0x04 != 0 <==> 0x30 <= b <= 0x39,
        cls_of(b) & 0x08 != 0 <==> b == 0x20,
        cls_of(b) & 0x10 != 0 <==> b == 0x0d,
        cls_of(b) & 0x20 != 0 <==> b == 0x0a,
        cls_of(b) & 0x40 != 0 <==> b == 0x3a || b == 0x2e || b == 0x27,
        cls_of(b) & 0x80 != 0 <==> b == 0x2c || b == 0x3b || b == 0x2e || b == 0x27,
{
    lemma_cls_bits(ascii_property(b));
    law_values_of_ascii_bytes(b);
}

/// Which classes stay together, and which two make a window wait, bit by bit.
pub proof fn law_rules_on_classes(pp: u8, p: u8, c: u8, n: u8)
    ensures
        joins(pp, p, c, n) <==> {
            ||| p & 0x01 != 0 && c & 0x01 != 0
            ||| p & 0x08 != 0 && c & 0x08 != 0
            ||| p & 0x10 != 0 && c & 0x20 != 0
            ||| p & 0x02 != 0 && c & 0x40 != 0 && n & 0x02 != 0
            ||| pp & 0x02 != 0 && p & 0x40 != 0 && c & 0x02 != 0
            ||| p & 0x04 != 0 && c & 0x80 != 0 && n & 0x04 != 0
            ||| pp & 0x04 != 0 && p & 0x80 != 0 && c & 0x04 != 0
        },
        waits(p, c) <==> (p & 0x02 != 0 && c & 0x40 != 0) || (p & 0x04 != 0 && c & 0x80 != 0),
{
}

// ---------------------------------------------------------------------------------------------
// Windows
// ---------------------------------------------------------------------------------------------

/// A window is decided just if its bytes, the two before it and the one behind it are ASCII.
pub proof fn law_windows_that_are_decided(bytes: Seq<u8>, pos: int, width: int, j: int)
    ensures
        ascii_window(bytes, pos, width) && pos - 2 <= j <= pos + width ==> bytes[j] < 0x80,
        (forall|m: int| pos - 2 <= m <= pos + width ==> #[trigger] bytes[m] < 0x80)
            ==> ascii_window(bytes, pos, width),
{
}

/// Whether a boundary falls before a byte can be seen from it, the two before it and the one behind
/// it: where these are the same, so is the answer.
pub proof fn law_window_breaks_are_local(bytes: Seq<u8>, j: int, other: Seq<u8>, k: int)
    requires
        bytes[j - 2] == other[k - 2],
        bytes[j - 1] == other[k - 1],
        bytes[j] == other[k],
        bytes[j + 1] == other[k + 1],
    ensures
        breaks_at(bytes, j) == breaks_at(other, k),
{
}

/// The masks of a window: its ASCII letters and digits, and its ASCII capital letters.
pub proof fn law_masks_of_a_window(w: WindowTokens, bytes: Seq<u8>, pos: int, width: int, i: u32)
    requires
        decides(w, bytes, pos, width),
        i < 32,
    ensures
        (w.word_like >> i) & 1 == 1 <==> i < width && ({
            let b = bytes[pos + i];
            0x41 <= b <= 0x5a || 0x61 <= b <= 0x7a || 0x30 <= b <= 0x39
        }),
        (w.ascii_upper >> i) & 1 == 1 <==> i < width && 0x41 <= bytes[pos + i] <= 0x5a,
{
    assert(lane(w.word_like, i) == ((w.word_like >> i) & 1 == 1));
    assert(lane(w.ascii_upper, i) == ((w.ascii_upper >> i) & 1 == 1));
    lemma_token_bits(bytes[pos + i]);
}

/// What else is decided of a window of sixteen bytes: its ASCII letters and digits, its capital
/// letters, and its last two bytes with their classes.
pub proof fn law_decisions_tell_of_the_bytes(
    d: Decisions,
    bytes: Seq<u8>,
    pos: int,
    pp: u8,
    p: u8,
    n: u8,
    i: u16,
)
    requires
        decided(d, bytes, pos, pp, p, n),
        i < 16,
    ensures
        (d.word_like >> i) & 1 == 1 <==> ({
            let b = bytes[pos + i];
            0x41 <= b <= 0x5a || 0x61 <= b <= 0x7a || 0x30 <= b <= 0x39
        }),
        (d.upper >> i) & 1 == 1 <==> 0x41 <= bytes[pos + i] <= 0x5a,
        d.last_byte == bytes[pos + 15],
        d.prev_last_byte == bytes[pos + 14],
        d.last_class == cls_of(bytes[pos + 15]),
        d.prev_last_class == cls_of(bytes[pos + 14]),
{
    assert(lane16(d.word_like, i) == ((d.word_like >> i) & 1 == 1));
    assert(lane16(d.upper, i) == ((d.upper >> i) & 1 == 1));
    lemma_cls_bits(ascii_property(bytes[pos + i]));
    law_values_of_ascii_bytes(bytes[pos + i]);
}

/// What is decided of a byte depends on the classes of the two before it and the one behind it: the
/// given ones at the edges of the window, those of its bytes inside.
pub proof fn law_decisions_use_their_context(
    d: Decisions,
    bytes: Seq<u8>,
    pos: int,
    pp: u8,
    p: u8,
    n: u8,
    i: u16,
)
    requires
        decided(d, bytes, pos, pp, p, n),
        2 <= i < 15,
    ensures
        d.breaks & 1 == 0 <==> joins(pp, p, cls_of(bytes[pos]), cls_of(bytes[pos + 1])),
        (d.breaks >> 1) & 1 == 0 <==> joins(
            p,
            cls_of(bytes[pos]),
            cls_of(bytes[pos + 1]),
            cls_of(bytes[pos + 2]),
        ),
        (d.breaks >> i) & 1 == 0 <==> joins(
            cls_of(bytes[pos + i - 2]),
            cls_of(bytes[pos + i - 1]),
            cls_of(bytes[pos + i]),
            cls_of(bytes[pos + i + 1]),
        ),
        (d.breaks >> 15) & 1 == 0 <==> joins(
            cls_of(bytes[pos + 13]),
            cls_of(bytes[pos + 14]),
            cls_of(bytes[pos + 15]),
            n,
        ),
{
    let x = d.breaks;
    lemma_lane16(x, 0);
    lemma_lane16(x, 1);
    lemma_lane16(x, i);
    lemma_lane16(x, 15);
}

proof fn lemma_lane16(x: u16, i: u16)
    by (bit_vector)
    requires
        i < 16,
    ensures
        x >> 0u16 == x,
        lane16(x, i) <==> (x >> i) & 1 != 0,
        (x >> i) & 1 == 1 <==> (x >> i) & 1 != 0,
{
}

/// A bit of a mask.
pub proof fn law_bits_of_a_mask(mask: u32, i: u32)
    ensures
        lane(mask, i) <==> (mask >> i) & 1 == 1,
{
}

/// There is something to decide at `pos` just if sixteen bytes follow and all of them are ASCII.
pub proof fn law_windows_of_sixteen_bytes(bytes: Seq<u8>, pos: int, j: int)
    ensures
        window_at(bytes, pos) ==> pos + 16 <= bytes.len(),
        window_at(bytes, pos) && pos <= j < pos + 16 ==> bytes[j] < 0x80,
        pos + 16 <= bytes.len() && (forall|m: int|
            pos <= m < pos + 16 ==> #[trigger] bytes[m] < 0x80) ==> window_at(bytes, pos),
{
    if window_at(bytes, pos) && pos <= j < pos + 16 {
        assert(bytes[pos + (j - pos)] < 0x80);
    }
}

// ---------------------------------------------------------------------------------------------
// Vectors
// ---------------------------------------------------------------------------------------------

/// A table in two halves has the entries of the first half, then those of the second, and nothing
/// for bytes outside ASCII.
pub proof fn law_lookup_in_halves(top: U8x16x4, bottom: U8x16x4, b: u8)
    ensures
        b < 128 ==> lookup(top, bottom, b) == (top@ + bottom@)[b as int],
        b >= 128 ==> lookup(top, bottom, b) == 0,
{
}

/// Packing loses nothing: both class bytes can be told from their packed halves.
pub proof fn law_packing_loses_nothing(even: u8, odd: u8)
    ensures
        (pack_lo(even, odd) & 0x0F) | (pack_hi(even, odd) << 4) == even,
        (pack_lo(even, odd) >> 4) | (pack_hi(even, odd) & 0xF0) == odd,
{
    lemma_unpack(0, 0, even, odd);
}

/// In a vector that has set at most the lowest bit of each nibble, nibble `p` is marked just if it is
/// set: low nibbles are even, high ones odd.
pub proof fn law_marked_nibbles(v: Seq<u8>, p: int)
    requires
        0 <= p < 2 * v.len(),
        v[p / 2] == 0x00 || v[p / 2] == 0x01 || v[p / 2] == 0x10 || v[p / 2] == 0x11,
    ensures
        p % 2 == 0 ==> (nibble_mark(v, p) <==> v[p / 2] == 0x01 || v[p / 2] == 0x11),
        p % 2 == 1 ==> (nibble_mark(v, p) <==> v[p / 2] == 0x10 || v[p / 2] == 0x11),
{
    assert(0x00u8 & 0x09 == 0 && 0x01u8 & 0x09 != 0 && 0x10u8 & 0x09 == 0 && 0x11u8 & 0x09 != 0
        && 0x00u8 & 0x12 == 0 && 0x01u8 & 0x12 == 0 && 0x10u8 & 0x12 != 0 && 0x11u8 & 0x12 != 0)
        by (bit_vector);
}

} // verus!
