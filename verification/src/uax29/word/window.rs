//! Boundaries of a whole window of ASCII bytes at once.

use crate::uax29::word::class::{
    ascii_custom, class_byte, class_word, has, joined_class, CARRIAGE_RETURN, EXTEND, LETTER,
    LINE_FEED, MID_LET, MID_NUM, NUMERIC, SPACE,
};
use crate::uax29::word::properties::ascii_token_bits;
use crate::uax29::word::token::{HAS_ASCII_UPPER_MASK, WORD_LIKE_MASK};
use vstd::prelude::*;
use vstd::std_specs::bits::{axiom_u32_trailing_zeros, u32_trailing_zeros};

verus! {

/// What is decided of a window, one bit per byte: bit `i` is about the `i`-th byte of the window.
#[derive(Copy, Clone, Debug, PartialEq, Eq)]
pub struct WindowTokens {
    /// A boundary falls right before the byte.
    pub breaks: u32,
    /// The byte makes its token word-like.
    pub word_like: u32,
    /// The byte is an uppercase letter.
    pub ascii_upper: u32,
}

/// Bit `i` of a mask.
pub open spec fn lane(mask: u32, i: u32) -> bool {
    (mask >> i) & 1 == 1
}

/// Do the rules put a boundary right before the byte at `j`?
pub open spec fn breaks_at(bytes: Seq<u8>, j: int) -> bool {
    !joined_class(
        class_byte(bytes[j - 2]),
        class_byte(bytes[j - 1]),
        class_byte(bytes[j]),
        class_byte(bytes[j + 1]),
    )
}

/// Are the bytes of the window at `pos`, the two before it and the one behind it all ASCII?
pub open spec fn ascii_window(bytes: Seq<u8>, pos: int, width: int) -> bool {
    forall|j: int| pos - 2 <= j <= pos + width ==> #[trigger] bytes[j] < 0x80
}

/// `w` says what is the case in the window of `width` bytes at `pos`.
pub open spec fn decides(w: WindowTokens, bytes: Seq<u8>, pos: int, width: int) -> bool {
    &&& forall|i: u32|
        i < 32 ==> #[trigger] lane(w.breaks, i) == (i < width && breaks_at(bytes, pos + i))
    &&& forall|i: u32|
        i < 32 ==> #[trigger] lane(w.word_like, i) == (i < width && has(
            ascii_token_bits(bytes[pos + i]),
            WORD_LIKE_MASK,
        ))
    &&& forall|i: u32|
        i < 32 ==> #[trigger] lane(w.ascii_upper, i) == (i < width && has(
            ascii_token_bits(bytes[pos + i]),
            HAS_ASCII_UPPER_MASK,
        ))
}

/// Decides windows of one size.
pub trait WindowProcessor: Copy {
    /// Bytes of left context that `process` reads before `pos`; the caller must not call `process`
    /// with a smaller `pos`.
    const MIN_POS: usize;

    /// Bytes per window.
    const WINDOW_SIZE: usize;

    /// A window needs two bytes of left context, and its masks leave room for three more bits.
    proof fn sizes()
        ensures
            2 <= Self::MIN_POS,
            1 <= Self::WINDOW_SIZE <= 29,
    ;

    /// What the processor has kept is right for `bytes`.
    spec fn wf(&self, bytes: Seq<u8>) -> bool;

    fn new() -> (p: Self)
        ensures
            forall|bytes: Seq<u8>| #[trigger] p.wf(bytes),
    ;

    /// Decides the window at `pos`; `None` if a byte of the window, one of the two before it or the
    /// one behind it is not ASCII.
    fn process(&mut self, bytes: &[u8], pos: usize) -> (w: Option<WindowTokens>)
        requires
            old(self).wf(bytes@),
            Self::MIN_POS <= pos,
            pos + Self::WINDOW_SIZE < bytes@.len(),
        ensures
            final(self).wf(bytes@),
            w is Some <==> ascii_window(bytes@, pos as int, Self::WINDOW_SIZE as int),
            w matches Some(w) ==> decides(w, bytes@, pos as int, Self::WINDOW_SIZE as int),
    ;
}

// ---------------------------------------------------------------------------------------------
// Masks
// ---------------------------------------------------------------------------------------------

/// A bit is added to a mask.
proof fn lemma_add_lane(mask: u32, v: u32, i: u32)
    by (bit_vector)
    requires
        v <= 1,
        i < 32,
    ensures
        forall|j: u32|
            j < 32 ==> #[trigger] lane(mask | (v << i), j) == (lane(mask, j) || (j == i && v == 1)),
{
}

/// The empty mask.
proof fn lemma_no_lane()
    by (bit_vector)
    ensures
        forall|j: u32| j < 32 ==> !#[trigger] lane(0, j),
{
}

/// The rules, on masks whose bits run from two bytes before the window to one behind it.
pub open spec fn rules_on_masks(
    letter: u32,
    mid_num: u32,
    extend: u32,
    mid_let: u32,
    numeric: u32,
    cr: u32,
    lf: u32,
    wseg: u32,
) -> u32 {
    let wb6 = (letter << 1) & mid_let & (letter >> 1);
    let wb12 = (numeric << 1) & mid_num & (numeric >> 1);
    wb6 | (wb6 << 1) | (wb12 | (wb12 << 1)) | (extend & (extend << 1)) | (lf & (cr << 1)) | (wseg
        & (wseg << 1))
}

/// The rules on masks decide each byte as the rules on its neighbours do.
proof fn lemma_rules_on_masks(
    letter: u32,
    mid_num: u32,
    extend: u32,
    mid_let: u32,
    numeric: u32,
    cr: u32,
    lf: u32,
    wseg: u32,
    i: u32,
)
    by (bit_vector)
    requires
        i < 29,
    ensures
        lane(
            rules_on_masks(letter, mid_num, extend, mid_let, numeric, cr, lf, wseg),
            (i + 2) as u32,
        ) == {
            ||| lane(letter, (i + 1) as u32) && lane(mid_let, (i + 2) as u32) && lane(
                letter,
                (i + 3) as u32,
            )
            ||| lane(letter, i) && lane(mid_let, (i + 1) as u32) && lane(letter, (i + 2) as u32)
            ||| lane(numeric, (i + 1) as u32) && lane(mid_num, (i + 2) as u32) && lane(
                numeric,
                (i + 3) as u32,
            )
            ||| lane(numeric, i) && lane(mid_num, (i + 1) as u32) && lane(numeric, (i + 2) as u32)
            ||| lane(extend, (i + 1) as u32) && lane(extend, (i + 2) as u32)
            ||| lane(cr, (i + 1) as u32) && lane(lf, (i + 2) as u32)
            ||| lane(wseg, (i + 1) as u32) && lane(wseg, (i + 2) as u32)
        },
{
}

/// Masks with the same bits are the same.
proof fn lemma_same_lanes(a: u32, b: u32)
    requires
        forall|i: u32| i < 32 ==> #[trigger] lane(a, i) == lane(b, i),
    ensures
        a == b,
{
    let x = a ^ b;
    let t = u32_trailing_zeros(x);
    axiom_u32_trailing_zeros(x);
    if t < 32 {
        assert(lane(a, t) == lane(b, t));
    }
    assert(a == b) by (bit_vector)
        requires
            x == a ^ b,
            x != 0 ==> t < 32 && lane(x, t) && lane(a, t) == lane(b, t),
    ;
}

/// A window leaves nothing open: processors of the same window size decide alike.
pub proof fn law_window_tokens_are_unique(
    w1: WindowTokens,
    w2: WindowTokens,
    bytes: Seq<u8>,
    pos: int,
    width: int,
)
    requires
        decides(w1, bytes, pos, width),
        decides(w2, bytes, pos, width),
    ensures
        w1 == w2,
{
    lemma_same_lanes(w1.breaks, w2.breaks);
    lemma_same_lanes(w1.word_like, w2.word_like);
    lemma_same_lanes(w1.ascii_upper, w2.ascii_upper);
}

/// What a processor answers for a window does not depend on the processor, if the window size is the
/// same, nor on what it has kept of earlier windows: a fresh one gives the same answer.
pub proof fn law_processors_answer_alike(
    w1: Option<WindowTokens>,
    w2: Option<WindowTokens>,
    bytes: Seq<u8>,
    pos: int,
    width: int,
)
    requires
        w1 is Some <==> ascii_window(bytes, pos, width),
        w1 matches Some(w) ==> decides(w, bytes, pos, width),
        w2 is Some <==> ascii_window(bytes, pos, width),
        w2 matches Some(w) ==> decides(w, bytes, pos, width),
    ensures
        w1 == w2,
{
    if w1 is Some {
        law_window_tokens_are_unique(w1->0, w2->0, bytes, pos, width);
    }
}

// ---------------------------------------------------------------------------------------------
// One byte after the other
// ---------------------------------------------------------------------------------------------

/// Bytes per window of [`Scalar`].
pub const SCALAR_WINDOW: usize = 16;

/// Is one of the `count` bytes at `start` not ASCII?
pub(crate) fn has_non_ascii(bytes: &[u8], start: usize, count: usize) -> (yes: bool)
    requires
        start + count <= bytes@.len(),
    ensures
        yes == exists|j: int| start <= j < start + count && #[trigger] bytes@[j] >= 0x80,
{
    let mut high_bit_acc: u8 = 0;
    let mut i: usize = 0;
    assert(0u8 & 0x80u8 == 0) by (bit_vector);
    while i < count
        invariant
            i <= count,
            start + count <= bytes@.len(),
            (high_bit_acc & 0x80 != 0) == exists|j: int|
                start <= j < start + i && #[trigger] bytes@[j] >= 0x80,
        decreases count - i,
    {
        assert(bytes@.len() == bytes.len());
        let b: u8 = bytes[start + i];
        let acc: u8 = high_bit_acc | b;
        assert((acc & 0x80 != 0) == ((high_bit_acc & 0x80 != 0) || b >= 0x80)) by (bit_vector)
            requires
                acc == high_bit_acc | b,
        ;
        assert(b == bytes@[start + i]);
        high_bit_acc = acc;
        i = i + 1;
    }
    high_bit_acc & 0x80 != 0
}

/// The masks that the bytes from `from` on have set so far.
spec fn masks_class(mask: u32, bytes: Seq<u8>, from: int, n: u32, bit: u8) -> bool {
    forall|j: u32|
        j < 32 ==> #[trigger] lane(mask, j) == (j < n && has(class_byte(bytes[from + j]), bit))
}

spec fn masks_bits(mask: u32, bytes: Seq<u8>, from: int, n: u32, bit: u8) -> bool {
    forall|j: u32|
        j < 32 ==> #[trigger] lane(mask, j) == (j < n && has(
            ascii_token_bits(bytes[from + j]),
            bit,
        ))
}

/// The bits of a class word, one by one.
pub proof fn lemma_class_word(b: u8)
    ensures
        class_word(b) as u32 & 1 == if has(class_byte(b), LETTER) {
            1u32
        } else {
            0
        },
        (class_word(b) as u32 >> 1) & 1 == if has(class_byte(b), MID_NUM) {
            1u32
        } else {
            0
        },
        (class_word(b) as u32 >> 2) & 1 == if has(class_byte(b), EXTEND) {
            1u32
        } else {
            0
        },
        (class_word(b) as u32 >> 3) & 1 == if has(class_byte(b), MID_LET) {
            1u32
        } else {
            0
        },
        (class_word(b) as u32 >> 4) & 1 == if has(class_byte(b), NUMERIC) {
            1u32
        } else {
            0
        },
        (class_word(b) as u32 >> 5) & 1 == if has(class_byte(b), CARRIAGE_RETURN) {
            1u32
        } else {
            0
        },
        (class_word(b) as u32 >> 6) & 1 == if has(class_byte(b), LINE_FEED) {
            1u32
        } else {
            0
        },
        (class_word(b) as u32 >> 7) & 1 == if has(class_byte(b), SPACE) {
            1u32
        } else {
            0
        },
        (class_word(b) as u32 >> 8) & 1 == if has(ascii_token_bits(b), WORD_LIKE_MASK) {
            1u32
        } else {
            0
        },
        (class_word(b) as u32 >> 9) & 1 == if has(ascii_token_bits(b), HAS_ASCII_UPPER_MASK) {
            1u32
        } else {
            0
        },
{
    let c = class_byte(b);
    let w = has(ascii_token_bits(b), WORD_LIKE_MASK);
    let u = has(ascii_token_bits(b), HAS_ASCII_UPPER_MASK);
    let wl = if w {
        0x100u16
    } else {
        0
    };
    let up = if u {
        0x200u16
    } else {
        0
    };
    let x = class_word(b);
    assert((x as u32 & 1 == if has(c, LETTER) {
        1u32
    } else {
        0
    }) && ((x as u32 >> 1) & 1 == if has(c, MID_NUM) {
        1u32
    } else {
        0
    }) && ((x as u32 >> 2) & 1 == if has(c, EXTEND) {
        1u32
    } else {
        0
    }) && ((x as u32 >> 3) & 1 == if has(c, MID_LET) {
        1u32
    } else {
        0
    }) && ((x as u32 >> 4) & 1 == if has(c, NUMERIC) {
        1u32
    } else {
        0
    }) && ((x as u32 >> 5) & 1 == if has(c, CARRIAGE_RETURN) {
        1u32
    } else {
        0
    }) && ((x as u32 >> 6) & 1 == if has(c, LINE_FEED) {
        1u32
    } else {
        0
    }) && ((x as u32 >> 7) & 1 == if has(c, SPACE) {
        1u32
    } else {
        0
    }) && ((x as u32 >> 8) & 1 == if w {
        1u32
    } else {
        0
    }) && ((x as u32 >> 9) & 1 == if u {
        1u32
    } else {
        0
    })) by (bit_vector)
        requires
            x == (c as u16) | wl | up,
            wl == if w {
                0x100u16
            } else {
                0
            },
            up == if u {
                0x200u16
            } else {
                0
            },
    ;
}

/// The upper lanes are dropped, and the two before the window.
proof fn lemma_window_lanes(mask: u32, i: u32)
    by (bit_vector)
    requires
        i < 32,
    ensures
        lane((mask >> 2) & 0xFFFF, i) == (i < 16 && lane(mask, (i + 2) as u32)),
        lane(!(mask >> 2) & 0xFFFF, i) == (i < 16 && !lane(mask, (i + 2) as u32)),
{
}

/// Decides the window of 16 bytes at `pos`; `None` if a byte of the window, one of the two before it
/// or the one behind it is not ASCII.
pub fn maybe_process_ascii_window(bytes: &[u8], pos: usize) -> (w: Option<WindowTokens>)
    requires
        2 <= pos,
        pos + 16 < bytes@.len(),
    ensures
        w is Some <==> ascii_window(bytes@, pos as int, 16),
        w matches Some(w) ==> decides(w, bytes@, pos as int, 16),
{
    if has_non_ascii(bytes, pos - 2, SCALAR_WINDOW + 2 + 1) {
        return None;
    }
    assert(ascii_window(bytes@, pos as int, 16));
    let mut is_letter: u32 = 0;
    let mut is_mid_num: u32 = 0;
    let mut is_extend: u32 = 0;
    let mut is_mid_let: u32 = 0;
    let mut is_numeric: u32 = 0;
    let mut is_cr: u32 = 0;
    let mut is_lf: u32 = 0;
    let mut is_wseg: u32 = 0;
    let mut word_like: u32 = 0;
    let mut ascii_upper: u32 = 0;
    let ghost from = pos - 2;
    let mut i: u32 = 0;
    proof {
        lemma_no_lane();
    }
    while i < 19
        invariant
            i <= 19,
            from == pos - 2,
            2 <= pos,
            pos + 16 < bytes@.len(),
            masks_class(is_letter, bytes@, from, i, LETTER),
            masks_class(is_mid_num, bytes@, from, i, MID_NUM),
            masks_class(is_extend, bytes@, from, i, EXTEND),
            masks_class(is_mid_let, bytes@, from, i, MID_LET),
            masks_class(is_numeric, bytes@, from, i, NUMERIC),
            masks_class(is_cr, bytes@, from, i, CARRIAGE_RETURN),
            masks_class(is_lf, bytes@, from, i, LINE_FEED),
            masks_class(is_wseg, bytes@, from, i, SPACE),
            masks_bits(word_like, bytes@, from, i, WORD_LIKE_MASK),
            masks_bits(ascii_upper, bytes@, from, i, HAS_ASCII_UPPER_MASK),
        decreases 19 - i,
    {
        assert(bytes@.len() == bytes.len());
        let b: u8 = bytes[pos - 2 + i as usize];
        let idx: u32 = ascii_custom(b) as u32;
        assert(b == bytes@[from + i]);
        proof {
            lemma_class_word(b);
            lemma_add_lane(is_letter, idx & 1, i);
            lemma_add_lane(is_mid_num, (idx >> 1) & 1, i);
            lemma_add_lane(is_extend, (idx >> 2) & 1, i);
            lemma_add_lane(is_mid_let, (idx >> 3) & 1, i);
            lemma_add_lane(is_numeric, (idx >> 4) & 1, i);
            lemma_add_lane(is_cr, (idx >> 5) & 1, i);
            lemma_add_lane(is_lf, (idx >> 6) & 1, i);
            lemma_add_lane(is_wseg, (idx >> 7) & 1, i);
            lemma_add_lane(word_like, (idx >> 8) & 1, i);
            lemma_add_lane(ascii_upper, (idx >> 9) & 1, i);
        }
        is_letter = is_letter | ((idx & 1) << i);
        is_mid_num = is_mid_num | (((idx >> 1) & 1) << i);
        is_extend = is_extend | (((idx >> 2) & 1) << i);
        is_mid_let = is_mid_let | (((idx >> 3) & 1) << i);
        is_numeric = is_numeric | (((idx >> 4) & 1) << i);
        is_cr = is_cr | (((idx >> 5) & 1) << i);
        is_lf = is_lf | (((idx >> 6) & 1) << i);
        is_wseg = is_wseg | (((idx >> 7) & 1) << i);
        word_like = word_like | (((idx >> 8) & 1) << i);
        ascii_upper = ascii_upper | (((idx >> 9) & 1) << i);
        i = i + 1;
    }
    let wb6: u32 = (is_letter << 1) & is_mid_let & (is_letter >> 1);
    let wb6wb7: u32 = wb6 | (wb6 << 1);
    let wb12: u32 = (is_numeric << 1) & is_mid_num & (is_numeric >> 1);
    let wb11wb12: u32 = wb12 | (wb12 << 1);
    let wbex1: u32 = is_extend & (is_extend << 1);
    let wbcrlf: u32 = is_lf & (is_cr << 1);
    let wbwseg: u32 = is_wseg & (is_wseg << 1);
    let do_not_break: u32 = wb6wb7 | wb11wb12 | wbex1 | wbcrlf | wbwseg;
    let w = WindowTokens {
        breaks: !(do_not_break >> 2) & 0xFFFF,
        word_like: (word_like >> 2) & 0xFFFF,
        ascii_upper: (ascii_upper >> 2) & 0xFFFF,
    };
    proof {
        assert(do_not_break == rules_on_masks(
            is_letter,
            is_mid_num,
            is_extend,
            is_mid_let,
            is_numeric,
            is_cr,
            is_lf,
            is_wseg,
        ));
        assert forall|i: u32| i < 32 implies #[trigger] lane(w.breaks, i) == (i < 16 && breaks_at(
            bytes@,
            pos + i,
        )) by {
            lemma_window_lanes(do_not_break, i);
            if i < 16 {
                lemma_rules_on_masks(
                    is_letter,
                    is_mid_num,
                    is_extend,
                    is_mid_let,
                    is_numeric,
                    is_cr,
                    is_lf,
                    is_wseg,
                    i,
                );
            }
        }
        assert forall|i: u32| i < 32 implies #[trigger] lane(w.word_like, i) == (i < 16 && has(
            ascii_token_bits(bytes@[pos + i]),
            WORD_LIKE_MASK,
        )) by {
            lemma_window_lanes(word_like, i);
        }
        assert forall|i: u32| i < 32 implies #[trigger] lane(w.ascii_upper, i) == (i < 16 && has(
            ascii_token_bits(bytes@[pos + i]),
            HAS_ASCII_UPPER_MASK,
        )) by {
            lemma_window_lanes(ascii_upper, i);
        }
    }
    Some(w)
}

/// Decides a window one byte after the other.
#[derive(Copy, Clone, Debug)]
pub struct Scalar;

impl WindowProcessor for Scalar {
    const MIN_POS: usize = 2;

    const WINDOW_SIZE: usize = 16;

    proof fn sizes()
        ensures
            Self::MIN_POS == 2,
            Self::WINDOW_SIZE == 16,
    {
    }

    open spec fn wf(&self, bytes: Seq<u8>) -> bool {
        true
    }

    fn new() -> (p: Self) {
        Scalar
    }

    fn process(&mut self, bytes: &[u8], pos: usize) -> (w: Option<WindowTokens>) {
        maybe_process_ascii_window(bytes, pos)
    }
}

} // verus!
