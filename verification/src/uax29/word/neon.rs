//! Window kernels on byte vectors, with one nibble per byte of text.

use crate::uax29::word::class::{
    ascii_custom_byte, ascii_custom_byte_table, class_byte, has, joined_class, lemma_class_bits,
    LETTER, NUMERIC,
};
use crate::uax29::word::properties::{ascii_property, ascii_token_bits};
use crate::uax29::word::simd::{
    vandq_u8, vcleq_u8, vdupq_n_u8, vextq_u8, vgetq_lane_u64, vld1q_u8, vld1q_u8_x4, vmvnq_u8,
    vorrq_u8, vqtbl4q_u8, vsetq_lane_u8, vshlq_n_u8, vshrq_n_u8, vsliq_4_u8, vsriq_4_u8, vsubq_u8,
    vuzp1q_u8, vuzp2q_u8, U8x16, U8x16x4,
};
use crate::uax29::word::token::{lemma_masks, lemma_or, HAS_ASCII_UPPER_MASK, WORD_LIKE_MASK};
use crate::uax29::word::window::{
    ascii_window, breaks_at, decides, has_non_ascii, lane, WindowProcessor, WindowTokens,
};
use vstd::prelude::*;
use vstd::slice::slice_subrange;

verus! {

// ---------------------------------------------------------------------------------------------
// Looking up class bytes
// ---------------------------------------------------------------------------------------------

/// The entry for `b` in a table of 128 bytes that comes in two halves; 0 if there is none.
pub open spec fn lookup(top: U8x16x4, bottom: U8x16x4, b: u8) -> u8 {
    if b < 64 {
        top@[b as int]
    } else if b < 128 {
        bottom@[b - 64]
    } else {
        0
    }
}

/// The low halves of two class bytes in one byte.
pub open spec fn pack_lo(even: u8, odd: u8) -> u8 {
    (even & 0x0F) | (odd << 4)
}

/// The high halves of two class bytes in one byte.
pub open spec fn pack_hi(even: u8, odd: u8) -> u8 {
    (odd & 0xF0) | (even >> 4)
}

/// Both halves of a table of 128 bytes.
pub fn load_table_128(table: &[u8; 128]) -> (halves: (U8x16x4, U8x16x4))
    ensures
        forall|b: u8| b < 128 ==> #[trigger] lookup(halves.0, halves.1, b) == table@[b as int],
{
    let bytes = table.as_slice();
    (vld1q_u8_x4(bytes, 0), vld1q_u8_x4(bytes, 64))
}

/// The entries for the first sixteen bytes.
pub fn table_lookup32(top: U8x16x4, bottom: U8x16x4, bytes: &[u8]) -> (r: U8x16)
    requires
        16 <= bytes@.len(),
    ensures
        forall|i: int| 0 <= i < 16 ==> #[trigger] r@[i] == lookup(top, bottom, bytes@[i]),
{
    let input = vld1q_u8(bytes, 0);
    let top_tokens = vqtbl4q_u8(top, input);
    let bottom_tokens = vqtbl4q_u8(bottom, vsubq_u8(input, vdupq_n_u8(64)));
    let r = vorrq_u8(top_tokens, bottom_tokens);
    proof {
        assert forall|i: int| 0 <= i < 16 implies #[trigger] r@[i] == lookup(
            top,
            bottom,
            bytes@[i],
        ) by {
            assert(input@[i] == bytes@[0 + i]);
            lemma_or(top_tokens@[i], 0, 0);
            lemma_or(bottom_tokens@[i], 0, 0);
        }
    }
    r
}

/// Packs the class bytes of sixteen bytes into the low eight lanes, and again into the high ones.
fn pack(tokens: U8x16) -> (r: (U8x16, U8x16))
    ensures
        forall|i: int|
            0 <= i < 16 ==> #[trigger] r.0@[i] == pack_lo(
                tokens@[2 * (i % 8)],
                tokens@[2 * (i % 8) + 1],
            ),
        forall|i: int|
            0 <= i < 16 ==> #[trigger] r.1@[i] == pack_hi(
                tokens@[2 * (i % 8)],
                tokens@[2 * (i % 8) + 1],
            ),
{
    let even_tokens = vuzp1q_u8(tokens, tokens);
    let odd_tokens = vuzp2q_u8(tokens, tokens);
    let lo = vsliq_4_u8(even_tokens, odd_tokens);
    let hi = vsriq_4_u8(odd_tokens, even_tokens);
    proof {
        assert forall|i: int| 0 <= i < 16 implies even_tokens@[i] == tokens@[2 * (i % 8)]
            && #[trigger] odd_tokens@[i] == tokens@[2 * (i % 8) + 1] by {
            if i < 8 {
                assert(i % 8 == i);
            } else {
                assert(i % 8 == i - 8);
            }
        }
    }
    (lo, hi)
}

/// The class bytes of the first sixteen bytes, packed into the low eight lanes, and again into the
/// high ones.
pub fn table_lookup(top: U8x16x4, bottom: U8x16x4, bytes: &[u8]) -> (r: (U8x16, U8x16))
    requires
        16 <= bytes@.len(),
    ensures
        forall|i: int|
            0 <= i < 16 ==> #[trigger] r.0@[i] == pack_lo(
                lookup(top, bottom, bytes@[2 * (i % 8)]),
                lookup(top, bottom, bytes@[2 * (i % 8) + 1]),
            ),
        forall|i: int|
            0 <= i < 16 ==> #[trigger] r.1@[i] == pack_hi(
                lookup(top, bottom, bytes@[2 * (i % 8)]),
                lookup(top, bottom, bytes@[2 * (i % 8) + 1]),
            ),
{
    pack(table_lookup32(top, bottom, bytes))
}

/// The class bytes of the first 32 bytes, packed.
pub fn load_byte_info(top: U8x16x4, bottom: U8x16x4, bytes: &[u8]) -> (r: (U8x16, U8x16))
    requires
        32 <= bytes@.len(),
    ensures
        forall|i: int|
            0 <= i < 16 ==> #[trigger] r.0@[i] == pack_lo(
                lookup(top, bottom, bytes@[2 * i]),
                lookup(top, bottom, bytes@[2 * i + 1]),
            ),
        forall|i: int|
            0 <= i < 16 ==> #[trigger] r.1@[i] == pack_hi(
                lookup(top, bottom, bytes@[2 * i]),
                lookup(top, bottom, bytes@[2 * i + 1]),
            ),
{
    let first_bytes = slice_subrange(bytes, 0, 16);
    let second_bytes = slice_subrange(bytes, 16, 32);
    let first = table_lookup32(top, bottom, first_bytes);
    let second = table_lookup32(top, bottom, second_bytes);
    let (first_lo, first_hi) = pack(first);
    let (second_lo, second_hi) = pack(second);
    let shifted_first_lo = vextq_u8(vdupq_n_u8(0), first_lo, 8);
    let lo = vextq_u8(shifted_first_lo, second_lo, 8);
    let shifted_first_hi = vextq_u8(vdupq_n_u8(0), first_hi, 8);
    let hi = vextq_u8(shifted_first_hi, second_hi, 8);
    proof {
        assert forall|i: int| 0 <= i < 16 implies lo@[i] == #[trigger] pack_lo(
            lookup(top, bottom, bytes@[2 * i]),
            lookup(top, bottom, bytes@[2 * i + 1]),
        ) && hi@[i] == pack_hi(
            lookup(top, bottom, bytes@[2 * i]),
            lookup(top, bottom, bytes@[2 * i + 1]),
        ) by {
            if i < 8 {
                assert(i % 8 == i);
                assert(lo@[i] == shifted_first_lo@[8 + i]);
                assert(shifted_first_lo@[8 + i] == first_lo@[i]);
                assert(hi@[i] == shifted_first_hi@[8 + i]);
                assert(shifted_first_hi@[8 + i] == first_hi@[i]);
                assert(first@[2 * i] == lookup(top, bottom, first_bytes@[2 * i]));
                assert(first@[2 * i + 1] == lookup(top, bottom, first_bytes@[2 * i + 1]));
            } else {
                let j = i - 8;
                assert(j % 8 == j);
                assert(lo@[i] == second_lo@[j]);
                assert(hi@[i] == second_hi@[j]);
                assert(second@[2 * j] == lookup(top, bottom, second_bytes@[2 * j]));
                assert(second@[2 * j + 1] == lookup(top, bottom, second_bytes@[2 * j + 1]));
            }
        }
    }
    (lo, hi)
}

// ---------------------------------------------------------------------------------------------
// One bit per nibble
// ---------------------------------------------------------------------------------------------

/// Gathers two bits of each of eight bytes: of each byte, whether it has bit 0 or 3, and whether it
/// has bit 1 or 4.
fn gather(lanes: u64) -> (mask: u64)
    ensures
        mask <= 0xFFFF,
        forall|p: u64|
            p < 16 ==> #[trigger] gathered(mask, p) == if p & 1 == 0 {
                (lanes >> (8 * (p >> 1)) as u64) & 0x09 != 0
            } else {
                (lanes >> (8 * (p >> 1)) as u64) & 0x12 != 0
            },
{
    let m1: u64 = (lanes | (lanes >> 3)) & 0x0303030303030303;
    let m2: u64 = (m1 | (m1 >> 6)) & 0x000F000F000F000F;
    let m3: u64 = (m2 | (m2 >> 12)) & 0x00FF00FF00FF00FF;
    let m4: u64 = (m3 >> 24) | m3;
    let mask: u64 = m4 & 0xFFFF;
    assert(mask <= 0xFFFF && forall|p: u64|
        p < 16 ==> #[trigger] gathered(mask, p) == if p & 1 == 0 {
            (lanes >> (8 * (p >> 1)) as u64) & 0x09 != 0
        } else {
            (lanes >> (8 * (p >> 1)) as u64) & 0x12 != 0
        }) by (bit_vector)
        requires
            m1 == (lanes | (lanes >> 3)) & 0x0303030303030303,
            m2 == (m1 | (m1 >> 6)) & 0x000F000F000F000F,
            m3 == (m2 | (m2 >> 12)) & 0x00FF00FF00FF00FF,
            m4 == (m3 >> 24) | m3,
            mask == m4 & 0xFFFF,
    ;
    mask
}

spec fn gathered(mask: u64, p: u64) -> bool {
    (mask >> p) & 1 == 1
}

/// Bit `p` of the mask of a vector: of byte `p / 2`, whether it has bit 0 or 3 if `p` is even, and
/// whether it has bit 1 or 4 if it is odd.
pub open spec fn nibble_mark(v: Seq<u8>, p: int) -> bool {
    if p % 2 == 0 {
        v[p / 2] & 0x09 != 0
    } else {
        v[p / 2] & 0x12 != 0
    }
}

/// One bit per nibble of a vector, out of vectors that have set at most the lowest bit of each.
pub fn move_nibble_mask(input: U8x16) -> (mask: u32)
    ensures
        forall|p: u32| p < 32 ==> #[trigger] lane(mask, p) == nibble_mark(input@, p as int),
{
    let low: u64 = vgetq_lane_u64(input, 0);
    let high: u64 = vgetq_lane_u64(input, 1);
    let lo_mask: u64 = gather(low);
    let hi_mask: u64 = gather(high);
    let mask: u32 = ((hi_mask << 16) | lo_mask) as u32;
    proof {
        assert forall|p: u32| p < 32 implies #[trigger] lane(mask, p) == nibble_mark(
            input@,
            p as int,
        ) by {
            let half: int = if p < 16 {
                0
            } else {
                1
            };
            let q = (p - 16 * half) as u64;
            let lanes = if p < 16 {
                low
            } else {
                high
            };
            let half_mask = if p < 16 {
                lo_mask
            } else {
                hi_mask
            };
            let i = (q / 2) as int;
            let byte = input@[8 * half + i];
            let wide = byte as u64;
            let shift = (8 * (q >> 1)) as u64;
            assert(lane(mask, p) == gathered(half_mask, q)) by (bit_vector)
                requires
                    mask == ((hi_mask << 16) | lo_mask) as u32,
                    p < 32,
                    lo_mask <= 0xFFFF,
                    hi_mask <= 0xFFFF,
                    p < 16 ==> q == p && half_mask == lo_mask,
                    p >= 16 ==> q == p - 16 && half_mask == hi_mask,
            ;
            assert(q >> 1 == q / 2 && q & 1 == q % 2) by (bit_vector);
            assert((lanes >> ((8 * i) as u64)) & 0xFF == byte);
            assert((lanes >> shift) & 0x09 == wide & 0x09 && (lanes >> shift) & 0x12 == wide & 0x12)
                by (bit_vector)
                requires
                    (lanes >> shift) & 0xFF == wide,
            ;
            assert(wide & 0x09 == byte & 0x09 && wide & 0x12 == byte & 0x12);
            assert(p as int % 2 == q as int % 2);
            assert(p as int / 2 == 8 * half + i);
        }
    }
    mask
}

/// Moves every nibble up by one.
fn shl_nibble(v: U8x16) -> (r: U8x16)
    ensures
        forall|i: int| 0 <= i < 16 ==> #[trigger] r@[i] == shl_lane(lane_at(v@, i - 1), v@[i]),
{
    let nxt = vextq_u8(vdupq_n_u8(0), v, 15);
    vsriq_4_u8(vshlq_n_u8(v, 4), nxt)
}

/// Moves every nibble down by one.
fn shr_nibble(v: U8x16) -> (r: U8x16)
    ensures
        forall|i: int| 0 <= i < 16 ==> #[trigger] r@[i] == shr_lane(v@[i], lane_at(v@, i + 1)),
{
    let prv = vextq_u8(v, vdupq_n_u8(0), 1);
    vsliq_4_u8(vshrq_n_u8(v, 4), prv)
}

/// A lane, 0 past the ends.
spec fn lane_at(v: Seq<u8>, i: int) -> u8 {
    if 0 <= i < 16 {
        v[i]
    } else {
        0
    }
}

spec fn shl_lane(before: u8, x: u8) -> u8 {
    ((x << 4) & 0xF0) | (before >> 4)
}

spec fn shr_lane(x: u8, behind: u8) -> u8 {
    ((x >> 4) & 0x0F) | (behind << 4)
}

// ---------------------------------------------------------------------------------------------
// The rules on packed class bytes
// ---------------------------------------------------------------------------------------------

/// WB6 on one lane of packed class bytes, with its neighbours.
spec fn wb6_lane(a: u8, b: u8, c: u8) -> u8 {
    shr_lane(b, c) & ((b >> 3) & shl_lane(a, b))
}

/// WB12 on one lane.
spec fn wb12_lane(b: u8, ha: u8, hb: u8, hc: u8) -> u8 {
    shr_lane(hb, hc) & ((b >> 1) & shl_lane(ha, hb))
}

/// All the rules on one lane: the lowest bit of each nibble tells whether its byte is joined to the
/// one before it.
spec fn join_lane(l0: u8, l1: u8, l2: u8, l3: u8, h0: u8, h1: u8, h2: u8, h3: u8) -> u8 {
    let wb6 = wb6_lane(l1, l2, l3);
    let wb12 = wb12_lane(l2, h1, h2, h3);
    let wb6wb7 = wb6 | shl_lane(wb6_lane(l0, l1, l2), wb6);
    let wb11wb12 = wb12 | shl_lane(wb12_lane(l1, h0, h1, h2), wb12);
    let wbex1 = (l2 & shl_lane(l1, l2)) >> 2;
    let wbwseg = (h2 & shl_lane(h1, h2)) >> 3;
    let wbcrlf = (h2 >> 2) & (shl_lane(h1, h2) >> 1);
    ((wb6wb7 | wb11wb12) | (wbex1 | wbwseg)) | wbcrlf
}

/// There is nothing to join before the first lane.
proof fn lemma_first_lane(c: u8, h: u8, hc: u8)
    by (bit_vector)
    ensures
        wb6_lane(0, 0, c) == 0,
        wb12_lane(0, 0, h, hc) == 0,
{
}

/// The even nibble of a lane is decided as its class bytes say.
proof fn lemma_even_nibble(c0: u8, c1: u8, c2: u8, c3: u8, c4: u8, c5: u8, l3: u8, h3: u8)
    by (bit_vector)
    ensures
        (join_lane(
            pack_lo(c0, c1),
            pack_lo(c2, c3),
            pack_lo(c4, c5),
            l3,
            pack_hi(c0, c1),
            pack_hi(c2, c3),
            pack_hi(c4, c5),
            h3,
        ) & 0x01 != 0) == joined_class(c2, c3, c4, c5),
{
}

/// The odd nibble of a lane is decided as its class bytes say.
proof fn lemma_odd_nibble(c0: u8, c1: u8, c2: u8, c3: u8, c4: u8, c5: u8, c6: u8, c7: u8)
    by (bit_vector)
    ensures
        (join_lane(
            pack_lo(c0, c1),
            pack_lo(c2, c3),
            pack_lo(c4, c5),
            pack_lo(c6, c7),
            pack_hi(c0, c1),
            pack_hi(c2, c3),
            pack_hi(c4, c5),
            pack_hi(c6, c7),
        ) & 0x10 != 0) == joined_class(c3, c4, c5, c6),
{
}

/// The rules on vectors of packed class bytes.
fn join_rules(full_lo: U8x16, full_hi: U8x16) -> (r: U8x16)
    ensures
        forall|i: int|
            0 <= i < 16 ==> #[trigger] r@[i] == join_lane(
                lane_at(full_lo@, i - 2),
                lane_at(full_lo@, i - 1),
                full_lo@[i],
                lane_at(full_lo@, i + 1),
                lane_at(full_hi@, i - 2),
                lane_at(full_hi@, i - 1),
                full_hi@[i],
                lane_at(full_hi@, i + 1),
            ),
{
    // wb6 = (is_letter << 1) & is_mid_let & (is_letter >> 1)
    let wb6 = vandq_u8(
        shr_nibble(full_lo),
        vandq_u8(vshrq_n_u8(full_lo, 3), shl_nibble(full_lo)),
    );
    // wb6wb7 = wb6 | (wb6 << 1)
    let wb6wb7 = vorrq_u8(wb6, shl_nibble(wb6));
    // wb12 = (is_numeric << 1) & is_mid_num & (is_numeric >> 1)
    let wb12 = vandq_u8(
        shr_nibble(full_hi),
        vandq_u8(vshrq_n_u8(full_lo, 1), shl_nibble(full_hi)),
    );
    // wb11wb12 = wb12 | (wb12 << 1)
    let wb11wb12 = vorrq_u8(wb12, shl_nibble(wb12));
    // wbex1 = is_extend & (is_extend << 1)
    let wbex1 = vshrq_n_u8(vandq_u8(full_lo, shl_nibble(full_lo)), 2);
    // wbwseg = is_wseg & (is_wseg << 1)
    let wbwseg = vshrq_n_u8(vandq_u8(full_hi, shl_nibble(full_hi)), 3);
    // wbcrlf = is_lf & (is_cr << 1)
    let wbcrlf = vandq_u8(vshrq_n_u8(full_hi, 2), vshrq_n_u8(shl_nibble(full_hi), 1));
    let a = vorrq_u8(wb6wb7, wb11wb12);
    let b = vorrq_u8(wbex1, wbwseg);
    let r = vorrq_u8(vorrq_u8(a, b), wbcrlf);
    proof {
        assert forall|i: int| 0 <= i < 16 implies #[trigger] lane_at(wb6@, i - 1) == wb6_lane(
            lane_at(full_lo@, i - 2),
            lane_at(full_lo@, i - 1),
            full_lo@[i],
        ) && lane_at(wb12@, i - 1) == wb12_lane(
            lane_at(full_lo@, i - 1),
            lane_at(full_hi@, i - 2),
            lane_at(full_hi@, i - 1),
            full_hi@[i],
        ) by {
            if i == 0 {
                lemma_first_lane(full_lo@[0], 0, full_hi@[0]);
            } else {
                assert(wb6@[i - 1] == lane_at(wb6@, i - 1));
                assert(wb12@[i - 1] == lane_at(wb12@, i - 1));
            }
        }
    }
    r
}

/// The first `n` lanes hold the class bytes `classes`, packed.
spec fn packed(lo: Seq<u8>, hi: Seq<u8>, classes: Seq<u8>, n: int) -> bool {
    &&& 1 <= n <= 16
    &&& classes.len() >= 2 * n
    &&& forall|i: int|
        0 <= i < n ==> #[trigger] lo[i] == pack_lo(classes[2 * i], classes[2 * i + 1])
    &&& forall|i: int|
        0 <= i < n ==> #[trigger] hi[i] == pack_hi(classes[2 * i], classes[2 * i + 1])
}

/// Is the byte with this class joined to the one before it?
spec fn joined_at(classes: Seq<u8>, p: int) -> bool {
    joined_class(classes[p - 2], classes[p - 1], classes[p], classes[p + 1])
}

/// A class byte of a letter or a digit.
pub open spec fn word_like_class(class: u8) -> bool {
    has(class, LETTER) || has(class, NUMERIC)
}

proof fn lemma_pack(d: u8, c0: u8, c1: u8)
    by (bit_vector)
    ensures
        pack_lo(0, 0) == 0,
        pack_hi(0, 0) == 0,
        ((!d & 0x11) & 0x09 != 0) == (d & 0x01 == 0),
        ((!d & 0x11) & 0x12 != 0) == (d & 0x10 == 0),
        (((pack_hi(c0, c1) | pack_lo(c0, c1)) & 0x11) & 0x09 != 0) == word_like_class(c0),
        (((pack_hi(c0, c1) | pack_lo(c0, c1)) & 0x11) & 0x12 != 0) == word_like_class(c1),
        pack_lo(d, d >> 4) == d,
        pack_hi(d, d >> 4) == d >> 4,
{
}

proof fn lemma_joined_nibble(lo: U8x16, hi: U8x16, joined: U8x16, classes: Seq<u8>, n: int, p: int)
    requires
        packed(lo@, hi@, classes, n),
        2 <= p,
        p + 1 < 2 * n,
        forall|i: int|
            0 <= i < 16 ==> #[trigger] joined@[i] == join_lane(
                lane_at(lo@, i - 2),
                lane_at(lo@, i - 1),
                lo@[i],
                lane_at(lo@, i + 1),
                lane_at(hi@, i - 2),
                lane_at(hi@, i - 1),
                hi@[i],
                lane_at(hi@, i + 1),
            ),
    ensures
        p % 2 == 0 ==> (joined@[p / 2] & 0x01 != 0) == joined_at(classes, p),
        p % 2 == 1 ==> (joined@[p / 2] & 0x10 != 0) == joined_at(classes, p),
{
    let i = p / 2;
    lemma_pack(0, 0, 0);
    let c0 = if i >= 2 {
        classes[2 * (i - 2)]
    } else {
        0
    };
    let c1 = if i >= 2 {
        classes[2 * (i - 2) + 1]
    } else {
        0
    };
    assert(lane_at(lo@, i - 2) == pack_lo(c0, c1));
    assert(lane_at(hi@, i - 2) == pack_hi(c0, c1));
    assert(lane_at(lo@, i - 1) == pack_lo(classes[2 * (i - 1)], classes[2 * (i - 1) + 1]));
    assert(lane_at(hi@, i - 1) == pack_hi(classes[2 * (i - 1)], classes[2 * (i - 1) + 1]));
    assert(lo@[i] == pack_lo(classes[2 * i], classes[2 * i + 1]));
    assert(hi@[i] == pack_hi(classes[2 * i], classes[2 * i + 1]));
    if p % 2 == 0 {
        lemma_even_nibble(
            c0,
            c1,
            classes[2 * i - 2],
            classes[2 * i - 1],
            classes[2 * i],
            classes[2 * i + 1],
            lane_at(lo@, i + 1),
            lane_at(hi@, i + 1),
        );
    } else {
        assert(lo@[i + 1] == pack_lo(classes[2 * (i + 1)], classes[2 * (i + 1) + 1]));
        assert(hi@[i + 1] == pack_hi(classes[2 * (i + 1)], classes[2 * (i + 1) + 1]));
        lemma_odd_nibble(
            c0,
            c1,
            classes[2 * i - 2],
            classes[2 * i - 1],
            classes[2 * i],
            classes[2 * i + 1],
            classes[2 * i + 2],
            classes[2 * i + 3],
        );
    }
}

/// The boundaries, from the third class byte on.
fn break_mask(
    full_lo: U8x16,
    full_hi: U8x16,
    Ghost(classes): Ghost<Seq<u8>>,
    Ghost(n): Ghost<int>,
) -> (mask: u32)
    requires
        packed(full_lo@, full_hi@, classes, n),
    ensures
        forall|p: u32| p + 3 < 2 * n ==> #[trigger] lane(mask, p) == !joined_at(classes, p + 2),
{
    let do_not_break = join_rules(full_lo, full_hi);
    let breaks = vandq_u8(vmvnq_u8(do_not_break), vdupq_n_u8(0x11));
    // Shift off the two bytes before the window.
    let shifted = vextq_u8(breaks, vdupq_n_u8(0), 1);
    let mask: u32 = move_nibble_mask(shifted);
    proof {
        assert forall|p: u32| p + 3 < 2 * n implies #[trigger] lane(mask, p) == !joined_at(
            classes,
            p + 2,
        ) by {
            let i = p as int / 2;
            assert(shifted@[i] == breaks@[i + 1]);
            lemma_joined_nibble(full_lo, full_hi, do_not_break, classes, n, p + 2);
            assert((p + 2) / 2 == i + 1);
            lemma_pack(do_not_break@[i + 1], 0, 0);
        }
    }
    mask
}

/// The letters and digits, from the third class byte on.
fn word_like_mask(
    full_lo: U8x16,
    full_hi: U8x16,
    Ghost(classes): Ghost<Seq<u8>>,
    Ghost(n): Ghost<int>,
) -> (mask: u32)
    requires
        packed(full_lo@, full_hi@, classes, n),
    ensures
        forall|p: u32|
            p + 2 < 2 * n ==> #[trigger] lane(mask, p) == word_like_class(classes[p + 2]),
{
    let both = vorrq_u8(full_hi, full_lo);
    let word_like_vector = vandq_u8(both, vdupq_n_u8(0x11));
    // Shift off the two bytes before the window.
    let shifted = vextq_u8(word_like_vector, vdupq_n_u8(0), 1);
    let mask: u32 = move_nibble_mask(shifted);
    proof {
        assert forall|p: u32| p + 2 < 2 * n implies #[trigger] lane(mask, p) == word_like_class(
            classes[p + 2],
        ) by {
            let i = p as int / 2;
            assert(shifted@[i] == word_like_vector@[i + 1]);
            assert(full_lo@[i + 1] == pack_lo(classes[2 * (i + 1)], classes[2 * (i + 1) + 1]));
            assert(full_hi@[i + 1] == pack_hi(classes[2 * (i + 1)], classes[2 * (i + 1) + 1]));
            lemma_pack(0, classes[2 * (i + 1)], classes[2 * (i + 1) + 1]);
        }
    }
    mask
}

/// One of `A` to `Z`.
pub open spec fn upper_byte(b: u8) -> bool {
    0x41 <= b <= 0x5a
}

/// A lane of 0 or 1 for each byte: 1 for uppercase letters.
fn upper_lanes(bytes: U8x16) -> (r: U8x16)
    ensures
        forall|i: int|
            0 <= i < 16 ==> #[trigger] r@[i] == if upper_byte(bytes@[i]) {
                1u8
            } else {
                0
            },
{
    let is_upper = vcleq_u8(vsubq_u8(bytes, vdupq_n_u8(0x41)), vdupq_n_u8(0x5a - 0x41));
    assert(0xFFu8 & 0x01 == 1 && 0u8 & 0x01 == 0) by (bit_vector);
    vandq_u8(is_upper, vdupq_n_u8(0x01))
}

/// The uppercase letters among 32 bytes.
fn upper_mask(first: U8x16, second: U8x16) -> (mask: u32)
    ensures
        forall|p: u32|
            p < 32 ==> #[trigger] lane(mask, p) == upper_byte((first@ + second@)[p as int]),
{
    let first_upper = upper_lanes(first);
    let second_upper = upper_lanes(second);
    let even = vuzp1q_u8(first_upper, second_upper);
    let odd = vuzp2q_u8(first_upper, second_upper);
    let full_upper = vorrq_u8(even, vshlq_n_u8(odd, 4));
    let mask: u32 = move_nibble_mask(full_upper);
    proof {
        assert forall|p: u32| p < 32 implies #[trigger] lane(mask, p) == upper_byte(
            (first@ + second@)[p as int],
        ) by {
            let i = p as int / 2;
            let e = even@[i];
            let o = odd@[i];
            assert(e == (first_upper@ + second_upper@)[2 * i]);
            assert(o == (first_upper@ + second_upper@)[2 * i + 1]);
            assert(((e | (o << 4)) & 0x09 != 0) == (e == 1) && ((e | (o << 4)) & 0x12 != 0) == (o
                == 1)) by (bit_vector)
                requires
                    e <= 1,
                    o <= 1,
            ;
        }
    }
    mask
}

/// Cutting masks to size.
proof fn lemma_cut(m: u32, i: u32)
    by (bit_vector)
    requires
        i < 32,
    ensures
        lane(m & 0x1FFFFFFF, i) == (i < 29 && lane(m, i)),
        lane((m >> 2) & 0x1FFFFFFF, i) == (i < 29 && lane(m, (i + 2) as u32)),
        lane(m & 0xFFFF, i) == (i < 16 && lane(m, i)),
{
}

// ---------------------------------------------------------------------------------------------
// Windows of 29 bytes
// ---------------------------------------------------------------------------------------------

/// `w` says what the class bytes `classes` of a window and its surroundings say: `classes[2]` is
/// that of the first byte of the window.
pub open spec fn decides_classes(
    w: WindowTokens,
    classes: Seq<u8>,
    bytes: Seq<u8>,
    pos: int,
    width: int,
) -> bool {
    &&& forall|i: u32|
        i < 32 ==> #[trigger] lane(w.breaks, i) == (i < width && !joined_class(
            classes[i as int],
            classes[i + 1],
            classes[i + 2],
            classes[i + 3],
        ))
    &&& forall|i: u32|
        i < 32 ==> #[trigger] lane(w.word_like, i) == (i < width && word_like_class(classes[i + 2]))
    &&& forall|i: u32|
        i < 32 ==> #[trigger] lane(w.ascii_upper, i) == (i < width && upper_byte(bytes[pos + i]))
}

/// The class bytes of `count` bytes from `from` on.
pub open spec fn classes_from(
    top: U8x16x4,
    bottom: U8x16x4,
    bytes: Seq<u8>,
    from: int,
    count: nat,
) -> Seq<u8> {
    Seq::new(count, |p: int| lookup(top, bottom, bytes[from + p]))
}

/// Decides the window of 29 bytes at `pos` with the class bytes of the given table; `None` if a byte
/// of the window, one of the two before it or the one behind it is not ASCII.
pub fn maybe_process_ascii_window_neon32(
    bytes: &[u8],
    pos: usize,
    top: U8x16x4,
    bottom: U8x16x4,
) -> (w: Option<WindowTokens>)
    requires
        2 <= pos,
        pos + 30 <= bytes@.len(),
    ensures
        w is Some <==> ascii_window(bytes@, pos as int, 29),
        w matches Some(w) ==> decides_classes(
            w,
            classes_from(top, bottom, bytes@, pos - 2, 32),
            bytes@,
            pos as int,
            29,
        ),
{
    if has_non_ascii(bytes, pos - 2, 32) {
        return None;
    }
    assert(ascii_window(bytes@, pos as int, 29));
    assert(bytes@.len() == bytes.len());
    let window_bytes = slice_subrange(bytes, pos - 2, pos + 30);
    let (full_lo, full_hi) = load_byte_info(top, bottom, window_bytes);
    let ghost classes = classes_from(top, bottom, bytes@, pos - 2, 32);
    assert(packed(full_lo@, full_hi@, classes, 16)) by {
        assert forall|p: int| 0 <= p < 32 implies #[trigger] window_bytes@[p] == bytes@[pos - 2
            + p] by {}
    }
    let full_mask: u32 = break_mask(full_lo, full_hi, Ghost(classes), Ghost(16));
    let word_like: u32 = word_like_mask(full_lo, full_hi, Ghost(classes), Ghost(16));
    let first = vld1q_u8(window_bytes, 0);
    let second = vld1q_u8(window_bytes, 16);
    let ascii_upper: u32 = upper_mask(first, second);
    let w = WindowTokens {
        breaks: full_mask & 0x1FFFFFFF,
        word_like: word_like & 0x1FFFFFFF,
        ascii_upper: (ascii_upper >> 2) & 0x1FFFFFFF,
    };
    proof {
        assert forall|i: u32| i < 32 implies #[trigger] lane(w.breaks, i) == (i < 29
            && !joined_class(
            classes[i as int],
            classes[i + 1],
            classes[i + 2],
            classes[i + 3],
        )) by {
            lemma_cut(full_mask, i);
            if i < 29 {
                assert(lane(full_mask, i) == !joined_at(classes, i + 2));
            }
        }
        assert forall|i: u32| i < 32 implies #[trigger] lane(w.word_like, i) == (i < 29
            && word_like_class(classes[i + 2])) by {
            lemma_cut(word_like, i);
        }
        assert forall|i: u32| i < 32 implies #[trigger] lane(w.ascii_upper, i) == (i < 29
            && upper_byte(bytes@[pos + i])) by {
            lemma_cut(ascii_upper, i);
            if i < 29 {
                let q = (i + 2) as u32;
                assert(lane(ascii_upper, q) == upper_byte((first@ + second@)[q as int]));
                assert((first@ + second@)[q as int] == window_bytes@[q as int]);
            }
        }
    }
    Some(w)
}

// ---------------------------------------------------------------------------------------------
// Windows of 16 bytes
// ---------------------------------------------------------------------------------------------

/// What is decided of a window of 16 bytes, with the packed class bytes of the window, which are the
/// left context of the next one.
#[derive(Copy, Clone, Debug, PartialEq, Eq)]
pub struct NeonWindowTokens {
    pub breaks: u32,
    pub word_like: u32,
    pub ascii_upper: u32,
    pub current_lo: U8x16,
    pub current_hi: U8x16,
}

impl NeonWindowTokens {
    /// What is decided of the window. The class bytes, which are not among the decisions, are left to
    /// [`holds_window`].
    pub open spec fn tokens(self) -> WindowTokens {
        WindowTokens {
            breaks: self.breaks,
            word_like: self.word_like,
            ascii_upper: self.ascii_upper,
        }
    }
}

/// The two class bytes in one lane of packed vectors.
pub open spec fn unpack_even(lo: u8, hi: u8) -> u8 {
    (lo & 0x0F) | (hi << 4)
}

pub open spec fn unpack_odd(lo: u8, hi: u8) -> u8 {
    (lo >> 4) | (hi & 0xF0)
}

/// The class bytes of a window of 16 bytes and its surroundings: the two before the window out of the
/// packed class bytes of the bytes before it, the one behind it out of the common table.
pub open spec fn classes_behind(
    top: U8x16x4,
    bottom: U8x16x4,
    previous_lo: U8x16,
    previous_hi: U8x16,
    bytes: Seq<u8>,
    pos: int,
) -> Seq<u8> {
    seq![
        unpack_even(previous_lo@[15], previous_hi@[15]),
        unpack_odd(previous_lo@[15], previous_hi@[15]),
    ] + classes_from(top, bottom, bytes, pos, 16) + seq![class_byte(bytes[pos + 16])]
}

/// Packing and unpacking.
pub proof fn lemma_unpack(lo: u8, hi: u8, c0: u8, c1: u8)
    by (bit_vector)
    ensures
        pack_lo(unpack_even(lo, hi), unpack_odd(lo, hi)) == lo,
        pack_hi(unpack_even(lo, hi), unpack_odd(lo, hi)) == hi,
        unpack_even(pack_lo(c0, c1), pack_hi(c0, c1)) == c0,
        unpack_odd(pack_lo(c0, c1), pack_hi(c0, c1)) == c1,
{
}

/// The vectors hold the packed class bytes of the sixteen bytes from `from` on, twice.
pub open spec fn holds_window(
    top: U8x16x4,
    bottom: U8x16x4,
    lo: U8x16,
    hi: U8x16,
    bytes: Seq<u8>,
    from: int,
) -> bool {
    &&& forall|i: int|
        0 <= i < 16 ==> #[trigger] lo@[i] == pack_lo(
            lookup(top, bottom, bytes[from + 2 * (i % 8)]),
            lookup(top, bottom, bytes[from + 2 * (i % 8) + 1]),
        )
    &&& forall|i: int|
        0 <= i < 16 ==> #[trigger] hi@[i] == pack_hi(
            lookup(top, bottom, bytes[from + 2 * (i % 8)]),
            lookup(top, bottom, bytes[from + 2 * (i % 8) + 1]),
        )
}

/// The window with its surroundings is packed into the low lanes.
proof fn lemma_full_packed(
    top: U8x16x4,
    bottom: U8x16x4,
    previous: (U8x16, U8x16),
    current: (U8x16, U8x16),
    full: (U8x16, U8x16),
    bytes: Seq<u8>,
    pos: int,
)
    requires
        holds_window(top, bottom, current.0, current.1, bytes, pos),
        forall|i: int|
            0 <= i < 16 && i != 9 ==> #[trigger] full.0@[i] == (previous.0@ + current.0@)[15 + i],
        forall|i: int|
            0 <= i < 16 && i != 9 ==> #[trigger] full.1@[i] == (previous.1@ + current.1@)[15 + i],
        full.0@[9] == class_byte(bytes[pos + 16]),
        full.1@[9] == class_byte(bytes[pos + 16]) >> 4,
    ensures
        packed(
            full.0@,
            full.1@,
            classes_behind(top, bottom, previous.0, previous.1, bytes, pos).push(
                class_byte(bytes[pos + 16]) >> 4,
            ),
            10,
        ),
{
    let next = class_byte(bytes[pos + 16]);
    let classes = classes_behind(top, bottom, previous.0, previous.1, bytes, pos).push(next >> 4);
    lemma_unpack(previous.0@[15], previous.1@[15], 0, 0);
    lemma_pack(next, 0, 0);
    assert forall|i: int| 0 <= i < 10 implies #[trigger] full.0@[i] == pack_lo(
        classes[2 * i],
        classes[2 * i + 1],
    ) && full.1@[i] == pack_hi(classes[2 * i], classes[2 * i + 1]) by {
        if 0 < i < 9 {
            let j = i - 1;
            assert(j % 8 == j);
            assert(full.0@[i] == current.0@[j]);
            assert(full.1@[i] == current.1@[j]);
            assert(classes[2 * i] == lookup(top, bottom, bytes[pos + 2 * j]));
            assert(classes[2 * i + 1] == lookup(top, bottom, bytes[pos + 2 * j + 1]));
        }
    }
}

/// Decides the window of 16 bytes at `pos` with the class bytes of the given table; `None` if a byte
/// of the window, one of the two before it or the one behind it is not ASCII. `previous_lo` and
/// `previous_hi` hold the packed class bytes of the bytes before the window.
pub fn maybe_process_ascii_window_neon(
    bytes: &[u8],
    pos: usize,
    top: U8x16x4,
    bottom: U8x16x4,
    previous_lo: U8x16,
    previous_hi: U8x16,
) -> (w: Option<NeonWindowTokens>)
    requires
        2 <= pos,
        pos + 16 < bytes@.len(),
    ensures
        w is Some <==> ascii_window(bytes@, pos as int, 16),
        w matches Some(w) ==> decides_classes(
            w.tokens(),
            classes_behind(top, bottom, previous_lo, previous_hi, bytes@, pos as int),
            bytes@,
            pos as int,
            16,
        ) && holds_window(top, bottom, w.current_lo, w.current_hi, bytes@, pos as int),
{
    if has_non_ascii(bytes, pos - 2, 19) {
        return None;
    }
    assert(ascii_window(bytes@, pos as int, 16));
    assert(bytes@.len() == bytes.len());
    let window_bytes = slice_subrange(bytes, pos, pos + 16);
    let (current_lo, current_hi) = table_lookup(top, bottom, window_bytes);
    let previous2_lo = vextq_u8(previous_lo, current_lo, 15);
    let previous2_hi = vextq_u8(previous_hi, current_hi, 15);
    let next_token: u8 = ascii_custom_byte(bytes[pos + 16]);
    let full_lo = vsetq_lane_u8(next_token, previous2_lo, 9);
    let full_hi = vsetq_lane_u8(next_token >> 4, previous2_hi, 9);
    let ghost seen = classes_behind(top, bottom, previous_lo, previous_hi, bytes@, pos as int);
    let ghost classes = seen.push(next_token >> 4);
    proof {
        assert(holds_window(top, bottom, current_lo, current_hi, bytes@, pos as int)) by {
            assert forall|i: int| 0 <= i < 16 implies #[trigger] window_bytes@[i] == bytes@[pos
                + i] by {}
        }
        lemma_full_packed(
            top,
            bottom,
            (previous_lo, previous_hi),
            (current_lo, current_hi),
            (full_lo, full_hi),
            bytes@,
            pos as int,
        );
    }
    let breaks_mask: u32 = break_mask(full_lo, full_hi, Ghost(classes), Ghost(10));
    let word_like: u32 = word_like_mask(full_lo, full_hi, Ghost(classes), Ghost(10));
    let window = vld1q_u8(window_bytes, 0);
    let ascii_upper: u32 = upper_mask(window, window);
    let w = NeonWindowTokens {
        breaks: breaks_mask & 0xFFFF,
        word_like: word_like & 0xFFFF,
        ascii_upper: ascii_upper & 0xFFFF,
        current_lo,
        current_hi,
    };
    proof {
        assert forall|i: u32| i < 32 implies #[trigger] lane(w.breaks, i) == (i < 16
            && !joined_class(seen[i as int], seen[i + 1], seen[i + 2], seen[i + 3])) by {
            lemma_cut(breaks_mask, i);
            if i < 16 {
                assert(lane(breaks_mask, i) == !joined_at(classes, i + 2));
            }
        }
        assert forall|i: u32| i < 32 implies #[trigger] lane(w.word_like, i) == (i < 16
            && word_like_class(seen[i + 2])) by {
            lemma_cut(word_like, i);
            if i < 16 {
                assert(lane(word_like, i) == word_like_class(classes[i + 2]));
            }
        }
        assert forall|i: u32| i < 32 implies #[trigger] lane(w.ascii_upper, i) == (i < 16
            && upper_byte(bytes@[pos + i])) by {
            lemma_cut(ascii_upper, i);
            if i < 16 {
                assert(lane(ascii_upper, i) == upper_byte((window@ + window@)[i as int]));
                assert(window@[i as int] == window_bytes@[0 + i]);
            }
        }
    }
    Some(w)
}

// ---------------------------------------------------------------------------------------------
// Processors
// ---------------------------------------------------------------------------------------------

/// The table holds the class bytes of ASCII.
pub open spec fn class_table(top: U8x16x4, bottom: U8x16x4) -> bool {
    forall|b: u8| b < 128 ==> #[trigger] lookup(top, bottom, b) == class_byte(b)
}

/// The class byte of a byte and its contribution to the token agree.
proof fn lemma_word_like_class(b: u8)
    ensures
        word_like_class(class_byte(b)) == has(ascii_token_bits(b), WORD_LIKE_MASK),
        upper_byte(b) == has(ascii_token_bits(b), HAS_ASCII_UPPER_MASK),
{
    lemma_class_bits(ascii_property(b));
    lemma_masks();
    let t = ascii_token_bits(b);
    assert((t & 1u8 != 0) == (t != 0) && (t & 4u8 != 0) == (t == 5)) by (bit_vector)
        requires
            t == 0 || t == 1 || t == 5,
    ;
}

/// What the right class bytes say is what is the case.
proof fn lemma_decides(w: WindowTokens, classes: Seq<u8>, bytes: Seq<u8>, pos: int, width: int)
    requires
        0 <= width <= 29,
        decides_classes(w, classes, bytes, pos, width),
        forall|i: int| 0 <= i < width + 3 ==> #[trigger] classes[i] == class_byte(bytes[pos - 2 + i]),
    ensures
        decides(w, bytes, pos, width),
{
    assert forall|i: u32| i < 32 implies #[trigger] lane(w.breaks, i) == (i < width && breaks_at(
        bytes,
        pos + i,
    )) by {
        if i < width {
            assert(classes[i + 0] == class_byte(bytes[pos - 2 + (i + 0)]));
            assert(classes[i + 1] == class_byte(bytes[pos - 2 + (i + 1)]));
            assert(classes[i + 2] == class_byte(bytes[pos - 2 + (i + 2)]));
            assert(classes[i + 3] == class_byte(bytes[pos - 2 + (i + 3)]));
        }
    }
    assert forall|i: u32| i < 32 implies #[trigger] lane(w.word_like, i) == (i < width && has(
        ascii_token_bits(bytes[pos + i]),
        WORD_LIKE_MASK,
    )) by {
        if i < width {
            assert(classes[i + 2] == class_byte(bytes[pos - 2 + (i + 2)]));
            lemma_word_like_class(bytes[pos + i]);
        }
    }
    assert forall|i: u32| i < 32 implies #[trigger] lane(w.ascii_upper, i) == (i < width && has(
        ascii_token_bits(bytes[pos + i]),
        HAS_ASCII_UPPER_MASK,
    )) by {
        if i < width {
            lemma_word_like_class(bytes[pos + i]);
        }
    }
}

/// The class bytes of ASCII, in two halves.
fn class_byte_halves() -> (halves: (U8x16x4, U8x16x4))
    ensures
        class_table(halves.0, halves.1),
{
    let table = ascii_custom_byte_table();
    let halves = load_table_128(&table);
    assert forall|b: u8| b < 128 implies #[trigger] lookup(halves.0, halves.1, b) == class_byte(
        b,
    ) by {
        assert(table@[b as int] == class_byte(b));
    }
    halves
}

/// Decides windows of 29 bytes.
#[derive(Copy, Clone, Debug)]
pub struct Neon32 {
    top: U8x16x4,
    bottom: U8x16x4,
}

impl WindowProcessor for Neon32 {
    const MIN_POS: usize = 2;

    const WINDOW_SIZE: usize = 29;

    proof fn sizes()
        ensures
            Self::MIN_POS == 2,
            Self::WINDOW_SIZE == 29,
    {
    }

    closed spec fn wf(&self, bytes: Seq<u8>) -> bool {
        class_table(self.top, self.bottom)
    }

    fn new() -> (p: Self) {
        let (top, bottom) = class_byte_halves();
        Neon32 { top, bottom }
    }

    fn process(&mut self, bytes: &[u8], pos: usize) -> (w: Option<WindowTokens>) {
        let w = maybe_process_ascii_window_neon32(bytes, pos, self.top, self.bottom);
        proof {
            if let Some(w) = w {
                let classes = classes_from(self.top, self.bottom, bytes@, pos - 2, 32);
                assert forall|i: int| 0 <= i < 32 implies #[trigger] classes[i] == class_byte(
                    bytes@[pos - 2 + i],
                ) by {
                    assert(bytes@[pos - 2 + i] < 0x80);
                }
                lemma_decides(w, classes, bytes@, pos as int, 29);
            }
        }
        w
    }
}

/// Decides windows of 16 bytes, and keeps the packed class bytes of the last one.
#[derive(Copy, Clone, Debug)]
pub struct Neon {
    top: U8x16x4,
    bottom: U8x16x4,
    prev_pos: usize,
    prev_hi: Option<U8x16>,
    prev_lo: Option<U8x16>,
}

impl WindowProcessor for Neon {
    // The window before the first one is looked up.
    const MIN_POS: usize = 16;

    const WINDOW_SIZE: usize = 16;

    proof fn sizes()
        ensures
            Self::MIN_POS == 16,
            Self::WINDOW_SIZE == 16,
    {
    }

    closed spec fn wf(&self, bytes: Seq<u8>) -> bool {
        &&& class_table(self.top, self.bottom)
        &&& self.prev_lo is Some && self.prev_hi is Some ==> {
            &&& self.prev_pos + 16 <= bytes.len()
            &&& holds_window(
                self.top,
                self.bottom,
                self.prev_lo->0,
                self.prev_hi->0,
                bytes,
                self.prev_pos as int,
            )
        }
    }

    fn new() -> (p: Self) {
        let (top, bottom) = class_byte_halves();
        Neon { top, bottom, prev_pos: 0, prev_lo: None, prev_hi: None }
    }

    fn process(&mut self, bytes: &[u8], pos: usize) -> (w: Option<WindowTokens>) {
        assert(bytes@.len() == bytes.len());
        // What was kept is only the right left context if this window directly follows the last
        // one; else it has to be looked up.
        let cached = match (self.prev_lo, self.prev_hi) {
            (Some(lo), Some(hi)) => if pos == self.prev_pos + 16 {
                Some((lo, hi))
            } else {
                None
            },
            _ => None,
        };
        let (prev_lo, prev_hi) = match cached {
            Some(prev) => prev,
            None => table_lookup(self.top, self.bottom, slice_subrange(bytes, pos - 16, pos)),
        };
        assert(holds_window(self.top, self.bottom, prev_lo, prev_hi, bytes@, pos - 16)) by {
            if cached is None {
                let before = bytes@.subrange(pos - 16, pos as int);
                assert forall|i: int| 0 <= i < 16 implies #[trigger] before[i] == bytes@[pos - 16
                    + i] by {}
            }
        }
        match maybe_process_ascii_window_neon(
            bytes,
            pos,
            self.top,
            self.bottom,
            prev_lo,
            prev_hi,
        ) {
            Some(r) => {
                self.prev_pos = pos;
                self.prev_lo = Some(r.current_lo);
                self.prev_hi = Some(r.current_hi);
                let w = WindowTokens {
                    breaks: r.breaks,
                    word_like: r.word_like,
                    ascii_upper: r.ascii_upper,
                };
                proof {
                    lemma_window_behind(
                        self.top,
                        self.bottom,
                        prev_lo,
                        prev_hi,
                        bytes@,
                        pos as int,
                    );
                    lemma_decides(
                        w,
                        classes_behind(
                            self.top,
                            self.bottom,
                            prev_lo,
                            prev_hi,
                            bytes@,
                            pos as int,
                        ),
                        bytes@,
                        pos as int,
                        16,
                    );
                }
                Some(w)
            },
            None => {
                self.prev_lo = None;
                self.prev_hi = None;
                None
            },
        }
    }
}

/// Behind a window that was looked up, the class bytes are those of the text.
proof fn lemma_window_behind(
    top: U8x16x4,
    bottom: U8x16x4,
    lo: U8x16,
    hi: U8x16,
    bytes: Seq<u8>,
    pos: int,
)
    requires
        class_table(top, bottom),
        holds_window(top, bottom, lo, hi, bytes, pos - 16),
        ascii_window(bytes, pos, 16),
    ensures
        forall|i: int|
            0 <= i < 19 ==> #[trigger] classes_behind(top, bottom, lo, hi, bytes, pos)[i]
                == class_byte(bytes[pos - 2 + i]),
{
    let classes = classes_behind(top, bottom, lo, hi, bytes, pos);
    let c0 = lookup(top, bottom, bytes[pos - 2]);
    let c1 = lookup(top, bottom, bytes[pos - 1]);
    assert(15int % 8 == 7);
    assert(lo@[15] == pack_lo(c0, c1));
    assert(hi@[15] == pack_hi(c0, c1));
    lemma_unpack(0, 0, c0, c1);
    assert forall|i: int| 0 <= i < 19 implies #[trigger] classes[i] == class_byte(
        bytes[pos - 2 + i],
    ) by {
        assert(bytes[pos - 2 + i] < 0x80);
    }
}

} // verus!
