//! Vectors of sixteen bytes, with operations of the NEON instruction set under their usual names,
//! for every target.

use vstd::prelude::*;

verus! {

/// Sixteen byte lanes.
#[derive(Copy, Clone, Debug, PartialEq, Eq)]
pub struct U8x16(pub [u8; 16]);

impl View for U8x16 {
    type V = Seq<u8>;

    open spec fn view(&self) -> Seq<u8> {
        self.0@
    }
}

/// A table of 64 bytes in four vectors.
#[derive(Copy, Clone, Debug, PartialEq, Eq)]
pub struct U8x16x4(pub U8x16, pub U8x16, pub U8x16, pub U8x16);

impl View for U8x16x4 {
    type V = Seq<u8>;

    open spec fn view(&self) -> Seq<u8> {
        self.0@ + self.1@ + self.2@ + self.3@
    }
}

/// The sixteen bytes from `at` on.
pub fn vld1q_u8(bytes: &[u8], at: usize) -> (r: U8x16)
    requires
        at + 16 <= bytes@.len(),
    ensures
        forall|i: int| 0 <= i < 16 ==> #[trigger] r@[i] == bytes@[at + i],
{
    let mut lanes: [u8; 16] = [0u8; 16];
    let mut i: usize = 0;
    while i < 16
        invariant
            i <= 16,
            at + 16 <= bytes@.len(),
            forall|j: int| 0 <= j < i ==> #[trigger] lanes@[j] == bytes@[at + j],
        decreases 16 - i,
    {
        assert(bytes@.len() == bytes.len());
        lanes[i] = bytes[at + i];
        i = i + 1;
    }
    U8x16(lanes)
}

/// The 64 bytes from `at` on.
pub fn vld1q_u8_x4(bytes: &[u8], at: usize) -> (r: U8x16x4)
    requires
        at + 64 <= bytes@.len(),
    ensures
        forall|i: int| 0 <= i < 64 ==> #[trigger] r@[i] == bytes@[at + i],
{
    assert(bytes@.len() == bytes.len());
    U8x16x4(
        vld1q_u8(bytes, at),
        vld1q_u8(bytes, at + 16),
        vld1q_u8(bytes, at + 32),
        vld1q_u8(bytes, at + 48),
    )
}

/// The same value in every lane.
pub fn vdupq_n_u8(value: u8) -> (r: U8x16)
    ensures
        forall|i: int| 0 <= i < 16 ==> #[trigger] r@[i] == value,
{
    U8x16([value; 16])
}

/// Each lane of `idx` replaced by the entry of `table` that it names, or 0 if there is none.
pub fn vqtbl4q_u8(table: U8x16x4, idx: U8x16) -> (r: U8x16)
    ensures
        forall|i: int|
            0 <= i < 16 ==> #[trigger] r@[i] == if idx@[i] < 64 {
                table@[idx@[i] as int]
            } else {
                0
            },
{
    let mut lanes: [u8; 16] = [0u8; 16];
    let mut i: usize = 0;
    while i < 16
        invariant
            i <= 16,
            forall|j: int|
                0 <= j < i ==> #[trigger] lanes@[j] == if idx@[j] < 64 {
                    table@[idx@[j] as int]
                } else {
                    0
                },
        decreases 16 - i,
    {
        let n: u8 = idx.0[i];
        lanes[i] = if n < 16 {
            table.0.0[n as usize]
        } else if n < 32 {
            table.1.0[(n - 16) as usize]
        } else if n < 48 {
            table.2.0[(n - 32) as usize]
        } else if n < 64 {
            table.3.0[(n - 48) as usize]
        } else {
            0
        };
        i = i + 1;
    }
    U8x16(lanes)
}

/// Lane by lane, `a - b`, wrapping around.
pub fn vsubq_u8(a: U8x16, b: U8x16) -> (r: U8x16)
    ensures
        forall|i: int|
            0 <= i < 16 ==> #[trigger] r@[i] == if a@[i] >= b@[i] {
                a@[i] - b@[i]
            } else {
                a@[i] - b@[i] + 256
            },
{
    let mut lanes: [u8; 16] = [0u8; 16];
    let mut i: usize = 0;
    while i < 16
        invariant
            i <= 16,
            forall|j: int|
                0 <= j < i ==> #[trigger] lanes@[j] == if a@[j] >= b@[j] {
                    a@[j] - b@[j]
                } else {
                    a@[j] - b@[j] + 256
                },
        decreases 16 - i,
    {
        lanes[i] = a.0[i].wrapping_sub(b.0[i]);
        i = i + 1;
    }
    U8x16(lanes)
}

/// Lane by lane, `a & b`.
pub fn vandq_u8(a: U8x16, b: U8x16) -> (r: U8x16)
    ensures
        forall|i: int| 0 <= i < 16 ==> #[trigger] r@[i] == a@[i] & b@[i],
{
    let mut lanes: [u8; 16] = [0u8; 16];
    let mut i: usize = 0;
    while i < 16
        invariant
            i <= 16,
            forall|j: int| 0 <= j < i ==> #[trigger] lanes@[j] == a@[j] & b@[j],
        decreases 16 - i,
    {
        lanes[i] = a.0[i] & b.0[i];
        i = i + 1;
    }
    U8x16(lanes)
}

/// Lane by lane, `a | b`.
pub fn vorrq_u8(a: U8x16, b: U8x16) -> (r: U8x16)
    ensures
        forall|i: int| 0 <= i < 16 ==> #[trigger] r@[i] == a@[i] | b@[i],
{
    let mut lanes: [u8; 16] = [0u8; 16];
    let mut i: usize = 0;
    while i < 16
        invariant
            i <= 16,
            forall|j: int| 0 <= j < i ==> #[trigger] lanes@[j] == a@[j] | b@[j],
        decreases 16 - i,
    {
        lanes[i] = a.0[i] | b.0[i];
        i = i + 1;
    }
    U8x16(lanes)
}

/// Lane by lane, `!a`.
pub fn vmvnq_u8(a: U8x16) -> (r: U8x16)
    ensures
        forall|i: int| 0 <= i < 16 ==> #[trigger] r@[i] == !a@[i],
{
    let mut lanes: [u8; 16] = [0u8; 16];
    let mut i: usize = 0;
    while i < 16
        invariant
            i <= 16,
            forall|j: int| 0 <= j < i ==> #[trigger] lanes@[j] == !a@[j],
        decreases 16 - i,
    {
        lanes[i] = !a.0[i];
        i = i + 1;
    }
    U8x16(lanes)
}

/// Lane by lane, `a << n`.
pub fn vshlq_n_u8(a: U8x16, n: u32) -> (r: U8x16)
    requires
        n < 8,
    ensures
        forall|i: int| 0 <= i < 16 ==> #[trigger] r@[i] == a@[i] << n,
{
    let mut lanes: [u8; 16] = [0u8; 16];
    let mut i: usize = 0;
    while i < 16
        invariant
            i <= 16,
            n < 8,
            forall|j: int| 0 <= j < i ==> #[trigger] lanes@[j] == a@[j] << n,
        decreases 16 - i,
    {
        lanes[i] = a.0[i] << n;
        i = i + 1;
    }
    U8x16(lanes)
}

/// Lane by lane, `a >> n`.
pub fn vshrq_n_u8(a: U8x16, n: u32) -> (r: U8x16)
    requires
        n < 8,
    ensures
        forall|i: int| 0 <= i < 16 ==> #[trigger] r@[i] == a@[i] >> n,
{
    let mut lanes: [u8; 16] = [0u8; 16];
    let mut i: usize = 0;
    while i < 16
        invariant
            i <= 16,
            n < 8,
            forall|j: int| 0 <= j < i ==> #[trigger] lanes@[j] == a@[j] >> n,
        decreases 16 - i,
    {
        lanes[i] = a.0[i] >> n;
        i = i + 1;
    }
    U8x16(lanes)
}

/// Lane by lane: `b << 4`, inserted above the low four bits of `a`.
pub fn vsliq_4_u8(a: U8x16, b: U8x16) -> (r: U8x16)
    ensures
        forall|i: int| 0 <= i < 16 ==> #[trigger] r@[i] == (a@[i] & 0x0F) | (b@[i] << 4),
{
    vorrq_u8(vandq_u8(a, vdupq_n_u8(0x0F)), vshlq_n_u8(b, 4))
}

/// Lane by lane: `b >> 4`, inserted below the high four bits of `a`.
pub fn vsriq_4_u8(a: U8x16, b: U8x16) -> (r: U8x16)
    ensures
        forall|i: int| 0 <= i < 16 ==> #[trigger] r@[i] == (a@[i] & 0xF0) | (b@[i] >> 4),
{
    vorrq_u8(vandq_u8(a, vdupq_n_u8(0xF0)), vshrq_n_u8(b, 4))
}

/// Sixteen lanes of `a` followed by `b`, from the `n`-th on.
pub fn vextq_u8(a: U8x16, b: U8x16, n: usize) -> (r: U8x16)
    requires
        n < 16,
    ensures
        forall|i: int| 0 <= i < 16 ==> #[trigger] r@[i] == (a@ + b@)[n + i],
{
    let mut lanes: [u8; 16] = [0u8; 16];
    let mut i: usize = 0;
    while i < 16
        invariant
            i <= 16,
            n < 16,
            forall|j: int| 0 <= j < i ==> #[trigger] lanes@[j] == (a@ + b@)[n + j],
        decreases 16 - i,
    {
        lanes[i] = if n + i < 16 {
            a.0[n + i]
        } else {
            b.0[n + i - 16]
        };
        i = i + 1;
    }
    U8x16(lanes)
}

/// The even lanes of `a`, then those of `b`.
pub fn vuzp1q_u8(a: U8x16, b: U8x16) -> (r: U8x16)
    ensures
        forall|i: int| 0 <= i < 16 ==> #[trigger] r@[i] == (a@ + b@)[2 * i],
{
    let mut lanes: [u8; 16] = [0u8; 16];
    let mut i: usize = 0;
    while i < 16
        invariant
            i <= 16,
            forall|j: int| 0 <= j < i ==> #[trigger] lanes@[j] == (a@ + b@)[2 * j],
        decreases 16 - i,
    {
        lanes[i] = if i < 8 {
            a.0[2 * i]
        } else {
            b.0[2 * i - 16]
        };
        i = i + 1;
    }
    U8x16(lanes)
}

/// The odd lanes of `a`, then those of `b`.
pub fn vuzp2q_u8(a: U8x16, b: U8x16) -> (r: U8x16)
    ensures
        forall|i: int| 0 <= i < 16 ==> #[trigger] r@[i] == (a@ + b@)[2 * i + 1],
{
    let mut lanes: [u8; 16] = [0u8; 16];
    let mut i: usize = 0;
    while i < 16
        invariant
            i <= 16,
            forall|j: int| 0 <= j < i ==> #[trigger] lanes@[j] == (a@ + b@)[2 * j + 1],
        decreases 16 - i,
    {
        lanes[i] = if i < 8 {
            a.0[2 * i + 1]
        } else {
            b.0[2 * i + 1 - 16]
        };
        i = i + 1;
    }
    U8x16(lanes)
}

/// `a` with `value` in lane `n`.
pub fn vsetq_lane_u8(value: u8, a: U8x16, n: usize) -> (r: U8x16)
    requires
        n < 16,
    ensures
        r@ == a@.update(n as int, value),
{
    let mut lanes = a.0;
    lanes[n] = value;
    U8x16(lanes)
}

/// Lane `n`.
pub fn vgetq_lane_u8(a: U8x16, n: usize) -> (value: u8)
    requires
        n < 16,
    ensures
        value == a@[n as int],
{
    a.0[n]
}

/// Lane by lane: all bits set if `a <= b`, else none.
pub fn vcleq_u8(a: U8x16, b: U8x16) -> (r: U8x16)
    ensures
        forall|i: int|
            0 <= i < 16 ==> #[trigger] r@[i] == if a@[i] <= b@[i] {
                0xFF
            } else {
                0u8
            },
{
    let mut lanes: [u8; 16] = [0u8; 16];
    let mut i: usize = 0;
    while i < 16
        invariant
            i <= 16,
            forall|j: int|
                0 <= j < i ==> #[trigger] lanes@[j] == if a@[j] <= b@[j] {
                    0xFF
                } else {
                    0u8
                },
        decreases 16 - i,
    {
        lanes[i] = if a.0[i] <= b.0[i] {
            0xFF
        } else {
            0
        };
        i = i + 1;
    }
    U8x16(lanes)
}

/// Lane by lane: all bits set if `a >= b`, else none.
pub fn vcgeq_u8(a: U8x16, b: U8x16) -> (r: U8x16)
    ensures
        forall|i: int|
            0 <= i < 16 ==> #[trigger] r@[i] == if a@[i] >= b@[i] {
                0xFF
            } else {
                0u8
            },
{
    vcleq_u8(b, a)
}

/// Lane by lane: all bits set if `a` and `b` have a bit in common, else none.
pub fn vtstq_u8(a: U8x16, b: U8x16) -> (r: U8x16)
    ensures
        forall|i: int|
            0 <= i < 16 ==> #[trigger] r@[i] == if a@[i] & b@[i] != 0 {
                0xFF
            } else {
                0u8
            },
{
    let mut lanes: [u8; 16] = [0u8; 16];
    let mut i: usize = 0;
    while i < 16
        invariant
            i <= 16,
            forall|j: int|
                0 <= j < i ==> #[trigger] lanes@[j] == if a@[j] & b@[j] != 0 {
                    0xFF
                } else {
                    0u8
                },
        decreases 16 - i,
    {
        lanes[i] = if a.0[i] & b.0[i] != 0 {
            0xFF
        } else {
            0
        };
        i = i + 1;
    }
    U8x16(lanes)
}

/// The largest lane.
pub fn vmaxvq_u8(a: U8x16) -> (max: u8)
    ensures
        a@.contains(max),
        forall|i: int| 0 <= i < 16 ==> #[trigger] a@[i] <= max,
{
    let mut max: u8 = a.0[0];
    let mut i: usize = 1;
    assert(a@[0] == max);
    while i < 16
        invariant
            1 <= i <= 16,
            a@.contains(max),
            forall|j: int| 0 <= j < i ==> #[trigger] a@[j] <= max,
        decreases 16 - i,
    {
        if a.0[i] > max {
            max = a.0[i];
            assert(a@[i as int] == max);
        }
        i = i + 1;
    }
    max
}

/// Eight lanes, the `half`-th ones, as one number; the first lane is its lowest byte.
pub fn vgetq_lane_u64(a: U8x16, half: usize) -> (value: u64)
    requires
        half < 2,
    ensures
        forall|i: int|
            0 <= i < 8 ==> ((value >> ((8 * i) as u64)) & 0xFF) == #[trigger] a@[8 * half + i],
{
    let at: usize = 8 * half;
    let (b0, b1, b2, b3): (u64, u64, u64, u64) = (
        a.0[at] as u64,
        a.0[at + 1] as u64,
        a.0[at + 2] as u64,
        a.0[at + 3] as u64,
    );
    let (b4, b5, b6, b7): (u64, u64, u64, u64) = (
        a.0[at + 4] as u64,
        a.0[at + 5] as u64,
        a.0[at + 6] as u64,
        a.0[at + 7] as u64,
    );
    let value: u64 = b0 | (b1 << 8) | (b2 << 16) | (b3 << 24) | (b4 << 32) | (b5 << 40) | (b6 << 48)
        | (b7 << 56);
    assert(value & 0xFF == b0 && (value >> 0u64) & 0xFF == b0 && (value >> 8) & 0xFF == b1 && (value
        >> 16) & 0xFF == b2 && (value >> 24) & 0xFF == b3 && (value >> 32) & 0xFF == b4 && (value
        >> 40) & 0xFF == b5 && (value >> 48) & 0xFF == b6 && (value >> 56) & 0xFF == b7)
        by (bit_vector)
        requires
            value == b0 | (b1 << 8) | (b2 << 16) | (b3 << 24) | (b4 << 32) | (b5 << 40) | (b6
                << 48) | (b7 << 56),
            b0 <= 0xFF,
            b1 <= 0xFF,
            b2 <= 0xFF,
            b3 <= 0xFF,
            b4 <= 0xFF,
            b5 <= 0xFF,
            b6 <= 0xFF,
            b7 <= 0xFF,
    ;
    assert forall|i: int| 0 <= i < 8 implies ((value >> ((8 * i) as u64)) & 0xFF)
        == #[trigger] a@[8 * half + i] by {
        if i == 0 {
        } else if i == 1 {
        } else if i == 2 {
        } else if i == 3 {
        } else if i == 4 {
        } else if i == 5 {
        } else if i == 6 {
        }
    }
    value
}

/// The sum of eight lanes, the `half`-th ones, wrapping around.
pub fn vaddv_u8(a: U8x16, half: usize) -> (sum: u8)
    requires
        half < 2,
    ensures
        sum == lane_sum(a@, 8 * half, 8 * half + 8) % 256,
{
    let mut sum: u8 = 0;
    let mut i: usize = 0;
    while i < 8
        invariant
            i <= 8,
            half < 2,
            sum == lane_sum(a@, 8 * half, 8 * half + i) % 256,
        decreases 8 - i,
    {
        sum = sum.wrapping_add(a.0[8 * half + i]);
        i = i + 1;
    }
    sum
}

/// The sum of the lanes from `i` up to `j`.
pub open spec fn lane_sum(v: Seq<u8>, i: int, j: int) -> int
    decreases j - i,
{
    if i >= j {
        0
    } else {
        lane_sum(v, i, j - 1) + v[j - 1]
    }
}

} // verus!
