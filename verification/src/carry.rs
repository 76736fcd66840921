//! What the mask arithmetic of a chunk check means lane by lane.
use vstd::prelude::*;
use crate::vector::{
    lane_bit, lane_mask, lemma_mask_upto_bits, mask_bit, mask_upto, supported_width,
};
use crate::chunk::{
    chunk_accepts, chunk_carry, cont_mask, lead1_mask, lead2_mask, lead3_mask, low_bits,
    required, tables_clear,
};
use crate::tables::{forbidden_pair, lane_err, lemma_tables};

verus! {

/// A continuation byte: `10xxxxxx`.
pub open spec fn is_cont(b: u8) -> bool {
    0x80 <= b && b < 0xC0
}

/// The carries that a well-formed prefix can leave behind: zero to three
/// continuation bytes owed, as a run of low bits.
pub open spec fn carry_ok(c: u32) -> bool {
    c == 0 || c == 1 || c == 3 || c == 7
}

/// Whether lane `i` of the chunk `b` must hold a continuation byte, given the
/// carry `c` into the chunk.
pub open spec fn lane_owed(b: Seq<u8>, c: u32, i: int) -> bool {
    ||| (i == 0 && c >= 1)
    ||| (i == 1 && c >= 3)
    ||| (i == 2 && c >= 7)
    ||| (i >= 1 && b[i - 1] >= 0xC0)
    ||| (i >= 2 && b[i - 2] >= 0xE0)
    ||| (i >= 3 && b[i - 3] >= 0xF0)
}

/// Continuation bytes sit in exactly the lanes where one is owed.
pub open spec fn lanes_match(b: Seq<u8>, c: u32) -> bool {
    forall|i: int| 0 <= i < b.len() ==> is_cont(#[trigger] b[i]) == lane_owed(b, c, i)
}

/// Every lane holds an ASCII byte.
pub open spec fn all_ascii(b: Seq<u8>) -> bool {
    forall|i: int| 0 <= i < b.len() ==> #[trigger] b[i] < 0x80
}

/// No lane completes a forbidden pair. `sh` holds, lane for lane, the byte
/// that precedes the one in `b`.
pub open spec fn pairs_clear(b: Seq<u8>, sh: Seq<u8>) -> bool {
    forall|i: int| 0 <= i < b.len() ==> !forbidden_pair(#[trigger] sh[i], b[i])
}

/// The carry out of a chunk, read off its last three lanes.
pub open spec fn carry_out(b: Seq<u8>) -> u32 {
    let n = b.len() as int;
    if b[n - 1] >= 0xF0 {
        7
    } else if b[n - 1] >= 0xE0 || b[n - 2] >= 0xF0 {
        3
    } else if b[n - 1] >= 0xC0 || b[n - 2] >= 0xE0 || b[n - 3] >= 0xF0 {
        1
    } else {
        0
    }
}

/// The top bits of a byte tell its class: high bit, leader, leader of three
/// or more, leader of four.
proof fn lemma_lane_class(x: u8)
    by (bit_vector)
    ensures
        ((x >> 7u8) & 1 == 1) == (x >= 0x80),
        (((x >> 7u8) & 1 == 1) && ((x >> 6u8) & 1 == 1)) == (x >= 0xC0),
        (((x >> 7u8) & 1 == 1) && ((x >> 6u8) & 1 == 1) && ((x >> 5u8) & 1 == 1)) == (x >= 0xE0),
        (((x >> 7u8) & 1 == 1) && ((x >> 6u8) & 1 == 1) && ((x >> 5u8) & 1 == 1) && ((x >> 4u8) & 1
            == 1)) == (x >= 0xF0),
{
}

/// Bit by bit, the nested ANDs and the XOR of the chunk check are the
/// conjunctions they look like.
proof fn lemma_combine_bits(h: u64, m6: u64, m5: u64, m4: u64, i: u64)
    by (bit_vector)
    requires
        i < 64,
    ensures
        (((h & m6) >> i) & 1 == 1) == (((h >> i) & 1 == 1) && ((m6 >> i) & 1 == 1)),
        ((((h & m6) & m5) >> i) & 1 == 1) == (((h >> i) & 1 == 1) && ((m6 >> i) & 1 == 1) && ((m5
            >> i) & 1 == 1)),
        (((((h & m6) & m5) & m4) >> i) & 1 == 1) == (((h >> i) & 1 == 1) && ((m6 >> i) & 1 == 1)
            && ((m5 >> i) & 1 == 1) && ((m4 >> i) & 1 == 1)),
        (((h ^ (h & m6)) >> i) & 1 == 1) == (((h >> i) & 1 == 1) && !((m6 >> i) & 1 == 1)),
{
}

/// The leader masks are nested, none overlaps the continuation mask, and
/// moved up they stay well inside sixty-four bits.
proof fn lemma_nested_masks(h: u64, m6: u64, m5: u64, m4: u64, w: u64)
    by (bit_vector)
    requires
        w == 16 || w == 32,
        h < (1u64 << w),
    ensures
        (h & m6) < (1u64 << w),
        (h ^ (h & m6)) < (1u64 << w),
        (h ^ (h & m6)) <= 0xFFFF_FFFFu64,
        ((h & m6) & m5) & !(h & m6) == 0,
        (((h & m6) & m5) & m4) & !((h & m6) & m5) == 0,
        (h ^ (h & m6)) & (h & m6) == 0,
        (h & m6) << 1u64 <= 0x1_FFFF_FFFEu64,
        ((h & m6) & m5) << 2u64 <= 0x3_FFFF_FFFCu64,
        (((h & m6) & m5) & m4) << 3u64 <= 0x7_FFFF_FFF8u64,
{
}

/// Adding the moved leader masks instead of OR-ing them makes no difference
/// to the comparison with the continuation mask: where two addends share a
/// bit, the bit below it already fails the comparison either way.
proof fn lemma_add_is_or(c: u64, m1: u64, m2: u64, m3: u64, ct: u64, w: u64)
    by (bit_vector)
    requires
        c == 0 || c == 1 || c == 3 || c == 7,
        w == 16 || w == 32,
        m1 < (1u64 << w),
        m2 & !m1 == 0,
        m3 & !m2 == 0,
        ct & m1 == 0,
        ct < (1u64 << w),
    ensures
        (ct == (((c + (m1 << 1u64) + (m2 << 2u64) + (m3 << 3u64)) as u64) & (((1u64 << w)
            - 1) as u64))) == (ct == ((c | (m1 << 1u64) | (m2 << 2u64) | (m3 << 3u64)) & (((1u64
            << w) - 1) as u64))),
        (ct == ((c | (m1 << 1u64) | (m2 << 2u64) | (m3 << 3u64)) & (((1u64 << w) - 1) as u64)))
            ==> ((c + (m1 << 1u64) + (m2 << 2u64) + (m3 << 3u64)) as u64) == (c | (m1 << 1u64) | (m2
            << 2u64) | (m3 << 3u64)),
{
}

/// Bit `i` of the OR of the carry and the moved leader masks.
proof fn lemma_or_bits(
    c: u64,
    m1: u64,
    m2: u64,
    m3: u64,
    w: u64,
    i: u64,
    j1: u64,
    j2: u64,
    j3: u64,
)
    by (bit_vector)
    requires
        c == 0 || c == 1 || c == 3 || c == 7,
        w == 16 || w == 32,
        i < w,
        i >= 1 ==> j1 + 1 == i,
        i >= 2 ==> j2 + 2 == i,
        i >= 3 ==> j3 + 3 == i,
    ensures
        ((((c | (m1 << 1u64) | (m2 << 2u64) | (m3 << 3u64)) & (((1u64 << w) - 1) as u64)) >> i) & 1
            == 1) == ((i == 0 && c >= 1) || (i == 1 && c >= 3) || (i == 2 && c >= 7) || (i >= 1 && (
        (m1 >> j1) & 1 == 1)) || (i >= 2 && ((m2 >> j2) & 1 == 1)) || (i >= 3 && ((m3 >> j3) & 1
            == 1))),
{
}

/// A value cut down to the lanes has no bit above them.
proof fn lemma_above_width(x: u64, w: u64, i: u64)
    by (bit_vector)
    requires
        w == 16 || w == 32,
        w <= i,
        i < 64,
    ensures
        ((x & (((1u64 << w) - 1) as u64)) >> i) & 1 == 0,
        (x & (((1u64 << w) - 1) as u64)) <= 0xFFFF_FFFFu64,
{
}

/// Two values of thirty-two bits with the same bits are equal.
proof fn lemma_ext32(x: u64, y: u64)
    by (bit_vector)
    requires
        x <= 0xFFFF_FFFFu64,
        y <= 0xFFFF_FFFFu64,
        (x >> 0u64) & 1 == (y >> 0u64) & 1,
        (x >> 1u64) & 1 == (y >> 1u64) & 1,
        (x >> 2u64) & 1 == (y >> 2u64) & 1,
        (x >> 3u64) & 1 == (y >> 3u64) & 1,
        (x >> 4u64) & 1 == (y >> 4u64) & 1,
        (x >> 5u64) & 1 == (y >> 5u64) & 1,
        (x >> 6u64) & 1 == (y >> 6u64) & 1,
        (x >> 7u64) & 1 == (y >> 7u64) & 1,
        (x >> 8u64) & 1 == (y >> 8u64) & 1,
        (x >> 9u64) & 1 == (y >> 9u64) & 1,
        (x >> 10u64) & 1 == (y >> 10u64) & 1,
        (x >> 11u64) & 1 == (y >> 11u64) & 1,
        (x >> 12u64) & 1 == (y >> 12u64) & 1,
        (x >> 13u64) & 1 == (y >> 13u64) & 1,
        (x >> 14u64) & 1 == (y >> 14u64) & 1,
        (x >> 15u64) & 1 == (y >> 15u64) & 1,
        (x >> 16u64) & 1 == (y >> 16u64) & 1,
        (x >> 17u64) & 1 == (y >> 17u64) & 1,
        (x >> 18u64) & 1 == (y >> 18u64) & 1,
        (x >> 19u64) & 1 == (y >> 19u64) & 1,
        (x >> 20u64) & 1 == (y >> 20u64) & 1,
        (x >> 21u64) & 1 == (y >> 21u64) & 1,
        (x >> 22u64) & 1 == (y >> 22u64) & 1,
        (x >> 23u64) & 1 == (y >> 23u64) & 1,
        (x >> 24u64) & 1 == (y >> 24u64) & 1,
        (x >> 25u64) & 1 == (y >> 25u64) & 1,
        (x >> 26u64) & 1 == (y >> 26u64) & 1,
        (x >> 27u64) & 1 == (y >> 27u64) & 1,
        (x >> 28u64) & 1 == (y >> 28u64) & 1,
        (x >> 29u64) & 1 == (y >> 29u64) & 1,
        (x >> 30u64) & 1 == (y >> 30u64) & 1,
        (x >> 31u64) & 1 == (y >> 31u64) & 1,
    ensures
        x == y,
{
}

/// Bits that are set together are equal as numbers.
proof fn lemma_flag_eq(x: u64, y: u64, i: u64)
    by (bit_vector)
    requires
        i < 64,
        ((x >> i) & 1 == 1) == ((y >> i) & 1 == 1),
    ensures
        (x >> i) & 1 == (y >> i) & 1,
{
}

/// What lies above the lanes in the OR of the carry and the moved leader
/// masks comes from the leaders in the last three lanes.
proof fn lemma_carry_bits(c: u64, m1: u64, m2: u64, m3: u64, w: u64, k1: u64, k2: u64, k3: u64)
    by (bit_vector)
    requires
        c < 8,
        w == 16 || w == 32,
        k1 + 1 == w,
        k2 + 2 == w,
        k3 + 3 == w,
        m1 < (1u64 << w),
        m2 & !m1 == 0,
        m3 & !m2 == 0,
    ensures
        ((c | (m1 << 1u64) | (m2 << 2u64) | (m3 << 3u64)) >> w) == (if (m3 >> k1) & 1 == 1 {
            7u64
        } else if ((m2 >> k1) & 1 == 1) || ((m3 >> k2) & 1 == 1) {
            3u64
        } else if ((m1 >> k1) & 1 == 1) || ((m2 >> k2) & 1 == 1) || ((m3 >> k3) & 1 == 1) {
            1u64
        } else {
            0u64
        }),
{
}

/// Lane by lane, the derived masks mark the leaders of each size and the
/// continuation bytes; above the lanes they are empty.
pub proof fn lemma_class_masks(b: Seq<u8>)
    requires
        supported_width(b.len() as int),
    ensures
        forall|i: int|
            0 <= i < b.len() ==> {
                &&& mask_bit(lane_mask(b, 7), i) == (#[trigger] b[i] >= 0x80)
                &&& mask_bit(lead1_mask(b), i) == (b[i] >= 0xC0)
                &&& mask_bit(lead2_mask(b), i) == (b[i] >= 0xE0)
                &&& mask_bit(lead3_mask(b), i) == (b[i] >= 0xF0)
                &&& mask_bit(cont_mask(b), i) == is_cont(b[i])
            },
        forall|i: int| b.len() <= i < 64 ==> !#[trigger] mask_bit(cont_mask(b), i),
{
    let n = b.len();
    let h = mask_upto(b, 7, n);
    let m6 = mask_upto(b, 6, n);
    let m5 = mask_upto(b, 5, n);
    let m4 = mask_upto(b, 4, n);
    lemma_mask_upto_bits(b, 7, n);
    lemma_mask_upto_bits(b, 6, n);
    lemma_mask_upto_bits(b, 5, n);
    lemma_mask_upto_bits(b, 4, n);
    assert forall|i: int| 0 <= i < n implies {
        &&& mask_bit(lane_mask(b, 7), i) == (#[trigger] b[i] >= 0x80)
        &&& mask_bit(lead1_mask(b), i) == (b[i] >= 0xC0)
        &&& mask_bit(lead2_mask(b), i) == (b[i] >= 0xE0)
        &&& mask_bit(lead3_mask(b), i) == (b[i] >= 0xF0)
        &&& mask_bit(cont_mask(b), i) == is_cont(b[i])
    } by {
        lemma_combine_bits(h, m6, m5, m4, i as u64);
        lemma_lane_class(b[i]);
        assert(mask_bit(h, i) == lane_bit(b[i], 7));
        assert(mask_bit(m6, i) == lane_bit(b[i], 6));
        assert(mask_bit(m5, i) == lane_bit(b[i], 5));
        assert(mask_bit(m4, i) == lane_bit(b[i], 4));
    }
    assert forall|i: int| n <= i < 64 implies !#[trigger] mask_bit(cont_mask(b), i) by {
        lemma_combine_bits(h, m6, m5, m4, i as u64);
        assert(!mask_bit(h, i));
    }
}

/// For a carry that a well-formed prefix can leave, the mask comparison of the
/// chunk check holds exactly when continuation bytes sit in the lanes where
/// one is owed; and then the carry out is read off the last three lanes.
pub proof fn lemma_chunk_lanes(b: Seq<u8>, c: u32)
    requires
        supported_width(b.len() as int),
        carry_ok(c),
    ensures
        (cont_mask(b) == required(b, c) & low_bits(b.len())) == lanes_match(b, c),
        lanes_match(b, c) ==> (required(b, c) >> (b.len() as u64)) as u32 == carry_out(b),
{
    let n = b.len();
    let w = n as u64;
    let h = mask_upto(b, 7, n);
    let m6 = mask_upto(b, 6, n);
    let m5 = mask_upto(b, 5, n);
    let m4 = mask_upto(b, 4, n);
    lemma_mask_upto_bits(b, 7, n);
    lemma_nested_masks(h, m6, m5, m4, w);
    lemma_class_masks(b);
    let m1 = lead1_mask(b);
    let m2 = lead2_mask(b);
    let m3 = lead3_mask(b);
    let ct = cont_mask(b);
    let cc = c as u64;
    let sum = required(b, c);
    let orr = cc | (m1 << 1u64) | (m2 << 2u64) | (m3 << 3u64);
    let low = orr & low_bits(n);
    assert(sum == (cc + (m1 << 1u64) + (m2 << 2u64) + (m3 << 3u64)));
    lemma_add_is_or(cc, m1, m2, m3, ct, w);
    lemma_above_width(orr, w, w);
    assert forall|i: int| 0 <= i < n implies mask_bit(low, i) == lane_owed(b, c, i) by {
        let j1 = if i >= 1 { (i - 1) as u64 } else { 0u64 };
        let j2 = if i >= 2 { (i - 2) as u64 } else { 0u64 };
        let j3 = if i >= 3 { (i - 3) as u64 } else { 0u64 };
        lemma_or_bits(cc, m1, m2, m3, w, i as u64, j1, j2, j3);
        if i >= 1 {
            assert(mask_bit(m1, i - 1) == (b[i - 1] >= 0xC0));
        }
        if i >= 2 {
            assert(mask_bit(m2, i - 2) == (b[i - 2] >= 0xE0));
        }
        if i >= 3 {
            assert(mask_bit(m3, i - 3) == (b[i - 3] >= 0xF0));
        }
    }
    if ct == low {
        assert forall|i: int| 0 <= i < n implies is_cont(#[trigger] b[i]) == lane_owed(b, c, i) by {
            assert(mask_bit(ct, i) == is_cont(b[i]));
            assert(mask_bit(low, i) == lane_owed(b, c, i));
        }
        assert(lanes_match(b, c));
    }
    if lanes_match(b, c) {
        assert forall|i: int| 0 <= i < 32 implies mask_bit(ct, i) == mask_bit(low, i) by {
            if i < n {
                assert(mask_bit(ct, i) == is_cont(b[i]));
                assert(mask_bit(low, i) == lane_owed(b, c, i));
            } else {
                lemma_above_width(orr, w, i as u64);
                assert(!mask_bit(ct, i));
            }
        }
        assert(mask_bit(ct, 0) == mask_bit(low, 0));
        lemma_flag_eq(ct, low, 0);
        assert(mask_bit(ct, 1) == mask_bit(low, 1));
        lemma_flag_eq(ct, low, 1);
        assert(mask_bit(ct, 2) == mask_bit(low, 2));
        lemma_flag_eq(ct, low, 2);
        assert(mask_bit(ct, 3) == mask_bit(low, 3));
        lemma_flag_eq(ct, low, 3);
        assert(mask_bit(ct, 4) == mask_bit(low, 4));
        lemma_flag_eq(ct, low, 4);
        assert(mask_bit(ct, 5) == mask_bit(low, 5));
        lemma_flag_eq(ct, low, 5);
        assert(mask_bit(ct, 6) == mask_bit(low, 6));
        lemma_flag_eq(ct, low, 6);
        assert(mask_bit(ct, 7) == mask_bit(low, 7));
        lemma_flag_eq(ct, low, 7);
        assert(mask_bit(ct, 8) == mask_bit(low, 8));
        lemma_flag_eq(ct, low, 8);
        assert(mask_bit(ct, 9) == mask_bit(low, 9));
        lemma_flag_eq(ct, low, 9);
        assert(mask_bit(ct, 10) == mask_bit(low, 10));
        lemma_flag_eq(ct, low, 10);
        assert(mask_bit(ct, 11) == mask_bit(low, 11));
        lemma_flag_eq(ct, low, 11);
        assert(mask_bit(ct, 12) == mask_bit(low, 12));
        lemma_flag_eq(ct, low, 12);
        assert(mask_bit(ct, 13) == mask_bit(low, 13));
        lemma_flag_eq(ct, low, 13);
        assert(mask_bit(ct, 14) == mask_bit(low, 14));
        lemma_flag_eq(ct, low, 14);
        assert(mask_bit(ct, 15) == mask_bit(low, 15));
        lemma_flag_eq(ct, low, 15);
        assert(mask_bit(ct, 16) == mask_bit(low, 16));
        lemma_flag_eq(ct, low, 16);
        assert(mask_bit(ct, 17) == mask_bit(low, 17));
        lemma_flag_eq(ct, low, 17);
        assert(mask_bit(ct, 18) == mask_bit(low, 18));
        lemma_flag_eq(ct, low, 18);
        assert(mask_bit(ct, 19) == mask_bit(low, 19));
        lemma_flag_eq(ct, low, 19);
        assert(mask_bit(ct, 20) == mask_bit(low, 20));
        lemma_flag_eq(ct, low, 20);
        assert(mask_bit(ct, 21) == mask_bit(low, 21));
        lemma_flag_eq(ct, low, 21);
        assert(mask_bit(ct, 22) == mask_bit(low, 22));
        lemma_flag_eq(ct, low, 22);
        assert(mask_bit(ct, 23) == mask_bit(low, 23));
        lemma_flag_eq(ct, low, 23);
        assert(mask_bit(ct, 24) == mask_bit(low, 24));
        lemma_flag_eq(ct, low, 24);
        assert(mask_bit(ct, 25) == mask_bit(low, 25));
        lemma_flag_eq(ct, low, 25);
        assert(mask_bit(ct, 26) == mask_bit(low, 26));
        lemma_flag_eq(ct, low, 26);
        assert(mask_bit(ct, 27) == mask_bit(low, 27));
        lemma_flag_eq(ct, low, 27);
        assert(mask_bit(ct, 28) == mask_bit(low, 28));
        lemma_flag_eq(ct, low, 28);
        assert(mask_bit(ct, 29) == mask_bit(low, 29));
        lemma_flag_eq(ct, low, 29);
        assert(mask_bit(ct, 30) == mask_bit(low, 30));
        lemma_flag_eq(ct, low, 30);
        assert(mask_bit(ct, 31) == mask_bit(low, 31));
        lemma_flag_eq(ct, low, 31);
        lemma_ext32(ct, low);
        assert(sum == orr);
        lemma_carry_bits(cc, m1, m2, m3, w, (w - 1) as u64, (w - 2) as u64, (w - 3) as u64);
        assert(mask_bit(m1, n - 1) == (b[n - 1] >= 0xC0));
        assert(mask_bit(m2, n - 1) == (b[n - 1] >= 0xE0));
        assert(mask_bit(m3, n - 1) == (b[n - 1] >= 0xF0));
        assert(mask_bit(m2, n - 2) == (b[n - 2] >= 0xE0));
        assert(mask_bit(m3, n - 2) == (b[n - 2] >= 0xF0));
        assert(mask_bit(m3, n - 3) == (b[n - 3] >= 0xF0));
    }
}

/// A mask over lanes that all lack the chosen bit is zero.
proof fn lemma_mask_zero(s: Seq<u8>, k: u8, n: nat)
    requires
        forall|i: int| 0 <= i < n ==> !lane_bit(#[trigger] s[i], k),
    ensures
        mask_upto(s, k, n) == 0,
    decreases n,
{
    if n > 0 {
        lemma_mask_zero(s, k, (n - 1) as nat);
        assert(!lane_bit(s[n - 1], k));
    }
}

/// The mask of high bits is zero exactly for a chunk of ASCII bytes.
pub proof fn lemma_ascii_mask(b: Seq<u8>)
    requires
        supported_width(b.len() as int),
    ensures
        (lane_mask(b, 7) == 0) == all_ascii(b),
{
    lemma_class_masks(b);
    if lane_mask(b, 7) == 0 {
        assert forall|i: int| 0 <= i < b.len() implies #[trigger] b[i] < 0x80 by {
            let t = i as u64;
            assert((0u64 >> t) & 1 == 0) by (bit_vector);
            assert(!mask_bit(0u64, i));
        }
    }
    if all_ascii(b) {
        assert forall|i: int| 0 <= i < b.len() implies !lane_bit(#[trigger] b[i], 7) by {
            lemma_lane_class(b[i]);
        }
        lemma_mask_zero(b, 7, b.len());
    }
}

/// What a chunk check decides, lane by lane, for a carry that a well-formed
/// prefix can leave: continuation bytes sit exactly where they are owed, and
/// unless the chunk is plain ASCII no lane completes a forbidden pair. An
/// accepted chunk hands on what its last three lanes owe.
pub proof fn lemma_chunk_meaning(b: Seq<u8>, sh: Seq<u8>, c: u32)
    requires
        supported_width(b.len() as int),
        sh.len() == b.len(),
        carry_ok(c),
    ensures
        chunk_accepts(b, sh, c) == (lanes_match(b, c) && (all_ascii(b) || pairs_clear(b, sh))),
        chunk_accepts(b, sh, c) ==> chunk_carry(b, c) == carry_out(b),
{
    let n = b.len() as int;
    lemma_chunk_lanes(b, c);
    lemma_ascii_mask(b);
    assert forall|i: int| 0 <= i < n implies lane_err(#[trigger] sh[i], b[i]) == forbidden_pair(
        sh[i],
        b[i],
    ) by {
        lemma_tables(sh[i], b[i]);
    }
    if tables_clear(b, sh) {
        assert forall|i: int| 0 <= i < n implies !forbidden_pair(#[trigger] sh[i], b[i]) by {
            assert(!lane_err(sh[i], b[i]));
        }
    }
    if pairs_clear(b, sh) {
        assert forall|i: int| 0 <= i < n implies !lane_err(#[trigger] sh[i], b[i]) by {
            assert(!forbidden_pair(sh[i], b[i]));
        }
    }
    assert(tables_clear(b, sh) == pairs_clear(b, sh));
    if all_ascii(b) {
        if c == 0 {
            assert forall|i: int| 0 <= i < n implies is_cont(#[trigger] b[i]) == lane_owed(
                b,
                c,
                i,
            ) by {
                if i >= 1 {
                    assert(b[i - 1] < 0x80);
                }
                if i >= 2 {
                    assert(b[i - 2] < 0x80);
                }
                if i >= 3 {
                    assert(b[i - 3] < 0x80);
                }
            }
            assert(b[n - 1] < 0x80 && b[n - 2] < 0x80 && b[n - 3] < 0x80);
        } else {
            assert(b[0] < 0x80);
            assert(lane_owed(b, c, 0));
        }
    }
}

} // verus!
