//! The check of one chunk, as many bytes as a register has lanes:
//! continuation bytes must sit exactly where the leaders before them demand,
//! and no pair of neighbouring bytes may spell a forbidden encoding.
use vstd::prelude::*;
use crate::carry::{
    all_ascii, carry_ok, carry_out, lanes_match, lemma_chunk_meaning, pairs_clear,
};
use crate::tables::{error_table_1, error_table_2, error_table_3, lane_err, lemma_nibble_bounds};
use crate::vector::{
    VecT, lane_mask, supported_width, v_and, v_lookup_0, v_lookup_4, v_table_16, v_test_bit_4,
    v_test_bit_5, v_test_bit_6, v_test_bit_7, v_testz,
};

verus! {

/// Mask of the lanes that hold a leader (`11xxxxxx`).
pub open spec fn lead1_mask(b: Seq<u8>) -> u64 {
    lane_mask(b, 7) & lane_mask(b, 6)
}

/// Mask of the lanes that hold a leader of a sequence of three or more bytes (`111xxxxx`).
pub open spec fn lead2_mask(b: Seq<u8>) -> u64 {
    lead1_mask(b) & lane_mask(b, 5)
}

/// Mask of the lanes that hold a leader of a four-byte sequence (`1111xxxx`).
pub open spec fn lead3_mask(b: Seq<u8>) -> u64 {
    lead2_mask(b) & lane_mask(b, 4)
}

/// Mask of the lanes that hold a continuation byte (`10xxxxxx`).
pub open spec fn cont_mask(b: Seq<u8>) -> u64 {
    lane_mask(b, 7) ^ lead1_mask(b)
}

/// The accumulated mask of lanes that must hold a continuation byte: the carry
/// from the chunk before, plus every leader mask moved up by the number of
/// continuation bytes it asks for. The bits from the lane count upwards reach
/// into the next chunk.
pub open spec fn required(b: Seq<u8>, carry: u32) -> u64 {
    (carry as u64 + (lead1_mask(b) << 1u64) + (lead2_mask(b) << 2u64) + (lead3_mask(b) << 3u64)) as u64
}

/// The mask with one bit for each of `n` lanes.
pub open spec fn low_bits(n: nat) -> u64 {
    ((1u64 << (n as u64)) - 1) as u64
}

/// No lane of the chunk is flagged by the tables. `sh` holds, lane for lane, the
/// byte that precedes the one in `b`.
pub open spec fn tables_clear(b: Seq<u8>, sh: Seq<u8>) -> bool {
    forall|i: int| 0 <= i < b.len() ==> !lane_err(#[trigger] sh[i], b[i])
}

/// The verdict on one chunk.
pub open spec fn chunk_accepts(b: Seq<u8>, sh: Seq<u8>, carry: u32) -> bool {
    if lane_mask(b, 7) == 0 {
        carry == 0
    } else {
        cont_mask(b) == required(b, carry) & low_bits(b.len()) && tables_clear(b, sh)
    }
}

/// The carry that an accepted chunk hands to the next one.
pub open spec fn chunk_carry(b: Seq<u8>, carry: u32) -> u32 {
    if lane_mask(b, 7) == 0 {
        carry
    } else {
        (required(b, carry) >> (b.len() as u64)) as u32
    }
}

/// Checks one chunk. `shifted_bytes` is the chunk moved up by one lane, with the
/// byte before the chunk in lane 0. `last_cont` carries the continuation bytes
/// still owed at the chunk's start; an accepted chunk replaces it with what it
/// owes to the next, a rejected chunk leaves it alone.
///
/// The verdict is stated twice: over the mask arithmetic, for every carry, and
/// lane by lane, for the carries that a well-formed prefix can leave.
pub fn z_validate_vec<const N: usize>(
    bytes: VecT<N>,
    shifted_bytes: VecT<N>,
    last_cont: &mut u32,
) -> (ok: bool)
    requires
        supported_width(N as int),
    ensures
        ok == chunk_accepts(bytes@, shifted_bytes@, *old(last_cont)),
        *final(last_cont) == (if ok {
            chunk_carry(bytes@, *old(last_cont))
        } else {
            *old(last_cont)
        }),
        carry_ok(*old(last_cont)) ==> ok == (lanes_match(bytes@, *old(last_cont)) && (all_ascii(
            bytes@,
        ) || pairs_clear(bytes@, shifted_bytes@))),
        carry_ok(*old(last_cont)) && ok ==> *final(last_cont) == carry_out(bytes@),
{
    proof {
        if carry_ok(*last_cont) {
            lemma_chunk_meaning(bytes@, shifted_bytes@, *last_cont);
        }
    }
    let error_1: VecT<N> = v_table_16(
        0x00, 0x00, 0x00, 0x00, 0x00, 0x00, 0x00, 0x00,
        0x00, 0x00, 0x00, 0x00, 0x01, 0x00, 0x06, 0x38,
    );
    let error_2: VecT<N> = v_table_16(
        0x0B, 0x01, 0x00, 0x00, 0x10, 0x20, 0x20, 0x20,
        0x20, 0x20, 0x20, 0x20, 0x20, 0x24, 0x20, 0x20,
    );
    let error_3: VecT<N> = v_table_16(
        0x29, 0x29, 0x29, 0x29, 0x29, 0x29, 0x29, 0x29,
        0x2B, 0x33, 0x35, 0x35, 0x31, 0x31, 0x31, 0x31,
    );

    // A chunk without a high bit is plain ASCII: it is fine unless a
    // continuation byte was still owed.
    let high: u64 = v_test_bit_7(bytes);
    if high == 0 {
        return *last_cont == 0;
    }
    let carry: u32 = *last_cont;
    let width: u64 = N as u64;
    let mut req: u64 = carry as u64;

    // Leaders of two or more bytes; what has the high bit but is no leader
    // is a continuation byte.
    let bit_6: u64 = v_test_bit_6(bytes);
    let mut set: u64 = high & bit_6;
    let cont: u64 = high ^ set;

    // Adding instead of OR-ing differs only where two runs of owed bytes
    // overlap, and a chunk with such an overlap fails the comparison below.
    let s1: u64 = set << 1u64;
    assert(s1 <= 0x1_FFFF_FFFEu64) by (bit_vector)
        requires
            s1 == (high & bit_6) << 1u64,
            high < (1u64 << width),
            width == 16 || width == 32,
    ;
    req = req + s1;

    let bit_5: u64 = v_test_bit_5(bytes);
    set = set & bit_5;
    let s2: u64 = set << 2u64;
    assert(s2 <= 0x3_FFFF_FFFCu64) by (bit_vector)
        requires
            s2 == ((high & bit_6) & bit_5) << 2u64,
            high < (1u64 << width),
            width == 16 || width == 32,
    ;
    req = req + s2;

    let bit_4: u64 = v_test_bit_4(bytes);
    set = set & bit_4;
    let s3: u64 = set << 3u64;
    assert(s3 <= 0x7_FFFF_FFF8u64) by (bit_vector)
        requires
            s3 == (((high & bit_6) & bit_5) & bit_4) << 3u64,
            high < (1u64 << width),
            width == 16 || width == 32,
    ;
    req = req + s3;
    assert(req == required(bytes@, carry));

    // The lanes of this chunk are the low bits of the total; what lies above
    // them is owed by the next chunk.
    let low: u64 = req & ((1u64 << width) - 1);
    if cont != low {
        return false;
    }
    let e_1: VecT<N> = v_lookup_4(error_1, shifted_bytes);
    let e_2: VecT<N> = v_lookup_0(error_2, shifted_bytes);
    let e_3: VecT<N> = v_lookup_4(error_3, bytes);

    let both: VecT<N> = v_and(e_1, e_2);
    let clear: bool = v_testz(both, e_3);
    proof {
        assert forall|i: int| 0 <= i < N implies (#[trigger] both@[i] & e_3@[i] == 0) == !lane_err(
            shifted_bytes@[i],
            bytes@[i],
        ) by {
            let p = shifted_bytes@[i];
            let c = bytes@[i];
            lemma_nibble_bounds(p, c);
            assert(e_1@[i] == error_table_1()[(p >> 4u8) as int]);
            assert(e_2@[i] == error_table_2()[(p & 0x0Fu8) as int]);
            assert(e_3@[i] == error_table_3()[(c >> 4u8) as int]);
        }
        if tables_clear(bytes@, shifted_bytes@) {
            assert forall|i: int| 0 <= i < N implies #[trigger] both@[i] & e_3@[i] == 0 by {
                assert(!lane_err(shifted_bytes@[i], bytes@[i]));
            }
        }
        if clear {
            assert forall|i: int| 0 <= i < N implies !lane_err(
                #[trigger] shifted_bytes@[i],
                bytes@[i],
            ) by {
                assert(both@[i] & e_3@[i] == 0);
            }
        }
        assert(clear == tables_clear(bytes@, shifted_bytes@));
    }
    if !clear {
        return false;
    }
    let next: u64 = req >> width;
    assert(next <= 0xFFFF_FFFFu64) by (bit_vector)
        requires
            next == req >> width,
            req <= 0xF_FFFF_FFFFu64,
            width == 16 || width == 32,
    ;
    *last_cont = next as u32;
    true
}

} // verus!
