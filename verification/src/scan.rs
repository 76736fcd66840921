//! Validity as a condition on every position of a byte sequence, and the proof
//! that one chunk check decides it for the positions of its chunk.
use vstd::prelude::*;
use crate::vector::{lane_mask, mask_bit, supported_width};
use crate::chunk::{chunk_accepts, chunk_carry, tables_clear};
use crate::tables::{forbidden_pair, lane_err, lemma_tables};
use crate::carry::{
    carry_ok, carry_out, is_cont, lane_owed, lanes_match, lemma_chunk_lanes, lemma_class_masks,
};

verus! {

/// The byte at position `i`, and zero before the start and past the end.
pub open spec fn byte_at(s: Seq<u8>, i: int) -> u8 {
    if 0 <= i < s.len() {
        s[i]
    } else {
        0
    }
}

/// Whether a leader shortly before position `i` asks for a continuation byte there.
pub open spec fn owed(s: Seq<u8>, i: int) -> bool {
    byte_at(s, i - 1) >= 0xC0 || byte_at(s, i - 2) >= 0xE0 || byte_at(s, i - 3) >= 0xF0
}

/// Position `i` is in order: it holds a continuation byte exactly if one is
/// owed there, and it does not complete a forbidden pair.
pub open spec fn local_ok(s: Seq<u8>, i: int) -> bool {
    is_cont(byte_at(s, i)) == owed(s, i) && !forbidden_pair(byte_at(s, i - 1), byte_at(s, i))
}

/// Every position is in order, the positions just past the end included, where
/// a leader left without its continuation bytes shows.
pub open spec fn locally_valid(s: Seq<u8>) -> bool {
    forall|i: int| #[trigger] local_ok(s, i)
}

/// The continuation bytes owed at positions `pos`, `pos + 1` and `pos + 2` by
/// the leaders before `pos`, as a run of low bits.
pub open spec fn carry_at(s: Seq<u8>, pos: int) -> u32 {
    if byte_at(s, pos - 1) >= 0xF0 {
        7
    } else if byte_at(s, pos - 1) >= 0xE0 || byte_at(s, pos - 2) >= 0xF0 {
        3
    } else if byte_at(s, pos - 1) >= 0xC0 || byte_at(s, pos - 2) >= 0xE0 || byte_at(s, pos - 3)
        >= 0xF0 {
        1
    } else {
        0
    }
}

/// One chunk check, given the carry that the bytes before the chunk leave,
/// accepts exactly if the positions of the chunk are in order, and then hands
/// on the carry that the bytes up to the chunk's end leave. Positions past the
/// end of `s` count as holding zero.
pub proof fn lemma_chunk_step(s: Seq<u8>, pos: int, b: Seq<u8>, sh: Seq<u8>)
    requires
        pos >= 0,
        supported_width(b.len() as int),
        sh.len() == b.len(),
        forall|j: int| 0 <= j < b.len() ==> #[trigger] b[j] == byte_at(s, pos + j),
        forall|j: int| 0 <= j < b.len() ==> #[trigger] sh[j] == byte_at(s, pos + j - 1),
    ensures
        chunk_accepts(b, sh, carry_at(s, pos)) == (forall|i: int|
            pos <= i < pos + b.len() ==> #[trigger] local_ok(s, i)),
        chunk_accepts(b, sh, carry_at(s, pos)) ==> chunk_carry(b, carry_at(s, pos)) == carry_at(
            s,
            pos + b.len(),
        ),
{
    let n = b.len() as int;
    let c = carry_at(s, pos);
    assert(carry_ok(c));
    lemma_class_masks(b);
    lemma_chunk_lanes(b, c);
    assert(b[n - 1] == byte_at(s, pos + n - 1) && b[n - 2] == byte_at(s, pos + n - 2) && b[n - 3]
        == byte_at(s, pos + n - 3));
    assert(carry_out(b) == carry_at(s, pos + n));
    assert forall|j: int| 0 <= j < n implies lane_owed(b, c, j) == owed(s, pos + j) by {
        if j >= 1 {
            assert(b[j - 1] == byte_at(s, pos + j - 1));
        }
        if j >= 2 {
            assert(b[j - 2] == byte_at(s, pos + j - 2));
        }
        if j >= 3 {
            assert(b[j - 3] == byte_at(s, pos + j - 3));
        }
    }
    assert forall|j: int| 0 <= j < n implies lane_err(#[trigger] sh[j], b[j]) == forbidden_pair(
        byte_at(s, pos + j - 1),
        byte_at(s, pos + j),
    ) by {
        lemma_tables(sh[j], b[j]);
    }
    assert forall|j: int| 0 <= j < n implies #[trigger] local_ok(s, pos + j) == ((is_cont(b[j])
        == lane_owed(b, c, j)) && !lane_err(sh[j], b[j])) by {
        assert(b[j] == byte_at(s, pos + j));
        assert(lane_err(sh[j], b[j]) == forbidden_pair(
            byte_at(s, pos + j - 1),
            byte_at(s, pos + j),
        ));
    }
    let all_ok = forall|i: int| pos <= i < pos + n ==> #[trigger] local_ok(s, i);
    if lane_mask(b, 7) == 0 {
        assert forall|j: int| 0 <= j < n implies #[trigger] b[j] < 0x80 by {
            assert(!mask_bit(0u64, j)) by {
                let t = j as u64;
                assert((0u64 >> t) & 1 == 0) by (bit_vector);
            }
        }
        if c == 0 {
            assert forall|i: int| pos <= i < pos + n implies #[trigger] local_ok(s, i) by {
                let j = i - pos;
                assert(b[j] < 0x80);
                assert(local_ok(s, pos + j) == ((is_cont(b[j]) == lane_owed(b, c, j))
                    && !lane_err(sh[j], b[j])));
                if j >= 1 {
                    assert(b[j - 1] < 0x80);
                }
                if j >= 2 {
                    assert(b[j - 2] < 0x80);
                }
                if j >= 3 {
                    assert(b[j - 3] < 0x80);
                }
            }
            assert(b[n - 1] < 0x80 && b[n - 2] < 0x80 && b[n - 3] < 0x80);
        } else {
            assert(b[0] < 0x80);
            assert(!local_ok(s, pos));
        }
    } else {
        if chunk_accepts(b, sh, c) {
            assert forall|i: int| pos <= i < pos + n implies #[trigger] local_ok(s, i) by {
                let j = i - pos;
                assert(local_ok(s, pos + j) == ((is_cont(b[j]) == lane_owed(b, c, j))
                    && !lane_err(sh[j], b[j])));
                assert(is_cont(b[j]) == lane_owed(b, c, j));
                assert(!lane_err(sh[j], b[j]));
            }
        }
        if all_ok {
            assert forall|j: int| 0 <= j < n implies is_cont(#[trigger] b[j]) == lane_owed(
                b,
                c,
                j,
            ) by {
                assert(local_ok(s, pos + j));
            }
            assert forall|j: int| 0 <= j < n implies !lane_err(#[trigger] sh[j], b[j]) by {
                assert(local_ok(s, pos + j));
            }
            assert(lanes_match(b, c));
            assert(tables_clear(b, sh));
        }
    }
}

} // verus!
