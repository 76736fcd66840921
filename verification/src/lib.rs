//! Table-driven, lane-parallel validation of UTF-8 byte sequences.
pub mod vector;
pub mod tables;
pub mod chunk;
pub mod carry;
pub mod scan;
pub mod grammar;

use vstd::prelude::*;
use vstd::utf8::valid_utf8;
use crate::vector::{VecT, supported_width, v_load, v_shift_lanes_left};
use crate::chunk::z_validate_vec;
use crate::scan::{byte_at, carry_at, lemma_chunk_step, local_ok, locally_valid};
use crate::grammar::{lemma_ascii_is_valid, lemma_locally_valid_is_utf8};

verus! {

/// Whether `data` is well-formed UTF-8, decided with registers of sixteen lanes.
pub fn validate(data: &[u8]) -> (valid: bool)
    ensures
        valid == valid_utf8(data@),
        (forall|i: int| 0 <= i < data@.len() ==> data@[i] < 0x80) ==> valid,
{
    validate_lanes::<16>(data)
}

/// Whether `data` is well-formed UTF-8, decided with registers of thirty-two lanes.
pub fn validate_wide(data: &[u8]) -> (valid: bool)
    ensures
        valid == valid_utf8(data@),
        (forall|i: int| 0 <= i < data@.len() ==> data@[i] < 0x80) ==> valid,
{
    validate_lanes::<32>(data)
}

/// Whether `data` is well-formed UTF-8, decided with registers of `N` lanes.
///
/// The input is checked `N` bytes at a time. What is left at the end, at most
/// one chunk, is copied into a zeroed scratch buffer together with the byte
/// before it, so that nothing outside `data` is ever read.
pub fn validate_lanes<const N: usize>(data: &[u8]) -> (valid: bool)
    requires
        supported_width(N as int),
    ensures
        valid == valid_utf8(data@),
        (forall|i: int| 0 <= i < data@.len() ==> data@[i] < 0x80) ==> valid,
{
    let len: usize = data.len();
    let ghost s = data@;
    proof {
        lemma_locally_valid_is_utf8(s);
        if forall|i: int| 0 <= i < s.len() ==> s[i] < 0x80 {
            lemma_ascii_is_valid(s);
        }
    }
    // Continuation bytes that the chunks so far still owe to the next one.
    let mut last_cont: u32 = 0;
    let mut offset: usize = 0;
    if len >= N {
        // The first chunk has no byte before it: shift it within the register.
        let mut shifted_bytes: VecT<N> = v_shift_lanes_left(v_load(data, 0));
        while len - offset > N
            invariant
                supported_width(N as int),
                len == s.len(),
                s == data@,
                len >= N,
                offset < len,
                locally_valid(s) == valid_utf8(s),
                last_cont == carry_at(s, offset as int),
                forall|i: int| i < offset ==> #[trigger] local_ok(s, i),
                len - offset > N ==> forall|j: int|
                    0 <= j < N ==> #[trigger] shifted_bytes@[j] == byte_at(s, offset + j - 1),
            decreases len - offset,
        {
            let bytes: VecT<N> = v_load(data, offset);
            proof {
                lemma_chunk_step(s, offset as int, bytes@, shifted_bytes@);
            }
            if !z_validate_vec(bytes, shifted_bytes, &mut last_cont) {
                return false;
            }
            offset += N;
            // The chunk moved up by one lane is read from the input itself,
            // but only where another whole chunk follows.
            if len - offset > N {
                shifted_bytes = v_load(data, offset - 1);
            }
        }
    }
    if offset < len {
        // Room for the widest register and the byte before the chunk.
        let mut buffer: [u8; 33] = [0u8; 33];
        if offset > 0 {
            buffer[0] = data[offset - 1];
        }
        let rest: usize = len - offset;
        let mut i: usize = 0;
        while i < rest
            invariant
                len == s.len(),
                s == data@,
                offset < len,
                rest == len - offset,
                rest <= N,
                N <= 32,
                i <= rest,
                buffer@[0] == byte_at(s, offset - 1),
                forall|j: int| 0 <= j < i ==> #[trigger] buffer@[j + 1] == s[offset + j],
                forall|j: int| i <= j < 32 ==> #[trigger] buffer@[j + 1] == 0,
            decreases rest - i,
        {
            buffer[i + 1] = data[offset + i];
            i += 1;
        }
        let bytes: VecT<N> = v_load(buffer.as_slice(), 1);
        let shifted_bytes: VecT<N> = v_load(buffer.as_slice(), 0);
        proof {
            assert forall|j: int| 0 <= j < N implies #[trigger] bytes@[j] == byte_at(
                s,
                offset + j,
            ) by {
                assert(bytes@[j] == buffer@[j + 1]);
            }
            assert forall|j: int| 0 <= j < N implies #[trigger] shifted_bytes@[j] == byte_at(
                s,
                offset + j - 1,
            ) by {
                assert(shifted_bytes@[j] == buffer@[j]);
                if j >= 1 {
                    assert(buffer@[(j - 1) + 1] == byte_at(s, offset + j - 1));
                }
            }
            lemma_chunk_step(s, offset as int, bytes@, shifted_bytes@);
        }
        if !z_validate_vec(bytes, shifted_bytes, &mut last_cont) {
            return false;
        }
        proof {
            lemma_past_end(s, offset + N);
        }
        last_cont == 0
    } else {
        proof {
            lemma_past_end(s, 0);
        }
        true
    }
}

/// Past the end of the sequence, every position is in order exactly if the
/// bytes before it leave no continuation byte owed.
proof fn lemma_past_end(s: Seq<u8>, pos: int)
    requires
        pos >= s.len(),
        forall|i: int| i < pos ==> #[trigger] local_ok(s, i),
    ensures
        locally_valid(s) == (carry_at(s, pos) == 0),
{
    if carry_at(s, pos) == 0 {
        assert forall|i: int| #[trigger] local_ok(s, i) by {
            if i >= pos {
                assert(byte_at(s, i) == 0);
            }
        }
    } else {
        assert(!local_ok(s, pos));
    }
}

} // verus!
