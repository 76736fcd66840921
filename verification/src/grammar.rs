//! The position-wise condition that the chunk checks decide is the UTF-8
//! grammar: a sequence is in order at every position exactly if it splits into
//! well-formed encodings of scalar values.
use vstd::prelude::*;
use vstd::utf8::{
    encode_utf8, encode_utf8_valid_utf8, length_of_first_scalar, pop_first_scalar,
    valid_first_scalar, valid_utf8, valid_utf8_concat,
};
use crate::carry::is_cont;
use crate::scan::{byte_at, local_ok, locally_valid};

verus! {

/// The length of the well-formed encoding of one scalar value at the front of
/// `s`, by the byte ranges of the Unicode standard; zero if there is none.
pub open spec fn first_len(s: Seq<u8>) -> int {
    let b0 = byte_at(s, 0);
    let b1 = byte_at(s, 1);
    let b2 = byte_at(s, 2);
    let b3 = byte_at(s, 3);
    if s.len() == 0 {
        0
    } else if b0 < 0x80 {
        1
    } else if 0xC2 <= b0 && b0 <= 0xDF && is_cont(b1) {
        2
    } else if 0xE0 <= b0 && b0 <= 0xEF && is_cont(b1) && is_cont(b2) && (b0 == 0xE0 ==> b1
        >= 0xA0) && (b0 == 0xED ==> b1 < 0xA0) {
        3
    } else if 0xF0 <= b0 && b0 <= 0xF4 && is_cont(b1) && is_cont(b2) && is_cont(b3) && (b0 == 0xF0
        ==> b1 >= 0x90) && (b0 == 0xF4 ==> b1 < 0x90) {
        4
    } else {
        0
    }
}

/// For bytes of the right classes, the decoded value is a scalar value in its
/// shortest form exactly if the first two bytes lie in the ranges of the standard.
proof fn lemma_decoded_ranges(b0: u8, b1: u8, b2: u8, b3: u8)
    by (bit_vector)
    ensures
        b0 < 0x80 ==> !(0xD800 <= ((b0 & 0x7F) as u32) && ((b0 & 0x7F) as u32) <= 0xDFFF),
        (0xC0 <= b0 && b0 <= 0xDF && 0x80 <= b1 && b1 <= 0xBF) ==> (0x80 <= ((((b0 & 0x1F) as u32)
            << 6) | ((b1 & 0x3F) as u32))) == (b0 >= 0xC2) && !(0xD800 <= ((((b0 & 0x1F) as u32)
            << 6) | ((b1 & 0x3F) as u32)) && ((((b0 & 0x1F) as u32) << 6) | ((b1 & 0x3F) as u32))
            <= 0xDFFF),
        (0xE0 <= b0 && b0 <= 0xEF && 0x80 <= b1 && b1 <= 0xBF && 0x80 <= b2 && b2 <= 0xBF) ==> (
        0x800 <= ((((b0 & 0x0F) as u32) << 12) | (((b1 & 0x3F) as u32) << 6) | ((b2 & 0x3F) as u32))
            && !(0xD800 <= ((((b0 & 0x0F) as u32) << 12) | (((b1 & 0x3F) as u32) << 6) | ((b2
            & 0x3F) as u32)) && ((((b0 & 0x0F) as u32) << 12) | (((b1 & 0x3F) as u32) << 6) | ((b2
            & 0x3F) as u32)) <= 0xDFFF)) == ((b0 == 0xE0 ==> b1 >= 0xA0) && (b0 == 0xED ==> b1
            < 0xA0)),
        (0xF0 <= b0 && b0 <= 0xF7 && 0x80 <= b1 && b1 <= 0xBF && 0x80 <= b2 && b2 <= 0xBF && 0x80
            <= b3 && b3 <= 0xBF) ==> (0x10000 <= ((((b0 & 0x07) as u32) << 18) | (((b1
            & 0x3F) as u32) << 12) | (((b2 & 0x3F) as u32) << 6) | ((b3 & 0x3F) as u32)) && ((((b0
            & 0x07) as u32) << 18) | (((b1 & 0x3F) as u32) << 12) | (((b2 & 0x3F) as u32) << 6) | ((
        b3 & 0x3F) as u32)) <= 0x10FFFF && !(0xD800 <= ((((b0 & 0x07) as u32) << 18) | (((b1
            & 0x3F) as u32) << 12) | (((b2 & 0x3F) as u32) << 6) | ((b3 & 0x3F) as u32)) && ((((b0
            & 0x07) as u32) << 18) | (((b1 & 0x3F) as u32) << 12) | (((b2 & 0x3F) as u32) << 6) | ((
        b3 & 0x3F) as u32)) <= 0xDFFF)) == (b0 <= 0xF4 && (b0 == 0xF0 ==> b1 >= 0x90) && (b0
            == 0xF4 ==> b1 < 0x90)),
{
}

/// The byte ranges pick out exactly the encodings that decode to a scalar
/// value in its shortest form.
pub proof fn lemma_first_scalar(s: Seq<u8>)
    requires
        s.len() > 0,
    ensures
        valid_first_scalar(s) == (first_len(s) > 0),
        first_len(s) > 0 ==> length_of_first_scalar(s) == first_len(s),
        first_len(s) <= s.len(),
{
    lemma_decoded_ranges(byte_at(s, 0), byte_at(s, 1), byte_at(s, 2), byte_at(s, 3));
}

/// Skipping a prefix that owes nothing to what follows leaves the condition on
/// each later position as it was.
proof fn lemma_skip(s: Seq<u8>, k: int)
    requires
        1 <= k <= s.len(),
        byte_at(s, k - 1) < 0xC0,
        byte_at(s, k - 2) < 0xE0,
        byte_at(s, k - 3) < 0xF0,
        forall|i: int| i < k ==> #[trigger] local_ok(s, i),
    ensures
        locally_valid(s) == locally_valid(s.skip(k)),
{
    let t = s.skip(k);
    assert forall|j: int| j >= -3 implies #[trigger] byte_at(t, j) == (if j >= 0 {
        byte_at(s, j + k)
    } else {
        0
    }) by {}
    assert forall|j: int| local_ok(t, j) == (j < 0 || #[trigger] local_ok(s, j + k)) by {
        if j >= 0 {
            assert(byte_at(t, j) == byte_at(s, j + k));
            if j >= 1 {
                assert(byte_at(t, j - 1) == byte_at(s, j - 1 + k));
            }
            if j >= 2 {
                assert(byte_at(t, j - 2) == byte_at(s, j - 2 + k));
            }
            if j >= 3 {
                assert(byte_at(t, j - 3) == byte_at(s, j - 3 + k));
            }
        }
    }
    if locally_valid(s) {
        assert forall|j: int| #[trigger] local_ok(t, j) by {
            assert(local_ok(s, j + k));
        }
    }
    if locally_valid(t) {
        assert forall|i: int| #[trigger] local_ok(s, i) by {
            if i >= k {
                assert(local_ok(t, i - k));
                assert(local_ok(s, (i - k) + k));
            }
        }
    }
}

/// A non-empty sequence is in order at every position exactly if it starts with
/// a well-formed encoding and is in order at every position after it.
proof fn lemma_first(s: Seq<u8>)
    requires
        s.len() > 0,
    ensures
        locally_valid(s) == (first_len(s) > 0 && locally_valid(s.skip(first_len(s)))),
{
    let n = first_len(s);
    if n > 0 {
        assert forall|i: int| i < n implies #[trigger] local_ok(s, i) by {}
        lemma_skip(s, n);
    } else {
        assert(!local_ok(s, 0) || !local_ok(s, 1) || !local_ok(s, 2) || !local_ok(s, 3));
    }
}

/// Being in order at every position is being valid UTF-8.
pub proof fn lemma_locally_valid_is_utf8(s: Seq<u8>)
    ensures
        locally_valid(s) == valid_utf8(s),
    decreases s.len(),
{
    if s.len() == 0 {
        assert forall|i: int| #[trigger] local_ok(s, i) by {}
    } else {
        lemma_first_scalar(s);
        lemma_first(s);
        if first_len(s) > 0 {
            assert(pop_first_scalar(s) == s.skip(first_len(s)));
            lemma_locally_valid_is_utf8(s.skip(first_len(s)));
        }
    }
}

/// A sequence of ASCII bytes is valid UTF-8.
pub proof fn lemma_ascii_is_valid(s: Seq<u8>)
    requires
        forall|i: int| 0 <= i < s.len() ==> s[i] < 0x80,
    ensures
        valid_utf8(s),
{
    assert forall|i: int| #[trigger] local_ok(s, i) by {
        assert(byte_at(s, i) < 0x80);
        assert(byte_at(s, i - 1) < 0x80);
        assert(byte_at(s, i - 2) < 0x80);
        assert(byte_at(s, i - 3) < 0x80);
    }
    lemma_locally_valid_is_utf8(s);
}

/// The UTF-8 encoding of any sequence of scalar values is valid.
pub proof fn lemma_encoded_text_is_valid(chars: Seq<char>)
    ensures
        valid_utf8(encode_utf8(chars)),
{
    encode_utf8_valid_utf8(chars);
}

/// A valid sequence that ends in a continuation byte is no longer valid once
/// that byte is removed: its leader is left without all it asks for.
pub proof fn lemma_truncated_is_invalid(s: Seq<u8>)
    requires
        s.len() > 0,
        valid_utf8(s),
        is_cont(s[s.len() - 1]),
    ensures
        !valid_utf8(s.drop_last()),
{
    let t = s.drop_last();
    let n = s.len() - 1;
    lemma_locally_valid_is_utf8(s);
    lemma_locally_valid_is_utf8(t);
    assert(local_ok(s, n));
    assert(byte_at(t, n - 1) == byte_at(s, n - 1));
    assert(byte_at(t, n - 2) == byte_at(s, n - 2));
    assert(byte_at(t, n - 3) == byte_at(s, n - 3));
    assert(!local_ok(t, n));
}

/// Two valid sequences joined are valid: neither owes a byte to the other.
pub proof fn lemma_joined_is_valid(a: Seq<u8>, b: Seq<u8>)
    requires
        valid_utf8(a),
        valid_utf8(b),
    ensures
        valid_utf8(a + b),
{
    valid_utf8_concat(a, b);
}

/// A sequence that ends in a leader, or short of the continuation bytes its
/// last leader asks for, is not valid, whatever it is later joined with on
/// the left.
pub proof fn lemma_owing_is_invalid(s: Seq<u8>)
    requires
        s.len() > 0,
        s[s.len() - 1] >= 0xC0 || (s.len() >= 2 && s[s.len() - 2] >= 0xE0) || (s.len() >= 3 && s[s.len()
            - 3] >= 0xF0),
    ensures
        !valid_utf8(s),
{
    lemma_locally_valid_is_utf8(s);
    assert(!local_ok(s, s.len() as int));
}

} // verus!
