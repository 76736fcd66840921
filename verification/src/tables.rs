//! The three lookup tables that detect forbidden pairs of neighbouring bytes,
//! and the proof of what they detect.
use vstd::prelude::*;

verus! {

/// Forbidden-pair signatures selected by the high nibble of the earlier byte.
pub open spec fn error_table_1() -> Seq<u8> {
    seq![
        0x00u8, 0x00, 0x00, 0x00, 0x00, 0x00, 0x00, 0x00,
        0x00, 0x00, 0x00, 0x00, 0x01, 0x00, 0x06, 0x38,
    ]
}

/// Forbidden-pair signatures selected by the low nibble of the earlier byte.
pub open spec fn error_table_2() -> Seq<u8> {
    seq![
        0x0Bu8, 0x01, 0x00, 0x00, 0x10, 0x20, 0x20, 0x20,
        0x20, 0x20, 0x20, 0x20, 0x20, 0x24, 0x20, 0x20,
    ]
}

/// Forbidden-pair signatures selected by the high nibble of the later byte.
pub open spec fn error_table_3() -> Seq<u8> {
    seq![
        0x29u8, 0x29, 0x29, 0x29, 0x29, 0x29, 0x29, 0x29,
        0x2B, 0x33, 0x35, 0x35, 0x31, 0x31, 0x31, 0x31,
    ]
}

/// Whether the three tables flag the byte `cur` when it directly follows `prev`.
pub open spec fn lane_err(prev: u8, cur: u8) -> bool {
    (error_table_1()[(prev >> 4u8) as int] & error_table_2()[(prev & 0x0Fu8) as int]) & error_table_3()[(cur
        >> 4u8) as int] != 0
}

/// The pairs of neighbouring bytes that no well-formed sequence contains: a
/// leader that can only start an over-long form, a leader beyond `F4`, and a
/// leader followed by a byte that would give an over-long form, a surrogate
/// or a value above `10FFFF`.
pub open spec fn forbidden_pair(prev: u8, cur: u8) -> bool {
    ||| prev == 0xC0
    ||| prev == 0xC1
    ||| (prev == 0xE0 && 0x80 <= cur && cur < 0xA0)
    ||| (prev == 0xED && 0xA0 <= cur && cur < 0xC0)
    ||| (prev == 0xF0 && cur < 0x90)
    ||| (prev == 0xF4 && cur >= 0x90)
    ||| prev >= 0xF5
}

/// Both nibbles of a byte index a sixteen-entry table.
pub proof fn lemma_nibble_bounds(prev: u8, cur: u8)
    by (bit_vector)
    ensures
        prev >> 4u8 < 16,
        prev & 0x0Fu8 < 16,
        cur >> 4u8 < 16,
{
}


/// The entries of the three tables, by index.
proof fn lemma_table_entries(h: int, l: int, c: int)
    requires
        0 <= h < 16,
        0 <= l < 16,
        0 <= c < 16,
    ensures
        error_table_1()[h] == (if h == 12 {
            0x01u8
        } else if h == 14 {
            0x06u8
        } else if h == 15 {
            0x38u8
        } else {
            0x00u8
        }),
        error_table_2()[l] == (if l == 0 {
            0x0Bu8
        } else if l == 1 {
            0x01u8
        } else if l == 2 || l == 3 {
            0x00u8
        } else if l == 4 {
            0x10u8
        } else if l == 13 {
            0x24u8
        } else {
            0x20u8
        }),
        error_table_3()[c] == (if c < 8 {
            0x29u8
        } else if c == 8 {
            0x2Bu8
        } else if c == 9 {
            0x33u8
        } else if c == 10 || c == 11 {
            0x35u8
        } else {
            0x31u8
        }),
{
}

/// The three signatures picked for a pair of bytes share a bit exactly if the
/// pair is forbidden.
proof fn lemma_signature_meet(prev: u8, cur: u8, a: u8, b: u8, d: u8)
    by (bit_vector)
    requires
        a == (if prev >> 4u8 == 12 {
            0x01u8
        } else if prev >> 4u8 == 14 {
            0x06u8
        } else if prev >> 4u8 == 15 {
            0x38u8
        } else {
            0x00u8
        }),
        b == (if prev & 0x0Fu8 == 0 {
            0x0Bu8
        } else if prev & 0x0Fu8 == 1 {
            0x01u8
        } else if prev & 0x0Fu8 == 2 || prev & 0x0Fu8 == 3 {
            0x00u8
        } else if prev & 0x0Fu8 == 4 {
            0x10u8
        } else if prev & 0x0Fu8 == 13 {
            0x24u8
        } else {
            0x20u8
        }),
        d == (if cur >> 4u8 < 8 {
            0x29u8
        } else if cur >> 4u8 == 8 {
            0x2Bu8
        } else if cur >> 4u8 == 9 {
            0x33u8
        } else if cur >> 4u8 == 10 || cur >> 4u8 == 11 {
            0x35u8
        } else {
            0x31u8
        }),
    ensures
        ((a & b) & d != 0) == (prev == 0xC0 || prev == 0xC1 || (prev == 0xE0 && 0x80 <= cur && cur
            < 0xA0) || (prev == 0xED && 0xA0 <= cur && cur < 0xC0) || (prev == 0xF0 && cur < 0x90)
            || (prev == 0xF4 && cur >= 0x90) || prev >= 0xF5),
{
}

/// The three tables flag exactly the forbidden pairs.
pub proof fn lemma_tables(prev: u8, cur: u8)
    ensures
        lane_err(prev, cur) == forbidden_pair(prev, cur),
{
    lemma_nibble_bounds(prev, cur);
    let h = (prev >> 4u8) as int;
    let l = (prev & 0x0Fu8) as int;
    let c = (cur >> 4u8) as int;
    lemma_table_entries(h, l, c);
    lemma_signature_meet(prev, cur, error_table_1()[h], error_table_2()[l], error_table_3()[c]);
}

} // verus!
