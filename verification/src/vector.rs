//! A software model of a byte register of sixteen or thirty-two lanes, and the
//! handful of lane-wise operations the validator is built from.
use vstd::prelude::*;

verus! {

/// One register of `N` byte lanes, lane 0 first.
#[derive(Clone, Copy, Debug)]
pub struct VecT<const N: usize> {
    pub lanes: [u8; N],
}

impl<const N: usize> View for VecT<N> {
    type V = Seq<u8>;

    open spec fn view(&self) -> Seq<u8> {
        self.lanes@
    }
}

/// The lane counts that the validator is built for.
pub open spec fn supported_width(n: int) -> bool {
    n == 16 || n == 32
}

/// Bit `i` of a lane mask.
pub open spec fn mask_bit(m: u64, i: int) -> bool {
    (m >> (i as u64)) & 1 == 1
}

/// Bit `k` of a single lane.
pub open spec fn lane_bit(b: u8, k: u8) -> bool {
    (b >> k) & 1 == 1
}

/// Loads the `N` bytes of `data` that start at `offset`.
pub fn v_load<const N: usize>(data: &[u8], offset: usize) -> (v: VecT<N>)
    requires
        offset + N <= data@.len(),
    ensures
        v@ == data@.subrange(offset as int, offset + N),
{
    let len: usize = data.len();
    let mut lanes: [u8; N] = [0u8; N];
    let mut i: usize = 0;
    while i < N
        invariant
            i <= N,
            offset + N <= len,
            len == data@.len(),
            forall|j: int| 0 <= j < i ==> lanes@[j] == data@[offset + j],
        decreases N - i,
    {
        lanes[i] = data[offset + i];
        i += 1;
    }
    let v = VecT { lanes };
    assert(v@ =~= data@.subrange(offset as int, offset + N));
    v
}

/// A register with every lane set to `x`.
pub fn v_set1<const N: usize>(x: u8) -> (v: VecT<N>)
    ensures
        v@.len() == N,
        forall|i: int| 0 <= i < N ==> v@[i] == x,
{
    VecT { lanes: [x; N] }
}

/// Lane-wise AND of two registers.
pub fn v_and<const N: usize>(a: VecT<N>, b: VecT<N>) -> (v: VecT<N>)
    ensures
        v@.len() == N,
        forall|i: int| 0 <= i < N ==> v@[i] == a@[i] & b@[i],
{
    let mut lanes: [u8; N] = [0u8; N];
    let mut i: usize = 0;
    while i < N
        invariant
            i <= N,
            forall|j: int| 0 <= j < i ==> lanes@[j] == a@[j] & b@[j],
        decreases N - i,
    {
        lanes[i] = a.lanes[i] & b.lanes[i];
        i += 1;
    }
    VecT { lanes }
}

/// True exactly when `a & b` is zero in every lane.
pub fn v_testz<const N: usize>(a: VecT<N>, b: VecT<N>) -> (z: bool)
    ensures
        z == (forall|i: int| 0 <= i < N ==> #[trigger] a@[i] & b@[i] == 0),
{
    let mut i: usize = 0;
    while i < N
        invariant
            i <= N,
            forall|j: int| 0 <= j < i ==> #[trigger] a@[j] & b@[j] == 0,
        decreases N - i,
    {
        if a.lanes[i] & b.lanes[i] != 0 {
            assert(a@[i as int] & b@[i as int] != 0);
            return false;
        }
        i += 1;
    }
    true
}

/// The mask that collects bit `k` of the first `n` lanes of `s`: bit `i` of the
/// mask is bit `k` of lane `i`.
pub open spec fn mask_upto(s: Seq<u8>, k: u8, n: nat) -> u64
    decreases n,
{
    if n == 0 {
        0
    } else {
        let lo = mask_upto(s, k, (n - 1) as nat);
        if lane_bit(s[n - 1], k) {
            lo | (1u64 << ((n - 1) as u64))
        } else {
            lo
        }
    }
}

/// The mask of bit `k` over a whole register.
pub open spec fn lane_mask(s: Seq<u8>, k: u8) -> u64 {
    mask_upto(s, k, s.len())
}

/// Setting bit `i` of a mask that lies below it changes that bit alone, and
/// the result lies below bit `i + 1`.
proof fn lemma_set_bit(m: u64, i: u64, j: u64)
    requires
        i < 32,
        j < 64,
        m < (1u64 << i),
    ensures
        (((m | (1u64 << i)) >> j) & 1 == 1) == (((m >> j) & 1 == 1) || j == i),
        (m | (1u64 << i)) < (1u64 << ((i + 1) as u64)),
        m < (1u64 << ((i + 1) as u64)),
        j >= i ==> (m >> j) & 1 == 0,
{
    assert((((m | (1u64 << i)) >> j) & 1 == 1) == (((m >> j) & 1 == 1) || j == i)) by (bit_vector)
        requires
            i < 32,
            j < 64,
            m < (1u64 << i),
    ;
    assert((m | (1u64 << i)) < (1u64 << ((i + 1) as u64)) && m < (1u64 << ((i + 1) as u64)))
        by (bit_vector)
        requires
            i < 32,
            m < (1u64 << i),
    ;
    assert(j >= i ==> (m >> j) & 1 == 0) by (bit_vector)
        requires
            i < 32,
            j < 64,
            m < (1u64 << i),
    ;
}

/// Every bit of a lane mask is the chosen bit of the lane with the same index,
/// and the mask has no bits beyond the lanes it covers.
pub proof fn lemma_mask_upto_bits(s: Seq<u8>, k: u8, n: nat)
    requires
        n <= 32,
    ensures
        mask_upto(s, k, n) < (1u64 << (n as u64)),
        forall|i: int| 0 <= i < n ==> mask_bit(mask_upto(s, k, n), i) == lane_bit(#[trigger] s[i], k),
        forall|i: int| n <= i < 64 ==> !#[trigger] mask_bit(mask_upto(s, k, n), i),
    decreases n,
{
    if n == 0 {
        assert(0u64 < (1u64 << 0u64)) by (bit_vector);
        assert forall|i: int| 0 <= i < 64 implies !#[trigger] mask_bit(0u64, i) by {
            let j = i as u64;
            assert((0u64 >> j) & 1 == 0) by (bit_vector);
        }
    } else {
        let lo = mask_upto(s, k, (n - 1) as nat);
        let m = mask_upto(s, k, n);
        lemma_mask_upto_bits(s, k, (n - 1) as nat);
        let t = (n - 1) as u64;
        assert((t + 1) as u64 == n as u64);
        assert forall|i: int| 0 <= i < 64 implies (i < n ==> mask_bit(m, i) == lane_bit(s[i], k))
            && (i >= n ==> !mask_bit(m, i)) by {
            lemma_set_bit(lo, t, i as u64);
        }
        lemma_set_bit(lo, t, 0);
    }
}

/// Collects bit `k` of every lane into a mask: bit `i` of the result is bit `k`
/// of lane `i`.
fn test_bit<const N: usize>(input: VecT<N>, k: u8) -> (m: u64)
    requires
        k < 8,
        supported_width(N as int),
    ensures
        m == lane_mask(input@, k),
        m < (1u64 << (N as u64)),
        forall|i: int| 0 <= i < N ==> mask_bit(m, i) == lane_bit(#[trigger] input@[i], k),
        forall|i: int| N <= i < 64 ==> !#[trigger] mask_bit(m, i),
{
    let mut acc: u64 = 0;
    let mut i: usize = 0;
    while i < N
        invariant
            i <= N,
            N <= 32,
            k < 8,
            acc == mask_upto(input@, k, i as nat),
        decreases N - i,
    {
        proof {
            lemma_mask_upto_bits(input@, k, i as nat);
            lemma_set_bit(acc, i as u64, 0);
        }
        if (input.lanes[i] >> k) & 1 == 1 {
            acc = acc | (1u64 << (i as u64));
        }
        i += 1;
    }
    proof {
        lemma_mask_upto_bits(input@, k, N as nat);
    }
    acc
}

/// The mask of lanes whose bit 7 is set.
pub fn v_test_bit_7<const N: usize>(input: VecT<N>) -> (m: u64)
    requires
        supported_width(N as int),
    ensures
        m == lane_mask(input@, 7),
        m < (1u64 << (N as u64)),
        forall|i: int| 0 <= i < N ==> mask_bit(m, i) == lane_bit(#[trigger] input@[i], 7),
        forall|i: int| N <= i < 64 ==> !#[trigger] mask_bit(m, i),
{
    test_bit(input, 7)
}

/// The mask of lanes whose bit 6 is set.
pub fn v_test_bit_6<const N: usize>(input: VecT<N>) -> (m: u64)
    requires
        supported_width(N as int),
    ensures
        m == lane_mask(input@, 6),
        m < (1u64 << (N as u64)),
        forall|i: int| 0 <= i < N ==> mask_bit(m, i) == lane_bit(#[trigger] input@[i], 6),
        forall|i: int| N <= i < 64 ==> !#[trigger] mask_bit(m, i),
{
    test_bit(input, 6)
}

/// The mask of lanes whose bit 5 is set.
pub fn v_test_bit_5<const N: usize>(input: VecT<N>) -> (m: u64)
    requires
        supported_width(N as int),
    ensures
        m == lane_mask(input@, 5),
        m < (1u64 << (N as u64)),
        forall|i: int| 0 <= i < N ==> mask_bit(m, i) == lane_bit(#[trigger] input@[i], 5),
        forall|i: int| N <= i < 64 ==> !#[trigger] mask_bit(m, i),
{
    test_bit(input, 5)
}

/// The mask of lanes whose bit 4 is set.
pub fn v_test_bit_4<const N: usize>(input: VecT<N>) -> (m: u64)
    requires
        supported_width(N as int),
    ensures
        m == lane_mask(input@, 4),
        m < (1u64 << (N as u64)),
        forall|i: int| 0 <= i < N ==> mask_bit(m, i) == lane_bit(#[trigger] input@[i], 4),
        forall|i: int| N <= i < 64 ==> !#[trigger] mask_bit(m, i),
{
    test_bit(input, 4)
}

/// Per lane, the table entry selected by the high nibble of the index lane.
pub fn v_lookup_4<const N: usize>(table: VecT<N>, index: VecT<N>) -> (v: VecT<N>)
    requires
        supported_width(N as int),
    ensures
        v@.len() == N,
        forall|i: int| 0 <= i < N ==> v@[i] == table@[(#[trigger] index@[i] >> 4u8) as int],
{
    let mut lanes: [u8; N] = [0u8; N];
    let mut i: usize = 0;
    while i < N
        invariant
            i <= N,
            N >= 16,
            forall|j: int| 0 <= j < i ==> lanes@[j] == table@[(#[trigger] index@[j] >> 4u8) as int],
        decreases N - i,
    {
        let b: u8 = index.lanes[i];
        let n: u8 = b >> 4u8;
        assert(n < 16) by (bit_vector)
            requires
                n == b >> 4u8,
        ;
        lanes[i] = table.lanes[n as usize];
        i += 1;
    }
    VecT { lanes }
}

/// Per lane, the table entry selected by the low nibble of the index lane.
pub fn v_lookup_0<const N: usize>(table: VecT<N>, index: VecT<N>) -> (v: VecT<N>)
    requires
        supported_width(N as int),
    ensures
        v@.len() == N,
        forall|i: int| 0 <= i < N ==> v@[i] == table@[(#[trigger] index@[i] & 0x0Fu8) as int],
{
    let mut lanes: [u8; N] = [0u8; N];
    let mut i: usize = 0;
    while i < N
        invariant
            i <= N,
            N >= 16,
            forall|j: int| 0 <= j < i ==> lanes@[j] == table@[(#[trigger] index@[j] & 0x0Fu8) as int],
        decreases N - i,
    {
        let b: u8 = index.lanes[i];
        let n: u8 = b & 0x0Fu8;
        assert(n < 16) by (bit_vector)
            requires
                n == b & 0x0Fu8,
        ;
        lanes[i] = table.lanes[n as usize];
        i += 1;
    }
    VecT { lanes }
}

/// A sixteen-entry lookup table, entry 0 first. A register of more than
/// sixteen lanes holds the entries again in each further group of sixteen.
pub fn v_table_16<const N: usize>(
    v0: u8,
    v1: u8,
    v2: u8,
    v3: u8,
    v4: u8,
    v5: u8,
    v6: u8,
    v7: u8,
    v8: u8,
    v9: u8,
    v10: u8,
    v11: u8,
    v12: u8,
    v13: u8,
    v14: u8,
    v15: u8,
) -> (v: VecT<N>)
    ensures
        v@.len() == N,
        forall|i: int|
            0 <= i < N ==> #[trigger] v@[i] == seq![
                v0, v1, v2, v3, v4, v5, v6, v7, v8, v9, v10, v11, v12, v13, v14, v15,
            ][i % 16],
{
    let entries: [u8; 16] = [v0, v1, v2, v3, v4, v5, v6, v7, v8, v9, v10, v11, v12, v13, v14, v15];
    assert(entries@ =~= seq![
        v0, v1, v2, v3, v4, v5, v6, v7, v8, v9, v10, v11, v12, v13, v14, v15,
    ]);
    let mut lanes: [u8; N] = [0u8; N];
    let mut i: usize = 0;
    while i < N
        invariant
            i <= N,
            forall|j: int| 0 <= j < i ==> #[trigger] lanes@[j] == entries@[j % 16],
        decreases N - i,
    {
        lanes[i] = entries[i % 16];
        i += 1;
    }
    VecT { lanes }
}

/// Moves every lane one place up: lane `i` of the result is lane `i - 1` of the
/// input, and lane 0 is zero.
pub fn v_shift_lanes_left<const N: usize>(input: VecT<N>) -> (v: VecT<N>)
    requires
        supported_width(N as int),
    ensures
        v@.len() == N,
        v@[0] == 0,
        forall|i: int| 1 <= i < N ==> v@[i] == input@[i - 1],
{
    let mut lanes: [u8; N] = [0u8; N];
    let mut i: usize = 1;
    while i < N
        invariant
            1 <= i <= N,
            lanes@[0] == 0,
            forall|j: int| 1 <= j < i ==> lanes@[j] == input@[j - 1],
        decreases N - i,
    {
        lanes[i] = input.lanes[i - 1];
        i += 1;
    }
    VecT { lanes }
}

} // verus!
