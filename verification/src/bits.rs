//! Bit-level facts about masks, used by the tree's child masks.
use vstd::prelude::*;

verus! {

/// Whether bit `i` of `m` is set.
pub open spec fn bit64(m: u64, i: nat) -> bool {
    (m >> i) & 1 == 1
}

/// The number of set bits of `m` strictly below position `n`.
pub open spec fn rank64(m: u64, n: nat) -> nat
    decreases n,
{
    if n == 0 {
        0
    } else {
        rank64(m, (n - 1) as nat) + if bit64(m, (n - 1) as nat) { 1nat } else { 0nat }
    }
}

/// The number of set bits of `m`.
pub open spec fn popcount64(m: u64) -> nat {
    rank64(m, 64)
}

pub proof fn lemma_or_bit(m: u64, i: u64, j: u64)
    requires
        i < 64,
        j < 64,
    ensures
        bit64(m | (1u64 << i), j as nat) == (bit64(m, j as nat) || i == j),
{
    assert(((m | (1u64 << i)) >> j) & 1 == 1 <==> (((m >> j) & 1 == 1) || i == j)) by (bit_vector)
        requires i < 64, j < 64;
}

} // verus!

verus! {

/// The mask whose bit `i` (for `i < n`) tells whether `b[i]` is non-zero.
pub open spec fn nonzero_mask_upto(b: Seq<u8>, n: nat) -> u64
    decreases n,
{
    if n == 0 {
        0
    } else {
        nonzero_mask_upto(b, (n - 1) as nat) | ((if b[n - 1] != 0 { 1u64 } else { 0u64 }) << (n - 1) as u64)
    }
}

pub proof fn lemma_or_shifted_bit(m: u64, v: u64, k: u64, j: u64)
    requires
        k < 64,
        j < 64,
        v <= 1,
    ensures
        bit64(m | (v << k), j as nat) == (bit64(m, j as nat) || (v == 1 && j == k)),
{
    assert((((m | (v << k)) >> j) & 1 == 1) == ((((m >> j) & 1) == 1) || (v == 1 && j == k))) by (bit_vector)
        requires k < 64, j < 64, v <= 1;
}

pub proof fn lemma_nonzero_mask_bits(b: Seq<u8>, n: nat)
    requires
        n <= 64,
        b.len() >= n,
    ensures
        forall|j: nat| j < 64 ==> #[trigger] bit64(nonzero_mask_upto(b, n), j) == (j < n && b[j as int] != 0),
    decreases n,
{
    if n > 0 {
        lemma_nonzero_mask_bits(b, (n - 1) as nat);
        let prev = nonzero_mask_upto(b, (n - 1) as nat);
        let v: u64 = if b[n - 1] != 0 { 1u64 } else { 0u64 };
        assert forall|j: nat| j < 64 implies #[trigger] bit64(nonzero_mask_upto(b, n), j) == (j < n && b[j as int] != 0) by {
            lemma_or_shifted_bit(prev, v, (n - 1) as u64, j as u64);
        }
    } else {
        assert forall|j: nat| j < 64 implies #[trigger] bit64(nonzero_mask_upto(b, n), j) == (j < n && b[j as int] != 0) by {
            let jj = j as u64;
            assert((0u64 >> jj) & 1 != 1) by (bit_vector);
        }
    }
}

/// The elements of `s` at the positions below `n` whose bit is set in `m`, in order.
pub open spec fn packed_upto(s: Seq<u8>, m: u64, n: nat) -> Seq<u8>
    decreases n,
{
    if n == 0 {
        Seq::empty()
    } else {
        let p = packed_upto(s, m, (n - 1) as nat);
        if bit64(m, (n - 1) as nat) { p.push(s[n - 1]) } else { p }
    }
}

pub proof fn lemma_packed_len(s: Seq<u8>, m: u64, n: nat)
    ensures
        packed_upto(s, m, n).len() == rank64(m, n),
    decreases n,
{
    if n > 0 {
        lemma_packed_len(s, m, (n - 1) as nat);
    }
}

/// The element packed for a set bit `b` sits at the rank of `b`.
pub proof fn lemma_packed_index(s: Seq<u8>, m: u64, n: nat, b: nat)
    requires
        b < n,
        bit64(m, b),
    ensures
        rank64(m, b) < packed_upto(s, m, n).len(),
        packed_upto(s, m, n)[rank64(m, b) as int] == s[b as int],
    decreases n,
{
    lemma_packed_len(s, m, n);
    lemma_packed_len(s, m, (n - 1) as nat);
    lemma_rank_monotone(m, b + 1, n);
    if b < n - 1 {
        lemma_packed_index(s, m, (n - 1) as nat, b);
    }
}

pub proof fn lemma_rank_monotone(m: u64, a: nat, b: nat)
    requires
        a <= b,
    ensures
        rank64(m, a) <= rank64(m, b),
    decreases b,
{
    if a < b {
        lemma_rank_monotone(m, a, (b - 1) as nat);
    }
}

} // verus!

verus! {

/// `4^n`.
pub open spec fn pow4(n: nat) -> nat
    decreases n,
{
    if n == 0 {
        1
    } else {
        4 * pow4((n - 1) as nat)
    }
}

/// The number of base-4 digits of `n` (0 for 0).
pub open spec fn digits4(n: nat) -> nat
    decreases n,
{
    if n == 0 {
        0
    } else {
        1 + digits4(n / 4)
    }
}

pub proof fn lemma_pow4_monotone(a: nat, b: nat)
    requires
        a <= b,
    ensures
        1 <= pow4(a) <= pow4(b),
    decreases b,
{
    if a < b {
        lemma_pow4_monotone(a, (b - 1) as nat);
    } else {
        lemma_pow4_positive(a);
    }
}

pub proof fn lemma_pow4_positive(a: nat)
    ensures
        1 <= pow4(a),
    decreases a,
{
    if a > 0 {
        lemma_pow4_positive((a - 1) as nat);
    }
}

pub proof fn lemma_pow4_values()
    ensures
        pow4(1) == 4,
        pow4(10) == 0x10_0000,
        pow4(11) == 0x40_0000,
{
    reveal_with_fuel(pow4, 12);
}

pub proof fn lemma_pow4_shl(v: u32, s: u32)
    requires
        v <= 3,
        s <= 10,
    ensures
        v << ((2 * s) as u32) == v * pow4(s as nat),
    decreases s,
{
    if s == 0 {
        assert(v << 0u32 == v) by (bit_vector);
        assert(((2 * s) as u32) == 0u32);
        assert(pow4(0) == 1);
        assert(v * pow4(s as nat) == v);
    } else {
        lemma_pow4_shl(v, (s - 1) as u32);
        let t: u32 = (2 * (s - 1)) as u32;
        assert(v << ((t + 2) as u32) == (v << t) * 4) by (bit_vector)
            requires v <= 3, t <= 18;
        assert((2 * s) as u32 == (t + 2) as u32);
        assert(v << t == v * pow4((s - 1) as nat));
        assert(pow4(s as nat) == 4 * pow4((s - 1) as nat));
        assert(v * pow4(s as nat) == 4 * (v * pow4((s - 1) as nat))) by (nonlinear_arith)
            requires pow4(s as nat) == 4 * pow4((s - 1) as nat);
        assert(v << ((2 * s) as u32) == (v << t) * 4);
    }
}

/// `x.count_ones()`: the number of ones in the binary form of `x`.
#[verifier::external_body]
pub(crate) fn u64_count_ones(x: u64) -> (r: u32)
    ensures
        r == popcount64(x),
{
    x.count_ones()
}

/// `x.ilog(4)`: the base-4 logarithm of `x` rounded down. It panics on 0.
#[verifier::external_body]
pub(crate) fn u32_ilog4(x: u32) -> (r: u32)
    requires
        x > 0,
    ensures
        pow4(r as nat) <= x < pow4(r as nat + 1),
{
    x.ilog(4)
}

pub proof fn lemma_digits4_of_log(x: nat, r: nat)
    requires
        pow4(r) <= x < pow4(r + 1),
    ensures
        digits4(x) == r + 1,
    decreases r,
{
    if r > 0 {
        assert(pow4((r - 1) as nat) <= x / 4 < pow4(r)) by {
            assert(pow4(r) == 4 * pow4((r - 1) as nat));
            assert(pow4(r + 1) == 4 * pow4(r));
        }
        lemma_digits4_of_log(x / 4, (r - 1) as nat);
    } else {
        assert(pow4(1) == 4);
        assert(x / 4 == 0);
        assert(digits4(0) == 0);
    }
}

} // verus!

verus! {

/// The base-4 logarithm of `x`, rounded down (0 for 0).
pub open spec fn spec_ilog4(x: nat) -> nat
    decreases x,
{
    if x < 4 {
        0
    } else {
        1 + spec_ilog4(x / 4)
    }
}

pub proof fn lemma_ilog4(x: nat)
    requires
        x > 0,
    ensures
        pow4(spec_ilog4(x)) <= x < pow4(spec_ilog4(x) + 1),
    decreases x,
{
    if x >= 4 {
        lemma_ilog4(x / 4);
        let r = spec_ilog4(x / 4);
        assert(pow4(r + 1) == 4 * pow4(r));
        assert(pow4(r + 2) == 4 * pow4(r + 1));
    }
}

} // verus!
