//! Rice/Golomb entropy coding of signed residuals.
//!
//! A signed value is first mapped onto an unsigned one by interleaving
//! positive and negative values (the zigzag map), then split by the Rice
//! parameter `k` into a quotient, written in unary as zero bits terminated by
//! a one bit, and `k` low bits written verbatim.

use vstd::prelude::*;

use crate::bits::{bits_val, low_bits, zero_bits};
use crate::bits::lemma_low_bits_val;
use crate::bitwriter::{bit_cap, BitWriter};

verus! {

/// Largest residual magnitude the cost functions accept.  Fixed-order
/// prediction of samples of at most 33 bits stays well below this.
pub open spec fn residual_mag() -> int {
    0x40_0000_0000
}

/// Largest residual count the cost functions accept.
pub open spec fn residual_count_cap() -> nat {
    0x1_0000
}

/// The zigzag map: non-negative `v` becomes `2v`, negative `v` becomes
/// `-2v - 1`.
pub open spec fn zigzag(v: int) -> nat
    recommends -0x8000_0000_0000_0000 <= v < 0x8000_0000_0000_0000,
{
    if v >= 0 {
        (2 * v) as nat
    } else {
        (-2 * v - 1) as nat
    }
}

/// The inverse of the zigzag map.
pub open spec fn unzigzag(u: nat) -> int {
    if u % 2 == 0 {
        (u / 2) as int
    } else {
        -(((u / 2) + 1) as int)
    }
}

pub open spec fn zigzag64(v: i64) -> u64 {
    zigzag(v as int) as u64
}

/// The bits of one Rice code: quotient in zero-filled unary, then the low
/// `k` bits of the mapped value.
pub open spec fn rice_code_bits(k: nat, u: u64) -> Seq<bool>
    recommends k <= 63,
{
    zero_bits((u >> (k as u64)) as nat) + seq![true] + low_bits(u, k)
}

/// The exact bit length of one Rice code.
pub open spec fn rice_code_len(k: nat, u: u64) -> nat {
    (u >> (k as u64)) as nat + 1 + k
}

/// The exact bit length of a whole residual block under parameter `k`.
pub open spec fn rice_block_len(rs: Seq<i64>, k: nat) -> nat
    decreases rs.len(),
{
    if rs.len() == 0 {
        0
    } else {
        rice_block_len(rs.drop_last(), k) + rice_code_len(k, zigzag64(rs.last()))
    }
}

/// All values of a residual block are small enough for exact cost sums.
pub open spec fn residuals_bounded(rs: Seq<i64>) -> bool {
    forall|i: int| 0 <= i < rs.len() ==> -residual_mag() <= #[trigger] rs[i] <= residual_mag()
}

proof fn lemma_zigzag_mag(v: i64)
    requires -residual_mag() <= v <= residual_mag(),
    ensures zigzag64(v) <= 0x80_0000_0000,
{
}

proof fn lemma_rice_code_len_bound(k: nat, u: u64)
    requires k <= 30, u <= 0x80_0000_0000,
    ensures rice_code_len(k, u) < 0x100_0000_0000,
{
    let kk = k as u64;
    assert(u >> kk <= u) by (bit_vector);
}

proof fn lemma_rice_block_len_bound(rs: Seq<i64>, k: nat)
    requires
        k <= 30,
        residuals_bounded(rs),
    ensures
        rice_block_len(rs, k) <= rs.len() * 0x100_0000_0000,
    decreases rs.len(),
{
    if rs.len() > 0 {
        assert(residuals_bounded(rs.drop_last()));
        lemma_rice_block_len_bound(rs.drop_last(), k);
        lemma_zigzag_mag(rs.last());
        lemma_rice_code_len_bound(k, zigzag64(rs.last()));
        assert((rs.len() - 1) * 0x100_0000_0000 + 0x100_0000_0000 == rs.len() * 0x100_0000_0000)
            by (nonlinear_arith);
    }
}

/// Maps a signed value onto the unsigned zigzag domain.
pub fn zigzag_map(value: i64) -> (r: u64)
    ensures
        r == zigzag64(value),
{
    if value >= 0 {
        (value as u64) * 2
    } else {
        let m = (-(value + 1)) as u64;
        m * 2 + 1
    }
}

/// Rice-encodes one signed value into the bit stream.
pub fn rice(order: usize, value: i64, w: &mut BitWriter)
    requires
        order <= 30,
        old(w).wf(),
        old(w)@.len() + rice_code_len(order as nat, zigzag64(value)) <= bit_cap(),
    ensures
        final(w).wf(),
        final(w)@ == old(w)@ + rice_code_bits(order as nat, zigzag64(value)),
{
    let u = zigzag_map(value);
    let overflow: u64 = u >> (order as u64);
    let ghost total = rice_code_bits(order as nat, zigzag64(value));
    let mut q: u64 = overflow;
    while q >= 64
        invariant
            w.wf(),
            q <= overflow,
            w@ == old(w)@ + zero_bits((overflow - q) as nat),
            old(w)@.len() + rice_code_len(order as nat, u) <= bit_cap(),
            u == zigzag64(value),
            overflow == u >> (order as u64),
            order <= 30,
        decreases q,
    {
        w.put(64, 0);
        proof {
            crate::bits::lemma_low_bits_zero(64);
            assert(zero_bits((overflow - q) as nat) + zero_bits(64)
                =~= zero_bits((overflow - q + 64) as nat));
            assert(old(w)@ + zero_bits((overflow - q) as nat) + zero_bits(64)
                =~= old(w)@ + zero_bits((overflow - q + 64) as nat));
        }
        q = q - 64;
    }
    w.put((q + 1) as usize, 1);
    proof {
        crate::bits::lemma_low_bits_one((q + 1) as nat);
        assert(zero_bits((overflow - q) as nat) + (zero_bits(q as nat) + seq![true])
            =~= zero_bits(overflow as nat) + seq![true]);
        assert(old(w)@ + zero_bits((overflow - q) as nat) + (zero_bits(q as nat) + seq![true])
            =~= old(w)@ + (zero_bits(overflow as nat) + seq![true]));
    }
    w.put(order, u);
    proof {
        assert(old(w)@ + (zero_bits(overflow as nat) + seq![true]) + low_bits(u, order as nat)
            =~= old(w)@ + total);
    }
}

/// The exact number of bits that Rice coding a residual block takes, without
/// performing the write.
pub fn get_rice_encoding_length(residuals: &[i64], order: usize) -> (r: u64)
    requires
        order <= 30,
        residuals@.len() <= residual_count_cap(),
        residuals_bounded(residuals@),
    ensures
        r == rice_block_len(residuals@, order as nat),
{
    let n = residuals.len();
    let mut total: u64 = 0;
    let mut i: usize = 0;
    while i < n
        invariant
            i <= n,
            n == residuals@.len() <= residual_count_cap(),
            order <= 30,
            residuals_bounded(residuals@),
            total == rice_block_len(residuals@.take(i as int), order as nat),
            total <= i * 0x100_0000_0000,
        decreases n - i,
    {
        let v = *vstd::slice::slice_index_get(residuals, i);
        let u = zigzag_map(v);
        proof {
            lemma_zigzag_mag(v);
            lemma_rice_code_len_bound(order as nat, u);
            assert(i * 0x100_0000_0000 + 0x100_0000_0000 == (i + 1) * 0x100_0000_0000)
                by (nonlinear_arith);
            assert((i + 1) * 0x100_0000_0000 <= 0x1_0000 * 0x100_0000_0000) by (nonlinear_arith)
                requires i + 1 <= 0x1_0000;
        }
        let term = (u >> (order as u64)) + 1 + (order as u64);
        total = total + term;
        proof {
            assert(residuals@.take(i + 1).drop_last() =~= residuals@.take(i as int));
            assert(residuals@.take(i + 1).last() == v);
        }
        i = i + 1;
    }
    proof {
        assert(residuals@.take(n as int) =~= residuals@);
    }
    total
}

/// The smallest Rice parameter representable in the four-bit residual
/// header field that minimises the block's encoded length.
pub open spec fn rice_opt_param_upto(rs: Seq<i64>, n: nat) -> nat
    decreases n,
{
    if n <= 1 {
        0
    } else {
        let b = rice_opt_param_upto(rs, (n - 1) as nat);
        if rice_block_len(rs, (n - 1) as nat) < rice_block_len(rs, b) {
            (n - 1) as nat
        } else {
            b
        }
    }
}

pub open spec fn rice_opt_param(rs: Seq<i64>) -> nat {
    rice_opt_param_upto(rs, 15)
}

proof fn lemma_rice_opt_param_upto(rs: Seq<i64>, n: nat)
    requires 1 <= n,
    ensures
        rice_opt_param_upto(rs, n) < n,
        forall|k: nat| k < n ==> rice_block_len(rs, rice_opt_param_upto(rs, n))
            <= #[trigger] rice_block_len(rs, k),
    decreases n,
{
    if n > 1 {
        lemma_rice_opt_param_upto(rs, (n - 1) as nat);
    }
}

/// Finds the cheapest Rice parameter for a residual block; ties go to the
/// smaller parameter, and the result never costs more than parameter zero.
pub fn find_optimum_rice_param(residuals: &[i64]) -> (r: usize)
    requires
        residuals@.len() <= residual_count_cap(),
        residuals_bounded(residuals@),
    ensures
        r == rice_opt_param(residuals@),
        r <= 14,
        forall|k: nat| k <= 14 ==> rice_block_len(residuals@, r as nat)
            <= #[trigger] rice_block_len(residuals@, k),
        rice_block_len(residuals@, r as nat) <= rice_block_len(residuals@, 0),
{
    let mut best: usize = 0;
    let mut best_len: u64 = get_rice_encoding_length(residuals, 0);
    let mut k: usize = 1;
    while k < 15
        invariant
            1 <= k <= 15,
            best == rice_opt_param_upto(residuals@, k as nat),
            best <= 14,
            best_len == rice_block_len(residuals@, best as nat),
            residuals@.len() <= residual_count_cap(),
            residuals_bounded(residuals@),
        decreases 15 - k,
    {
        let len = get_rice_encoding_length(residuals, k);
        if len < best_len {
            best = k;
            best_len = len;
        }
        k = k + 1;
    }
    proof {
        lemma_rice_opt_param_upto(residuals@, 15);
    }
    best
}

/// A Rice coder with a fixed parameter.
pub struct RiceEncoder {
    order: usize,
}

impl RiceEncoder {
    pub closed spec fn spec_order(&self) -> nat {
        self.order as nat
    }

    pub fn new(order: usize) -> (r: RiceEncoder)
        ensures r.spec_order() == order,
    {
        RiceEncoder { order }
    }

    /// Rice-encodes one value with this coder's parameter.
    pub fn rice(&self, value: i64, w: &mut BitWriter)
        requires
            self.spec_order() <= 30,
            old(w).wf(),
            old(w)@.len() + rice_code_len(self.spec_order(), zigzag64(value)) <= bit_cap(),
        ensures
            final(w).wf(),
            final(w)@ == old(w)@ + rice_code_bits(self.spec_order(), zigzag64(value)),
    {
        rice(self.order, value, w)
    }
}

/// The position of the first set bit.
pub open spec fn first_one(s: Seq<bool>) -> nat
    decreases s.len(),
{
    if s.len() == 0 {
        0
    } else if s[0] {
        0
    } else {
        1 + first_one(s.drop_first())
    }
}

/// The value read back from the front of a bit stream by a Rice decoder
/// with parameter `k`: quotient from the unary run, then `k` binary bits.
pub open spec fn rice_decode(s: Seq<bool>, k: nat) -> int {
    let q = first_one(s);
    unzigzag(q * vstd::arithmetic::power2::pow2(k) + bits_val(s.subrange(q as int + 1, q as int + 1 + k as int)))
}

proof fn lemma_first_one_of_code(q: nat, rest: Seq<bool>)
    ensures first_one(zero_bits(q) + seq![true] + rest) == q,
    decreases q,
{
    let s = zero_bits(q) + seq![true] + rest;
    if q == 0 {
        assert(s[0]);
    } else {
        assert(!s[0]);
        assert(s.drop_first() =~= zero_bits((q - 1) as nat) + seq![true] + rest);
        lemma_first_one_of_code((q - 1) as nat, rest);
    }
}

/// The zigzag map loses nothing.
pub proof fn lemma_zigzag_round_trip(v: i64)
    ensures unzigzag(zigzag(v as int)) == v as int,
{
}

/// Rice round trip: decoding the bits of a Rice code with the same
/// parameter recovers the signed value exactly.
pub proof fn lemma_rice_round_trip(k: nat, v: i64)
    requires k <= 30,
    ensures rice_decode(rice_code_bits(k, zigzag64(v)), k) == v as int,
{
    let u = zigzag64(v);
    let q = (u >> (k as u64)) as nat;
    let s = rice_code_bits(k, u);
    lemma_first_one_of_code(q, low_bits(u, k));
    assert(s.subrange(q as int + 1, q as int + 1 + k as int) =~= low_bits(u, k));
    lemma_low_bits_val(u, k);
    vstd::bits::lemma_u64_shr_is_div(u, k as u64);
    let p = vstd::arithmetic::power2::pow2(k);
    vstd::arithmetic::power2::lemma_pow2_pos(k);
    assert(q * p + (u as nat) % p == u as nat) by (nonlinear_arith)
        requires p > 0 && q == (u as nat) / p;
    lemma_zigzag_round_trip(v);
}

/// A numeric roof on the cost of a bounded residual block.
pub proof fn lemma_rice_block_len_cap(rs: Seq<i64>, k: nat)
    requires
        k <= 30,
        rs.len() <= residual_count_cap(),
        residuals_bounded(rs),
    ensures
        rice_block_len(rs, k) <= 0x100_0000_0000_0000,
{
    lemma_rice_block_len_bound(rs, k);
    assert(rs.len() * 0x100_0000_0000 <= 0x1_0000 * 0x100_0000_0000) by (nonlinear_arith)
        requires rs.len() <= 0x1_0000;
}

/// The bits of a whole Rice-coded residual stream.
pub open spec fn rice_stream_bits(rs: Seq<i64>, k: nat) -> Seq<bool>
    recommends k <= 63,
    decreases rs.len(),
{
    if rs.len() == 0 {
        Seq::empty()
    } else {
        rice_stream_bits(rs.drop_last(), k) + rice_code_bits(k, zigzag64(rs.last()))
    }
}

pub proof fn lemma_rice_stream_bits_len(rs: Seq<i64>, k: nat)
    requires k <= 63,
    ensures rice_stream_bits(rs, k).len() == rice_block_len(rs, k),
    decreases rs.len(),
{
    if rs.len() > 0 {
        lemma_rice_stream_bits_len(rs.drop_last(), k);
    }
}

pub proof fn lemma_rice_stream_bits_push(rs: Seq<i64>, k: nat, v: i64)
    ensures rice_stream_bits(rs.push(v), k)
        == rice_stream_bits(rs, k) + rice_code_bits(k, zigzag64(v)),
{
    assert(rs.push(v).drop_last() =~= rs);
    assert(rs.push(v).last() == v);
}

pub proof fn lemma_rice_block_len_concat(a: Seq<i64>, b: Seq<i64>, k: nat)
    ensures rice_block_len(a + b, k) == rice_block_len(a, k) + rice_block_len(b, k),
    decreases b.len(),
{
    if b.len() == 0 {
        assert(a + b =~= a);
    } else {
        assert((a + b).drop_last() =~= a + b.drop_last());
        lemma_rice_block_len_concat(a, b.drop_last(), k);
    }
}

} // verus!
