//! Fixed-order prediction and stereo decorrelation.
//!
//! The residual of order `k` is the `k`-th forward difference of the sample
//! sequence; the first `k` raw samples are kept as warm-up values.  For
//! two-channel blocks a mid channel (the floored average) and a side channel
//! (the difference, in the widened domain) are derived sample-wise.

use vstd::prelude::*;

use vstd::arithmetic::power2::pow2;

use crate::frame::{sample_vals, ChannelLayout, Frame, Sample, SampleVal, Subblock, Subframe};
use crate::headers::{BlockSize, MetadataBlockStreamInfo};
use crate::rice::{residual_mag, residuals_bounded};

verus! {

/// Largest sample magnitude the residual predictor accepts; four rounds of
/// differencing then stay within the residual bound of the Rice coder.
pub open spec fn sample_mag() -> int {
    0x4_0000_0000
}

/// The numeric values of a block of machine integers.
pub open spec fn int_seq(s: Seq<i64>) -> Seq<int> {
    Seq::new(s.len(), |i: int| s[i] as int)
}

/// All values lie within `[-b, b]`.
pub open spec fn vals_bounded(s: Seq<int>, b: int) -> bool {
    forall|i: int| 0 <= i < s.len() ==> -b <= #[trigger] s[i] <= b
}

/// The forward difference sequence.
pub open spec fn diffs(s: Seq<int>) -> Seq<int> {
    if s.len() == 0 {
        Seq::empty()
    } else {
        Seq::new((s.len() - 1) as nat, |i: int| s[i + 1] - s[i])
    }
}

/// The `k`-th forward difference sequence.
pub open spec fn nth_diffs(s: Seq<int>, k: nat) -> Seq<int>
    recommends k <= s.len(),
    decreases k,
{
    if k == 0 {
        s
    } else {
        nth_diffs(diffs(s), (k - 1) as nat)
    }
}

/// The order-zero residual is the input sequence unchanged.
pub proof fn lemma_order_zero_identity(s: Seq<int>)
    ensures nth_diffs(s, 0) == s,
{
}

pub proof fn lemma_nth_diffs_len(s: Seq<int>, k: nat)
    requires k <= s.len(),
    ensures nth_diffs(s, k).len() == s.len() - k,
    decreases k,
{
    if k > 0 {
        lemma_nth_diffs_len(diffs(s), (k - 1) as nat);
    }
}

proof fn lemma_diff_at(s: Seq<int>, lo: int, hi: int, i: int)
    requires
        lo <= hi,
        forall|t: int| 0 <= t < s.len() ==> lo <= #[trigger] s[t] <= hi,
        0 <= i < diffs(s).len(),
    ensures
        -(hi - lo) <= diffs(s)[i] <= hi - lo,
{
    assert(lo <= s[i] <= hi);
    assert(lo <= s[i + 1] <= hi);
}

proof fn lemma_diffs_range(s: Seq<int>, lo: int, hi: int)
    requires
        lo <= hi,
        forall|i: int| 0 <= i < s.len() ==> lo <= #[trigger] s[i] <= hi,
    ensures
        forall|i: int| 0 <= i < diffs(s).len() ==> -(hi - lo) <= #[trigger] diffs(s)[i] <= hi - lo,
{
    assert forall|i: int| 0 <= i < diffs(s).len() implies
        -(hi - lo) <= #[trigger] diffs(s)[i] <= hi - lo
    by {
        lemma_diff_at(s, lo, hi, i);
    }
}

/// After `k >= 1` rounds of differencing of values from `[lo, hi]`, every
/// residual has magnitude at most `2^(k-1) * (hi - lo)`.
pub proof fn lemma_nth_diffs_range(s: Seq<int>, k: nat, lo: int, hi: int)
    requires
        1 <= k,
        lo <= hi,
        forall|i: int| 0 <= i < s.len() ==> lo <= #[trigger] s[i] <= hi,
    ensures
        forall|i: int| 0 <= i < nth_diffs(s, k).len() ==>
            -(pow2((k - 1) as nat) as int * (hi - lo)) <= #[trigger] nth_diffs(s, k)[i]
                <= pow2((k - 1) as nat) as int * (hi - lo),
    decreases k,
{
    vstd::arithmetic::power2::lemma2_to64();
    lemma_diffs_range(s, lo, hi);
    let w = hi - lo;
    if k == 1 {
        assert(nth_diffs(s, 1) == nth_diffs(diffs(s), 0));
        assert(nth_diffs(diffs(s), 0) == diffs(s));
        assert forall|i: int| 0 <= i < nth_diffs(s, k).len() implies
            -(pow2((k - 1) as nat) as int * w) <= #[trigger] nth_diffs(s, k)[i]
                <= pow2((k - 1) as nat) as int * w
        by {
            assert(nth_diffs(s, k)[i] == diffs(s)[i]);
            lemma_diff_at(s, lo, hi, i);
            let p0 = pow2((k - 1) as nat) as int;
            assert(p0 == 1) by {
                vstd::arithmetic::power2::lemma2_to64();
            }
            assert(p0 * w == w) by (nonlinear_arith)
                requires p0 == 1,
            ;
        }
    } else {
        lemma_nth_diffs_range(diffs(s), (k - 1) as nat, -w, w);
        vstd::arithmetic::power2::lemma_pow2_unfold((k - 1) as nat);
        assert(nth_diffs(s, k) == nth_diffs(diffs(s), (k - 1) as nat));
        assert forall|i: int| 0 <= i < nth_diffs(s, k).len() implies
            -(pow2((k - 1) as nat) as int * w) <= #[trigger] nth_diffs(s, k)[i]
                <= pow2((k - 1) as nat) as int * w
        by {
            assert(-(pow2((k - 2) as nat) as int * (w - (-w)))
                <= nth_diffs(diffs(s), (k - 1) as nat)[i]
                <= pow2((k - 2) as nat) as int * (w - (-w)));
            assert(pow2((k - 2) as nat) as int * (w - (-w)) == pow2((k - 1) as nat) as int * w)
                by (nonlinear_arith)
                requires pow2((k - 1) as nat) == 2 * pow2((k - 2) as nat) && w == hi - lo,
            ;
        }
    }
}

/// The residuals of order `k` over samples drawn from `[-b, b - 1]` lie
/// strictly within `(-2^k * b, 2^k * b)`: differencing at most doubles the
/// dynamic range per order.
pub proof fn lemma_residual_amplification(s: Seq<int>, k: nat, b: int)
    requires
        1 <= k,
        1 <= b,
        forall|i: int| 0 <= i < s.len() ==> -b <= #[trigger] s[i] <= b - 1,
    ensures
        forall|i: int| 0 <= i < nth_diffs(s, k).len() ==>
            -(pow2(k) as int * b) < #[trigger] nth_diffs(s, k)[i] < pow2(k) as int * b,
{
    lemma_nth_diffs_range(s, k, -b, b - 1);
    vstd::arithmetic::power2::lemma_pow2_unfold(k);
    let p = pow2((k - 1) as nat) as int;
    vstd::arithmetic::power2::lemma_pow2_pos((k - 1) as nat);
    assert(p * (2 * b - 1) < (2 * p) * b) by (nonlinear_arith)
        requires p >= 1 && b >= 1;
}

/// Produces the residual stream for one subblock and one predictor order.
pub struct FixedResidual {
    values: Vec<i64>,
    pos: usize,
}

impl View for FixedResidual {
    type V = Seq<i64>;

    /// The residuals not yet handed out.
    closed spec fn view(&self) -> Seq<i64> {
        self.values@.skip(self.pos as int)
    }
}

impl FixedResidual {
    #[verifier::type_invariant]
    spec fn inv(self) -> bool {
        self.pos <= self.values@.len()
    }

    /// Computes the order-`order` residual stream of a subblock: one round of
    /// pairwise differencing per order, each round O(n).
    pub fn new<S: SampleVal>(subblock: &[S], order: usize) -> (r: FixedResidual)
        requires
            order <= 4,
            order <= subblock@.len(),
            vals_bounded(sample_vals(subblock@), sample_mag()),
        ensures
            int_seq(r@) == nth_diffs(sample_vals(subblock@), order as nat),
            r@.len() == subblock@.len() - order,
            residuals_bounded(r@),
    {
        proof {
            vstd::arithmetic::power2::lemma2_to64();
        }
        let n = subblock.len();
        let mut values: Vec<i64> = Vec::new();
        let mut i: usize = 0;
        while i < n
            invariant
                i <= n,
                n == subblock@.len(),
                vals_bounded(sample_vals(subblock@), sample_mag()),
                values@.len() == i,
                int_seq(values@) == sample_vals(subblock@).take(i as int),
            decreases n - i,
        {
            let v = vstd::slice::slice_index_get(subblock, i).to_i64();
            values.push(v);
            proof {
                assert(int_seq(values@) =~= sample_vals(subblock@).take(i + 1));
            }
            i = i + 1;
        }
        proof {
            assert(sample_vals(subblock@).take(n as int) =~= sample_vals(subblock@));
        }
        let ghost samples = sample_vals(subblock@);
        let mut level: usize = 0;
        while level < order
            invariant
                level <= order,
                order <= 4,
                order <= samples.len(),
                samples == sample_vals(subblock@),
                int_seq(values@) == nth_diffs(samples, level as nat),
                values@.len() == samples.len() - level,
                vals_bounded(int_seq(values@), pow2(level as nat) as int * sample_mag()),
            decreases order - level,
        {
            proof {
                vstd::arithmetic::power2::lemma2_to64();
            }
            let ghost orig = values@;
            let ghost bound = pow2(level as nat) as int * sample_mag();
            let len = values.len();
            let mut j: usize = 0;
            while j + 1 < len
                invariant
                    len == values@.len(),
                    len == orig.len(),
                    j + 1 <= len || j == 0,
                    vals_bounded(int_seq(orig), bound),
                    bound <= pow2(4) as int * sample_mag(),
                    forall|t: int| 0 <= t < j ==> values@[t] as int
                        == #[trigger] (orig[t + 1] as int) - orig[t] as int,
                    forall|t: int| j <= t < len ==> values@[t] == #[trigger] orig[t],
                decreases len - j,
            {
                proof {
                    vstd::arithmetic::power2::lemma2_to64();
                    assert(-bound <= int_seq(orig)[j as int] <= bound);
                    assert(-bound <= int_seq(orig)[j + 1] <= bound);
                    assert(values@[j as int] == orig[j as int]);
                    assert(values@[j + 1] == orig[j + 1]);
                }
                let d = values[j + 1] - values[j];
                values.set(j, d);
                j = j + 1;
            }
            if len > 0 {
                values.pop();
            }
            proof {
                vstd::arithmetic::power2::lemma2_to64();
                assert(int_seq(values@) =~= diffs(int_seq(orig)));
                lemma_nth_diffs_commute(samples, level as nat);
                assert(nth_diffs(samples, (level + 1) as nat)
                    == nth_diffs(diffs(samples), level as nat));
                assert(diffs(nth_diffs(samples, level as nat))
                    == nth_diffs(samples, (level + 1) as nat));
                vstd::arithmetic::power2::lemma_pow2_unfold((level + 1) as nat);
                assert forall|t: int| 0 <= t < values@.len() implies
                    -(pow2((level + 1) as nat) as int * sample_mag())
                        <= #[trigger] int_seq(values@)[t]
                        <= pow2((level + 1) as nat) as int * sample_mag()
                by {
                    assert(int_seq(values@)[t] == orig[t + 1] as int - orig[t] as int);
                    assert(-bound <= int_seq(orig)[t + 1] <= bound);
                    assert(-bound <= int_seq(orig)[t] <= bound);
                    assert(pow2((level + 1) as nat) as int * sample_mag() == 2 * bound)
                        by (nonlinear_arith)
                        requires
                            pow2((level + 1) as nat) == 2 * pow2(level as nat)
                                && bound == pow2(level as nat) as int * sample_mag(),
                    ;
                }
            }
            level = level + 1;
        }
        let r = FixedResidual { values, pos: 0 };
        proof {
            assert(r@ =~= r.values@);
            assert(pow2(4) == 16) by {
                vstd::arithmetic::power2::lemma2_to64();
            }
            assert forall|t: int| 0 <= t < r@.len() implies
                -residual_mag() <= #[trigger] r@[t] <= residual_mag()
            by {
                assert(int_seq(r@)[t] == r@[t] as int);
                assert(pow2(order as nat) as int * sample_mag() <= 16 * sample_mag())
                    by (nonlinear_arith)
                    requires pow2(order as nat) <= 16;
            }
        }
        r
    }

    /// Hands out the next residual, if any is left.
    pub fn next(&mut self) -> (r: Option<i64>)
        ensures
            match r {
                Some(v) => old(self)@.len() > 0 && v == old(self)@[0]
                    && final(self)@ == old(self)@.drop_first(),
                None => old(self)@.len() == 0 && final(self)@ == old(self)@,
            },
    {
        proof {
            use_type_invariant(&*self);
        }
        if self.pos < self.values.len() {
            let v = self.values[self.pos];
            self.pos = self.pos + 1;
            proof {
                assert(self@ =~= old(self)@.drop_first());
            }
            Some(v)
        } else {
            proof {
                assert(old(self)@ =~= Seq::<i64>::empty());
            }
            None
        }
    }

    /// All residuals that have not been handed out yet, in order.
    pub fn into_vec(self) -> (r: Vec<i64>)
        ensures r@ == self@,
    {
        proof {
            use_type_invariant(&self);
        }
        let FixedResidual { values, pos } = self;
        let mut out: Vec<i64> = Vec::new();
        let mut i: usize = pos;
        while i < values.len()
            invariant
                pos <= i <= values@.len(),
                out@ == values@.subrange(pos as int, i as int),
            decreases values@.len() - i,
        {
            out.push(values[i]);
            proof {
                assert(out@ =~= values@.subrange(pos as int, i + 1));
            }
            i = i + 1;
        }
        proof {
            assert(out@ =~= values@.skip(pos as int));
        }
        out
    }
}

proof fn lemma_nth_diffs_commute(s: Seq<int>, k: nat)
    ensures diffs(nth_diffs(s, k)) == nth_diffs(diffs(s), k),
    decreases k,
{
    if k > 0 {
        lemma_nth_diffs_commute(diffs(s), (k - 1) as nat);
    }
}

/// Mid/side reconstruction: the floored average and the difference together
/// determine both channels exactly.
pub proof fn lemma_mid_side_reconstruction(l: int, r: int)
    ensures
        (l + r) / 2 - (l - r) / 2 == r,
        ((l + r) / 2 - (l - r) / 2) + (l - r) == l,
{
    let s = l + r;
    let d = l - r;
    assert(s % 2 == d % 2) by {
        assert(s - d == 2 * r);
    }
    assert(s == 2 * (s / 2) + s % 2);
    assert(d == 2 * (d / 2) + d % 2);
}

/// The floored average of the two channels, computed in the widened domain
/// and narrowed back, which always succeeds.
pub fn calculate_mid<S: Sample>(left: S, right: S) -> (r: S)
    ensures
        r.spec_val() == (left.spec_val() + right.spec_val()) / 2,
{
    proof {
        left.lemma_val_range();
        right.lemma_val_range();
        lemma_widened_headroom::<S>();
    }
    let wl = left.widen();
    let wr = right.widen();
    let sum = wl.plus(wr);
    let m = sum.asr1();
    let opt = S::try_from_widened(m);
    proof {
        let lv = left.spec_val() as int;
        let rv = right.spec_val() as int;
        let b = pow2((<S as SampleVal>::spec_bits() - 1) as nat) as int;
        assert(-b <= (lv + rv) / 2 < b);
    }
    opt.unwrap()
}

/// The widened difference `left - right`.
pub fn calculate_side<S: Sample>(left: S, right: S) -> (r: S::Widened)
    ensures
        r.spec_val() == left.spec_val() - right.spec_val(),
{
    proof {
        left.lemma_val_range();
        right.lemma_val_range();
        lemma_widened_headroom::<S>();
    }
    let wl = left.widen();
    let wr = right.widen();
    wl.minus(wr)
}

/// The widened type has at least one extra bit of range: the sum or
/// difference of any two sample values fits it.
proof fn lemma_widened_headroom<S: Sample>()
    ensures
        8 <= <S as SampleVal>::spec_bits() <= 64,
        8 <= <S::Widened as SampleVal>::spec_bits() <= 64,
        pow2((<S::Widened as SampleVal>::spec_bits() - 1) as nat)
            >= 2 * pow2((<S as SampleVal>::spec_bits() - 1) as nat),
{
    S::lemma_bits_range();
    <S::Widened as SampleVal>::lemma_bits_range();
    S::lemma_widened_wider();
    let b = <S as SampleVal>::spec_bits() as nat;
    let wb = <S::Widened as SampleVal>::spec_bits() as nat;
    vstd::arithmetic::power2::lemma_pow2_unfold(b);
    if b < (wb - 1) as nat {
        vstd::arithmetic::power2::lemma_pow2_strictly_increases(b, (wb - 1) as nat);
    }
}

/// Derives the mid (floored average) and side (widened difference)
/// subblocks of a stereo pair, sample-wise.
pub fn to_mid_side<S: Sample>(left: &Subblock<S>, right: &Subblock<S>)
    -> (r: (Subblock<S>, Subblock<S::Widened>))
    requires
        left.data@.len() == right.data@.len(),
    ensures
        r.0.data@.len() == left.data@.len(),
        r.1.data@.len() == left.data@.len(),
        forall|i: int| 0 <= i < left.data@.len() ==> #[trigger] r.0.data@[i].spec_val()
            == (left.data@[i].spec_val() + right.data@[i].spec_val()) / 2,
        forall|i: int| 0 <= i < left.data@.len() ==> #[trigger] r.1.data@[i].spec_val()
            == left.data@[i].spec_val() - right.data@[i].spec_val(),
{
    let n = left.data.len();
    let mut mid_vec: Vec<S> = Vec::new();
    let mut side_vec: Vec<S::Widened> = Vec::new();
    let mut i: usize = 0;
    while i < n
        invariant
            i <= n,
            n == left.data@.len() == right.data@.len(),
            mid_vec@.len() == i,
            side_vec@.len() == i,
            forall|t: int| 0 <= t < i ==> #[trigger] mid_vec@[t].spec_val()
                == (left.data@[t].spec_val() + right.data@[t].spec_val()) / 2,
            forall|t: int| 0 <= t < i ==> #[trigger] side_vec@[t].spec_val()
                == left.data@[t].spec_val() - right.data@[t].spec_val(),
        decreases n - i,
    {
        let l = left.data[i];
        let r = right.data[i];
        mid_vec.push(calculate_mid(l, r));
        side_vec.push(calculate_side(l, r));
        i = i + 1;
    }
    (Subblock { data: mid_vec }, Subblock { data: side_vec })
}

/// One block of samples across all channels.  A two-channel block also
/// carries the derived mid and side subblocks.
pub enum Block<S: Sample> {
    Stereo {
        left: Subblock<S>,
        right: Subblock<S>,
        mid: Subblock<S>,
        side: Subblock<S::Widened>,
    },
    Other {
        channels: Vec<Subblock<S>>,
    },
}

impl<S: Sample> Block<S> {
    pub open spec fn wf(self) -> bool {
        match self {
            Block::Stereo { left, right, mid, side } => {
                &&& left.data@.len() == right.data@.len()
                &&& mid.data@.len() == left.data@.len()
                &&& side.data@.len() == left.data@.len()
                &&& forall|i: int| 0 <= i < left.data@.len() ==> #[trigger] mid.data@[i].spec_val()
                    == (left.data@[i].spec_val() + right.data@[i].spec_val()) / 2
                &&& forall|i: int| 0 <= i < left.data@.len() ==> #[trigger] side.data@[i].spec_val()
                    == left.data@[i].spec_val() - right.data@[i].spec_val()
            }
            Block::Other { channels } => {
                &&& 1 <= channels@.len() <= 8
                &&& forall|i: int| 0 <= i < channels@.len()
                    ==> #[trigger] channels@[i].data@.len() == channels@[0].data@.len()
            }
        }
    }

    /// The number of samples per channel.
    pub open spec fn spec_len(self) -> nat {
        match self {
            Block::Stereo { left, .. } => left.data@.len(),
            Block::Other { channels } => channels@[0].data@.len(),
        }
    }

    /// All channels carry values of magnitude at most `b`.
    pub open spec fn vals_within(self, b: int) -> bool {
        match self {
            Block::Stereo { left, right, .. } =>
                vals_bounded(sample_vals(left.data@), b) && vals_bounded(sample_vals(right.data@), b),
            Block::Other { channels } => forall|i: int| 0 <= i < channels@.len()
                ==> vals_bounded(#[trigger] sample_vals(channels@[i].data@), b),
        }
    }

    pub fn len(&self) -> (r: usize)
        requires self.wf(),
        ensures r == self.spec_len(),
    {
        match self {
            Block::Stereo { left, .. } => left.len(),
            Block::Other { channels } => channels[0].len(),
        }
    }

    /// Groups per-channel subblocks into a block; a two-channel input gets
    /// its mid and side subblocks derived here.
    pub fn from_input(channels: Vec<Subblock<S>>) -> (r: Block<S>)
        requires
            1 <= channels@.len() <= 8,
            forall|i: int| 0 <= i < channels@.len()
                ==> #[trigger] channels@[i].data@.len() == channels@[0].data@.len(),
        ensures
            r.wf(),
            r.spec_len() == channels@[0].data@.len(),
            channels@.len() == 2 ==> (r matches Block::Stereo { left, right, .. }
                && left == channels@[0] && right == channels@[1]),
            channels@.len() != 2 ==> (r matches Block::Other { channels: cs }
                && cs@ == channels@),
    {
        if channels.len() == 2 {
            let mut channels = channels;
            let ghost orig = channels@;
            let right = channels.pop().unwrap();
            let left = channels.pop().unwrap();
            proof {
                assert(left == orig[0]);
                assert(right == orig[1]);
            }
            let (mid, side) = to_mid_side(&left, &right);
            Block::Stereo { left, right, mid, side }
        } else {
            Block::Other { channels }
        }
    }
}

/// The layout that the cost comparison of the four stereo candidates
/// selects, with ties resolved in the fixed preference order.
pub open spec fn is_stereo_choice<S: Sample>(
    left_subframe: Subframe<S>,
    right_subframe: Subframe<S>,
    mid_subframe: Subframe<S>,
    side_subframe: Subframe<S::Widened>,
    allow_side: bool,
    r: ChannelLayout<S>,
) -> bool {
    let ci = left_subframe.spec_byte_len() + right_subframe.spec_byte_len();
    let cms = mid_subframe.spec_byte_len() + side_subframe.spec_byte_len();
    let cls = left_subframe.spec_byte_len() + side_subframe.spec_byte_len();
    let csr = side_subframe.spec_byte_len() + right_subframe.spec_byte_len();
    if !allow_side || (ci <= cms && ci <= cls && ci <= csr) {
        r matches ChannelLayout::Independent { channels }
            && channels@ == seq![left_subframe, right_subframe]
    } else if cms <= cls && cms <= csr {
        r == (ChannelLayout::MidSide { mid: mid_subframe, side: side_subframe })
    } else if cls <= csr {
        r == (ChannelLayout::LeftSide { left: left_subframe, side: side_subframe })
    } else {
        r == (ChannelLayout::SideRight { side: side_subframe, right: right_subframe })
    }
}

/// Chooses the cheapest stereo channel assignment by summed subframe
/// length; ties prefer Independent, then MidSide, then LeftSide, then
/// SideRight.  Side-carrying assignments are considered only when the
/// side-channel gate is enabled.
pub fn choose_stereo_layout<S: Sample>(
    left_subframe: Subframe<S>,
    right_subframe: Subframe<S>,
    mid_subframe: Subframe<S>,
    side_subframe: Subframe<S::Widened>,
    allow_side: bool,
) -> (r: ChannelLayout<S>)
    requires
        left_subframe.wf(),
        right_subframe.wf(),
        mid_subframe.wf(),
        side_subframe.wf(),
    ensures
        r.wf(),
        is_stereo_choice(left_subframe, right_subframe, mid_subframe, side_subframe, allow_side, r),
        r.spec_bit_len() <= 8 * (left_subframe.spec_byte_len() + right_subframe.spec_byte_len()),
{
    proof {
        lemma_byte_len_bounds::<S>(left_subframe);
        lemma_byte_len_bounds::<S>(right_subframe);
        lemma_byte_len_bounds::<S>(mid_subframe);
        lemma_byte_len_bounds::<S::Widened>(side_subframe);
        let two = seq![left_subframe, right_subframe];
        assert(crate::frame::subframes_seq_bit_len(Seq::<Subframe<S>>::empty()) == 0);
        assert(seq![left_subframe].drop_last() =~= Seq::<Subframe<S>>::empty());
        assert(crate::frame::subframes_seq_bit_len(seq![left_subframe])
            == left_subframe.spec_bit_len());
        assert(two.drop_last() =~= seq![left_subframe]);
        assert(crate::frame::subframes_seq_bit_len(two)
            == left_subframe.spec_bit_len() + right_subframe.spec_bit_len());
    }
    let cl = left_subframe.byte_cost();
    let cr = right_subframe.byte_cost();
    let cm = mid_subframe.byte_cost();
    let cs = side_subframe.byte_cost();
    let ci = cl + cr;
    let cms = cm + cs;
    let cls = cl + cs;
    let csr = cs + cr;
    if !allow_side || (ci <= cms && ci <= cls && ci <= csr) {
        let mut channels: Vec<Subframe<S>> = Vec::new();
        channels.push(left_subframe);
        channels.push(right_subframe);
        proof {
            assert(channels@ =~= seq![left_subframe, right_subframe]);
        }
        ChannelLayout::Independent { channels }
    } else if cms <= cls && cms <= csr {
        ChannelLayout::MidSide { mid: mid_subframe, side: side_subframe }
    } else if cls <= csr {
        ChannelLayout::LeftSide { left: left_subframe, side: side_subframe }
    } else {
        ChannelLayout::SideRight { side: side_subframe, right: right_subframe }
    }
}

/// A subframe's bit length is at most eight times its byte length.
proof fn lemma_byte_len_bounds<S: SampleVal>(sf: Subframe<S>)
    ensures sf.spec_bit_len() <= 8 * sf.spec_byte_len(),
{
}

/// Chooses the representation of one subblock.
pub fn encode_subframe<S: SampleVal>(subblock: &Subblock<S>) -> (r: Subframe<S>)
    requires
        4 <= subblock.data@.len() <= 0x1_0000,
        vals_bounded(sample_vals(subblock.data@), sample_mag()),
    ensures
        r.wf(),
        crate::frame::is_selected_subframe(subblock.data@, r),
        r.spec_byte_len() <= crate::frame::spec_verbatim_cost(subblock.data@),
{
    Subframe::from_subblock(subblock)
}

impl<S: Sample> Block<S> {
    /// Encodes one block into a frame: each channel becomes its cheapest
    /// subframe, and a two-channel block additionally weighs the four
    /// stereo assignments when the side-channel gate is enabled.  Only
    /// 16-bit streams with block sizes from 16 to 65535 are encodable.
    pub fn encode(
        &self,
        stream_info: &MetadataBlockStreamInfo,
        first_sample: u64,
        allow_side: bool,
    ) -> (r: Option<Frame<S>>)
        requires
            self.wf(),
            self.vals_within(0x2_0000_0000),
            first_sample / (stream_info.min_block_size.spec_inner() as u64) < 0x10_0000_0000,
        ensures
            r.is_some() <==> (stream_info.bits_per_sample.spec_inner() == 16
                && 16 <= self.spec_len() <= 65535),
            r matches Some(f) ==> {
                &&& f.wf()
                &&& f.spec_header().spec_block_size() == self.spec_len()
                &&& f.spec_header().spec_sample_rate() == stream_info.sample_rate.spec_inner()
                &&& f.spec_header().spec_bits_per_sample() == 16
                &&& f.spec_header().spec_block_id() == (crate::frame::BlockId::FixedStrategy {
                    frame_number: (first_sample
                        / stream_info.min_block_size.spec_inner() as u64) as u64 })
                &&& (self matches Block::Other { channels } ==> (
                    f.spec_subframes() matches ChannelLayout::Independent { channels: cs }
                        && cs@.len() == channels@.len()
                        && forall|i: int| 0 <= i < cs@.len()
                            ==> crate::frame::is_selected_subframe(
                                channels@[i].data@, #[trigger] cs@[i])))
                &&& (self matches Block::Stereo { left, right, mid, side } ==> (
                    exists|lsf: Subframe<S>, rsf: Subframe<S>, msf: Subframe<S>,
                        ssf: Subframe<S::Widened>|
                        crate::frame::is_selected_subframe(left.data@, lsf)
                            && crate::frame::is_selected_subframe(right.data@, rsf)
                            && crate::frame::is_selected_subframe(mid.data@, msf)
                            && crate::frame::is_best_side_subframe(side.data@, ssf)
                            && #[trigger] is_stereo_choice(lsf, rsf, msf, ssf, allow_side,
                                f.spec_subframes())))
            },
    {
        let len = self.len();
        if len < 16 || len > 65535 {
            return None;
        }
        let block_size = match BlockSize::new(len as u16) {
            Some(b) => b,
            None => { return None; }
        };
        let frame_opt = Frame::<S>::new(block_size, stream_info, first_sample);
        let mut frame = match frame_opt {
            Some(f) => f,
            None => { return None; }
        };
        proof {
            vstd::arithmetic::power2::lemma2_to64();
        }
        let layout: ChannelLayout<S> = match self {
            Block::Stereo { left, right, mid, side } => {
                proof {
                    assert forall|i: int| 0 <= i < mid.data@.len() implies
                        -sample_mag() <= #[trigger] sample_vals(mid.data@)[i] <= sample_mag()
                    by {
                        assert(mid.data@[i].spec_val()
                            == (left.data@[i].spec_val() + right.data@[i].spec_val()) / 2);
                        assert(-0x2_0000_0000 <= sample_vals(left.data@)[i] <= 0x2_0000_0000);
                        assert(-0x2_0000_0000 <= sample_vals(right.data@)[i] <= 0x2_0000_0000);
                    }
                    assert forall|i: int| 0 <= i < side.data@.len() implies
                        -sample_mag() <= #[trigger] sample_vals(side.data@)[i] <= sample_mag()
                    by {
                        assert(side.data@[i].spec_val()
                            == left.data@[i].spec_val() - right.data@[i].spec_val());
                        assert(-0x2_0000_0000 <= sample_vals(left.data@)[i] <= 0x2_0000_0000);
                        assert(-0x2_0000_0000 <= sample_vals(right.data@)[i] <= 0x2_0000_0000);
                    }
                }
                let left_subframe = Subframe::from_subblock(left);
                let right_subframe = Subframe::from_subblock(right);
                let mid_subframe = Subframe::from_subblock(mid);
                proof {
                    lemma_verbatim_cost_small::<S>(left.data@);
                    lemma_verbatim_cost_small::<S>(right.data@);
                }
                match Subframe::<S>::encode_side_channel(side) {
                    None => {
                        let mut channels: Vec<Subframe<S>> = Vec::new();
                        channels.push(left_subframe);
                        channels.push(right_subframe);
                        proof { assert(false); }
                        ChannelLayout::Independent { channels }
                    }
                    Some(side_subframe) => choose_stereo_layout(
                        left_subframe,
                        right_subframe,
                        mid_subframe,
                        side_subframe,
                        allow_side,
                    ),
                }
            }
            Block::Other { channels } => {
                let m = channels.len();
                let mut subframes: Vec<Subframe<S>> = Vec::new();
                let mut i: usize = 0;
                while i < m
                    invariant
                        i <= m,
                        1 <= m == channels@.len() <= 8,
                        subframes@.len() == i,
                        forall|t: int| 0 <= t < channels@.len()
                            ==> #[trigger] channels@[t].data@.len() == channels@[0].data@.len(),
                        16 <= channels@[0].data@.len() <= 65535,
                        forall|t: int| 0 <= t < channels@.len()
                            ==> vals_bounded(#[trigger] sample_vals(channels@[t].data@),
                                0x2_0000_0000),
                        forall|t: int| 0 <= t < i ==> #[trigger] subframes@[t].wf(),
                        forall|t: int| 0 <= t < i ==> crate::frame::is_selected_subframe(
                            channels@[t].data@, #[trigger] subframes@[t]),
                        crate::frame::subframes_seq_bit_len(subframes@) <= i * 0x80_0000,
                    decreases m - i,
                {
                    let sf = Subframe::from_subblock(&channels[i]);
                    proof {
                        lemma_verbatim_cost_small::<S>(channels@[i as int].data@);
                        crate::frame::lemma_subframes_seq_push(subframes@, sf);
                    }
                    subframes.push(sf);
                    i = i + 1;
                }
                ChannelLayout::Independent { channels: subframes }
            }
        };
        frame.set_subframes(layout);
        Some(frame)
    }
}

/// The verbatim cost of a block of at most 65535 samples is small, and so
/// then is any selected subframe.
proof fn lemma_verbatim_cost_small<S: SampleVal>(data: Seq<S>)
    requires data.len() <= 0x1_0000,
    ensures 8 * crate::frame::spec_verbatim_cost(data) <= 0x80_0000,
{
    S::lemma_bits_range();
    assert(data.len() * S::spec_bits() <= 0x1_0000 * 64) by (nonlinear_arith)
        requires data.len() <= 0x1_0000 && S::spec_bits() <= 64;
}

} // verus!
