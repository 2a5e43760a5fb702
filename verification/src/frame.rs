//! Frames, subframes and the sample model.
//!
//! A frame is one block's header plus the encoded representation of every
//! channel, protected by a CRC-16 trailer; each channel's samples become one
//! subframe.  Samples are modelled by a capability trait with a widened
//! counterpart type used for difference channels.

use vstd::prelude::*;

use vstd::arithmetic::power2::pow2;

use crate::headers::{BitsPerSample, BlockSize, MetadataBlockStreamInfo};

verus! {

/// A small byte string kept on the stack.
pub struct StackVec {
    len: usize,
    data: [u8; 16],
}

impl View for StackVec {
    type V = Seq<u8>;

    closed spec fn view(&self) -> Seq<u8> {
        self.data@.take(self.len as int)
    }
}

impl StackVec {
    #[verifier::type_invariant]
    spec fn inv(self) -> bool {
        self.len <= 16
    }

    /// The first bytes of `s`, at most sixteen of them.
    pub fn from_slice(s: &[u8]) -> (r: StackVec)
        ensures
            r@ == s@.take(if s@.len() <= 16 { s@.len() as int } else { 16 }),
    {
        let copylen = if s.len() < 16 { s.len() } else { 16 };
        let mut data = [0u8; 16];
        let mut i: usize = 0;
        while i < copylen
            invariant
                i <= copylen,
                copylen <= 16,
                copylen <= s@.len(),
                data@.len() == 16,
                forall|j: int| 0 <= j < i ==> data@[j] == s@[j],
            decreases copylen - i,
        {
            data[i] = *vstd::slice::slice_index_get(s, i);
            i = i + 1;
        }
        let r = StackVec { len: copylen, data };
        proof {
            assert(r@ =~= s@.take(copylen as int));
        }
        r
    }

    pub fn len(&self) -> (r: usize)
        ensures r == self@.len(),
    {
        proof { use_type_invariant(self); }
        self.len
    }

    pub fn get(&self, i: usize) -> (r: u8)
        requires i < self@.len(),
        ensures r == self@[i as int],
    {
        proof { use_type_invariant(self); }
        self.data[i]
    }
}

/// A numeric sample width: its value, its bit width, and exact arithmetic.
pub trait SampleVal: Copy + Sized {
    /// The width of this sample type in bits.
    spec fn spec_bits() -> u32;

    /// The numeric value of this sample.
    spec fn spec_val(self) -> i64;

    /// The big-endian byte image of this sample.
    spec fn spec_be_bytes(self) -> Seq<u8>;

    /// The width is a whole number of bytes, at most eight of them.
    proof fn lemma_bits_range()
        ensures
            8 <= Self::spec_bits() <= 64,
            Self::spec_bits() % 8 == 0,
    ;

    /// Every value of the type fits its declared width.
    proof fn lemma_val_range(self)
        ensures
            8 <= Self::spec_bits() <= 64,
            Self::spec_bits() % 8 == 0,
            -(pow2((Self::spec_bits() - 1) as nat) as int) <= self.spec_val()
                < pow2((Self::spec_bits() - 1) as nat),
    ;

    fn bitsize() -> (r: u8)
        ensures r as u32 == Self::spec_bits(),
    ;

    fn to_i64(self) -> (r: i64)
        ensures r == self.spec_val(),
    ;

    fn to_bytes(self) -> (r: StackVec)
        ensures
            r@ == self.spec_be_bytes(),
    ;

    /// Appends the big-endian byte image of this sample to a buffer.
    fn write(&self, out: &mut Vec<u8>)
        ensures
            final(out)@ == old(out)@ + self.spec_be_bytes(),
    {
        let bytes = self.to_bytes();
        let n = bytes.len();
        let mut i: usize = 0;
        while i < n
            invariant
                i <= n,
                n == bytes@.len(),
                bytes@ == self.spec_be_bytes(),
                out@ == old(out)@ + bytes@.take(i as int),
            decreases n - i,
        {
            out.push(bytes.get(i));
            proof {
                assert(out@ =~= old(out)@ + bytes@.take(i + 1));
            }
            i = i + 1;
        }
        proof {
            assert(bytes@.take(n as int) =~= bytes@);
        }
    }

    /// Exact addition; the sum must fit the type.
    fn plus(self, other: Self) -> (r: Self)
        requires
            -(pow2((Self::spec_bits() - 1) as nat) as int) <= self.spec_val() + other.spec_val()
                < pow2((Self::spec_bits() - 1) as nat),
        ensures
            r.spec_val() == self.spec_val() + other.spec_val(),
    ;

    /// Exact subtraction; the difference must fit the type.
    fn minus(self, other: Self) -> (r: Self)
        requires
            -(pow2((Self::spec_bits() - 1) as nat) as int) <= self.spec_val() - other.spec_val()
                < pow2((Self::spec_bits() - 1) as nat),
        ensures
            r.spec_val() == self.spec_val() - other.spec_val(),
    ;

    /// Arithmetic shift right by one: division by two rounded toward
    /// negative infinity.
    fn asr1(self) -> (r: Self)
        ensures
            r.spec_val() == self.spec_val() / 2,
    ;
}

/// A sample width that also has a widened counterpart with extra headroom
/// for difference channels.
pub trait Sample: SampleVal {
    type Widened: SampleVal;

    fn widen(self) -> (r: Self::Widened)
        ensures r.spec_val() == self.spec_val(),
    ;

    fn try_from_widened(widened: Self::Widened) -> (r: Option<Self>)
        ensures
            r.is_some() <==> (-(pow2((Self::spec_bits() - 1) as nat) as int) <= widened.spec_val()
                < pow2((Self::spec_bits() - 1) as nat)),
            r matches Some(s) ==> s.spec_val() == widened.spec_val(),
    ;

    /// The widened counterpart is strictly wider.
    proof fn lemma_widened_wider()
        ensures <Self::Widened as SampleVal>::spec_bits() > Self::spec_bits(),
    ;
}

impl SampleVal for i16 {

    open spec fn spec_bits() -> u32 {
        16
    }

    open spec fn spec_val(self) -> i64 {
        self as i64
    }

    open spec fn spec_be_bytes(self) -> Seq<u8> {
        seq![(((self as u16) >> 8u16) as u8), ((self as u16) as u8)]
    }

    proof fn lemma_bits_range() {
    }

    proof fn lemma_val_range(self)
    {
        vstd::arithmetic::power2::lemma2_to64();
    }

    fn bitsize() -> u8 {
        16
    }

    fn to_i64(self) -> i64 {
        self as i64
    }

    fn to_bytes(self) -> (r: StackVec) {
        let w = self as u16;
        let mut data = [0u8; 16];
        data[0] = (w >> 8u16) as u8;
        data[1] = w as u8;
        let r = StackVec { len: 2, data };
        proof {
            assert(r@ =~= self.spec_be_bytes());
            assert(r@.len() == 2);
        }
        r
    }

    fn plus(self, other: i16) -> i16 {
        proof {
            vstd::arithmetic::power2::lemma2_to64();
        }
        self + other
    }

    fn minus(self, other: i16) -> i16 {
        proof {
            vstd::arithmetic::power2::lemma2_to64();
        }
        self - other
    }

    fn asr1(self) -> i16 {
        let q = self / 2;
        if self < 0 && self % 2 != 0 {
            q - 1
        } else {
            q
        }
    }
}

impl SampleVal for i32 {

    proof fn lemma_bits_range() {
    }

    open spec fn spec_bits() -> u32 {
        32
    }

    open spec fn spec_val(self) -> i64 {
        self as i64
    }

    open spec fn spec_be_bytes(self) -> Seq<u8> {
        seq![
            (((self as u32) >> 24u32) as u8),
            (((self as u32) >> 16u32) as u8),
            (((self as u32) >> 8u32) as u8),
            ((self as u32) as u8),
        ]
    }

    proof fn lemma_val_range(self)
    {
        vstd::arithmetic::power2::lemma2_to64();
    }

    fn bitsize() -> u8 {
        32
    }

    fn to_i64(self) -> i64 {
        self as i64
    }

    fn to_bytes(self) -> (r: StackVec) {
        let w = self as u32;
        let mut data = [0u8; 16];
        data[0] = (w >> 24u32) as u8;
        data[1] = (w >> 16u32) as u8;
        data[2] = (w >> 8u32) as u8;
        data[3] = w as u8;
        let r = StackVec { len: 4, data };
        proof {
            assert(r@ =~= self.spec_be_bytes());
            assert(r@.len() == 4);
        }
        r
    }

    fn plus(self, other: i32) -> i32 {
        proof {
            vstd::arithmetic::power2::lemma2_to64();
        }
        self + other
    }

    fn minus(self, other: i32) -> i32 {
        proof {
            vstd::arithmetic::power2::lemma2_to64();
        }
        self - other
    }

    fn asr1(self) -> i32 {
        let q = self / 2;
        if self < 0 && self % 2 != 0 {
            q - 1
        } else {
            q
        }
    }
}

/// The widest sample type stands in only for widened side-channel data;
/// it has no widened counterpart of its own.
impl SampleVal for i64 {

    proof fn lemma_bits_range() {
    }

    open spec fn spec_bits() -> u32 {
        64
    }

    open spec fn spec_val(self) -> i64 {
        self
    }

    open spec fn spec_be_bytes(self) -> Seq<u8> {
        seq![
            (((self as u64) >> 56u64) as u8),
            (((self as u64) >> 48u64) as u8),
            (((self as u64) >> 40u64) as u8),
            (((self as u64) >> 32u64) as u8),
            (((self as u64) >> 24u64) as u8),
            (((self as u64) >> 16u64) as u8),
            (((self as u64) >> 8u64) as u8),
            ((self as u64) as u8),
        ]
    }

    proof fn lemma_val_range(self)
    {
        vstd::arithmetic::power2::lemma2_to64();
        vstd::arithmetic::power2::lemma2_to64_rest();
    }

    fn bitsize() -> u8 {
        64
    }

    fn to_i64(self) -> i64 {
        self
    }

    fn to_bytes(self) -> (r: StackVec) {
        let w = self as u64;
        let mut data = [0u8; 16];
        data[0] = (w >> 56u64) as u8;
        data[1] = (w >> 48u64) as u8;
        data[2] = (w >> 40u64) as u8;
        data[3] = (w >> 32u64) as u8;
        data[4] = (w >> 24u64) as u8;
        data[5] = (w >> 16u64) as u8;
        data[6] = (w >> 8u64) as u8;
        data[7] = w as u8;
        let r = StackVec { len: 8, data };
        proof {
            assert(r@ =~= self.spec_be_bytes());
            assert(r@.len() == 8);
        }
        r
    }

    fn plus(self, other: i64) -> i64 {
        proof {
            vstd::arithmetic::power2::lemma2_to64();
            vstd::arithmetic::power2::lemma2_to64_rest();
        }
        self + other
    }

    fn minus(self, other: i64) -> i64 {
        proof {
            vstd::arithmetic::power2::lemma2_to64();
            vstd::arithmetic::power2::lemma2_to64_rest();
        }
        self - other
    }

    fn asr1(self) -> i64 {
        let q = self / 2;
        if self < 0 && self % 2 != 0 {
            q - 1
        } else {
            q
        }
    }
}

impl Sample for i16 {
    type Widened = i32;

    proof fn lemma_widened_wider() {
    }

    fn widen(self) -> i32 {
        self as i32
    }

    fn try_from_widened(widened: i32) -> (r: Option<i16>) {
        proof {
            vstd::arithmetic::power2::lemma2_to64();
        }
        if widened >= -32768 && widened <= 32767 {
            Some(widened as i16)
        } else {
            None
        }
    }
}

impl Sample for i32 {
    type Widened = i64;

    proof fn lemma_widened_wider() {
    }

    fn widen(self) -> i64 {
        self as i64
    }

    fn try_from_widened(widened: i64) -> (r: Option<i32>) {
        proof {
            vstd::arithmetic::power2::lemma2_to64();
        }
        if widened >= -0x8000_0000i64 && widened <= 0x7fff_ffffi64 {
            Some(widened as i32)
        } else {
            None
        }
    }
}

/// The numeric values of a sample sequence.
pub open spec fn sample_vals<S: SampleVal>(s: Seq<S>) -> Seq<int> {
    Seq::new(s.len(), |i: int| s[i].spec_val() as int)
}

/// One channel's samples for one block.
pub struct Subblock<S> {
    pub data: Vec<S>,
}

impl<S> Subblock<S> {
    pub fn len(&self) -> (r: usize)
        ensures r == self.data@.len(),
    {
        self.data.len()
    }
}

/// The bits of a run of raw samples, each written in its full width.
pub open spec fn samples_bits<S: SampleVal>(vs: Seq<S>) -> Seq<bool>
    decreases vs.len(),
{
    if vs.len() == 0 {
        Seq::empty()
    } else {
        samples_bits(vs.drop_last())
            + crate::bits::low_bits(vs.last().spec_val() as u64, S::spec_bits() as nat)
    }
}

pub proof fn lemma_samples_bits_len<S: SampleVal>(vs: Seq<S>)
    ensures samples_bits(vs).len() == vs.len() * S::spec_bits(),
    decreases vs.len(),
{
    if vs.len() == 0 {
        assert(vs.len() * S::spec_bits() == 0) by (nonlinear_arith) requires vs.len() == 0;
    } else {
        lemma_samples_bits_len::<S>(vs.drop_last());
        assert((vs.len() - 1) * S::spec_bits() + S::spec_bits() == vs.len() * S::spec_bits())
            by (nonlinear_arith);
    }
}

pub proof fn lemma_samples_bits_push<S: SampleVal>(vs: Seq<S>, x: S)
    ensures samples_bits(vs.push(x))
        == samples_bits(vs) + crate::bits::low_bits(x.spec_val() as u64, S::spec_bits() as nat),
{
    assert(vs.push(x).drop_last() =~= vs);
    assert(vs.push(x).last() == x);
}

/// Machine values of an integer sequence.
pub open spec fn to_i64_seq(s: Seq<int>) -> Seq<i64> {
    Seq::new(s.len(), |i: int| s[i] as i64)
}

/// The residual stream that fixed-order prediction of order `k` produces.
pub open spec fn spec_fixed_residual<S: SampleVal>(data: Seq<S>, k: nat) -> Seq<i64> {
    to_i64_seq(crate::encoder::nth_diffs(sample_vals(data), k))
}

/// The encoded representation of one channel's samples in one block.
#[derive(Debug)]
pub enum Subframe<S> {
    Constant {
        value: S,
    },
    Verbatim {
        value: Vec<S>,
    },
    Fixed {
        predictor: Vec<S>,
        rice_param: usize,
        residual: Vec<i64>,
    },
}

impl<S: SampleVal> Subframe<S> {
    /// Field widths and counts small enough to serialize and cost exactly.
    pub open spec fn wf(self) -> bool {
        match self {
            Subframe::Constant { .. } => true,
            Subframe::Verbatim { value } => value@.len() <= 0x1_0000,
            Subframe::Fixed { predictor, rice_param, residual } =>
                1 <= predictor@.len() <= 4 && rice_param <= 14
                    && residual@.len() <= 0x1_0000
                    && crate::rice::residuals_bounded(residual@),
        }
    }

    /// The six-bit subframe type code.
    pub open spec fn spec_type_code(self) -> u8 {
        match self {
            Subframe::Constant { .. } => 0,
            Subframe::Verbatim { .. } => 1,
            Subframe::Fixed { predictor, .. } => (8 + predictor@.len()) as u8,
        }
    }

    /// The bits of the type-specific payload.
    pub open spec fn spec_payload_bits(self) -> Seq<bool> {
        match self {
            Subframe::Constant { value } =>
                crate::bits::low_bits(value.spec_val() as u64, S::spec_bits() as nat),
            Subframe::Verbatim { value } => samples_bits(value@),
            Subframe::Fixed { predictor, rice_param, residual } =>
                samples_bits(predictor@)
                    + crate::bits::zero_bits(2)
                    + crate::bits::zero_bits(4)
                    + crate::bits::low_bits(rice_param as u64, 4)
                    + crate::rice::rice_stream_bits(residual@, rice_param as nat),
        }
    }

    /// The bits of the whole subframe: a zero pad bit, the six-bit type
    /// code, the always-zero wasted-bits flag, then the payload.
    pub open spec fn spec_bits(self) -> Seq<bool> {
        seq![false]
            + crate::bits::low_bits(self.spec_type_code() as u64, 6)
            + seq![false]
            + self.spec_payload_bits()
    }

    /// The exact bit length of the serialized subframe.
    pub open spec fn spec_bit_len(self) -> nat {
        8 + match self {
            Subframe::Constant { .. } => S::spec_bits() as nat,
            Subframe::Verbatim { value } => (value@.len() * S::spec_bits()) as nat,
            Subframe::Fixed { predictor, rice_param, residual } =>
                (predictor@.len() * S::spec_bits()) as nat + 10
                    + crate::rice::rice_block_len(residual@, rice_param as nat),
        }
    }

    /// The number of bytes the subframe occupies when serialized alone into
    /// a fresh, byte-aligned buffer.
    pub open spec fn spec_byte_len(self) -> nat {
        (self.spec_bit_len() + 7) / 8
    }

    pub proof fn lemma_spec_bits_len(self)
        requires self.wf(),
        ensures self.spec_bits().len() == self.spec_bit_len(),
    {
        match self {
            Subframe::Constant { .. } => {}
            Subframe::Verbatim { value } => {
                lemma_samples_bits_len::<S>(value@);
            }
            Subframe::Fixed { predictor, rice_param, residual } => {
                lemma_samples_bits_len::<S>(predictor@);
                crate::rice::lemma_rice_stream_bits_len(residual@, rice_param as nat);
            }
        }
    }
}

/// The cost, in bytes, of the verbatim representation of a block.
pub open spec fn spec_verbatim_cost<S: SampleVal>(data: Seq<S>) -> nat {
    ((8 + data.len() * S::spec_bits()) as nat + 7) / 8
}

/// The cost, in bytes, of the fixed representation of order `k` with its
/// optimal Rice parameter.
pub open spec fn spec_fixed_cost<S: SampleVal>(data: Seq<S>, k: nat) -> nat {
    let rs = spec_fixed_residual(data, k);
    ((8 + k * S::spec_bits() + 10 + crate::rice::rice_block_len(rs, crate::rice::rice_opt_param(rs))) as nat
        + 7) / 8
}

/// The cheapest fixed order among `1 .. n`; ties go to the lower order.
pub open spec fn spec_best_fixed_upto<S: SampleVal>(data: Seq<S>, n: nat) -> nat
    decreases n,
{
    if n <= 2 {
        1
    } else {
        let b = spec_best_fixed_upto::<S>(data, (n - 1) as nat);
        if spec_fixed_cost(data, (n - 1) as nat) < spec_fixed_cost(data, b) {
            (n - 1) as nat
        } else {
            b
        }
    }
}

/// The cheapest fixed order among 1 to 4; ties go to the lower order.
pub open spec fn spec_best_fixed_order<S: SampleVal>(data: Seq<S>) -> nat {
    spec_best_fixed_upto::<S>(data, 5)
}

pub proof fn lemma_best_fixed_upto<S: SampleVal>(data: Seq<S>, n: nat)
    requires 2 <= n,
    ensures
        1 <= spec_best_fixed_upto::<S>(data, n) < n,
        forall|k: nat| 1 <= k < n ==> spec_fixed_cost(data, spec_best_fixed_upto::<S>(data, n))
            <= #[trigger] spec_fixed_cost(data, k),
    decreases n,
{
    if n > 2 {
        lemma_best_fixed_upto::<S>(data, (n - 1) as nat);
    }
}

/// Every sample of the block equals the first one.
pub open spec fn spec_all_equal<S: SampleVal>(data: Seq<S>) -> bool {
    forall|i: int| 0 <= i < data.len() ==> #[trigger] data[i].spec_val() == data[0].spec_val()
}

/// `r` is exactly the representation the subframe strategy selection
/// chooses for the samples `data`.
pub open spec fn is_selected_subframe<S: SampleVal>(data: Seq<S>, r: Subframe<S>) -> bool {
    if spec_all_equal(data) {
        r matches Subframe::Constant { value: v } && v.spec_val() == data[0].spec_val()
    } else {
        let b = spec_best_fixed_order(data);
        if spec_fixed_cost(data, b) <= spec_verbatim_cost(data) {
            r matches Subframe::Fixed { predictor, rice_param, residual }
                && predictor@ == data.take(b as int)
                && residual@ == spec_fixed_residual(data, b)
                && rice_param == crate::rice::rice_opt_param(residual@)
        } else {
            r matches Subframe::Verbatim { value: v } && v@ == data
        }
    }
}

/// A channel whose samples are all equal is always encoded as a constant
/// subframe holding that value, whatever the other candidates would cost.
pub proof fn lemma_all_equal_becomes_constant<S: SampleVal>(data: Seq<S>, r: Subframe<S>)
    requires
        data.len() >= 1,
        spec_all_equal(data),
        is_selected_subframe(data, r),
    ensures
        r matches Subframe::Constant { value } && value.spec_val() == data[0].spec_val(),
{
}

/// `r` is exactly the cheapest fixed representation of the side-channel
/// samples `data`, ties going to the lower order.
pub open spec fn is_best_side_subframe<W: SampleVal>(data: Seq<W>, r: Subframe<W>) -> bool {
    let b = spec_best_fixed_order(data);
    r matches Subframe::Fixed { predictor, rice_param, residual }
        && predictor@ == data.take(b as int)
        && residual@ == spec_fixed_residual(data, b)
        && rice_param == crate::rice::rice_opt_param(residual@)
}

impl<S: SampleVal> Subframe<S> {
    /// Builds the fixed subframe of order `order`: the first `order` raw
    /// samples as warm-up, the order-`order` residual stream, and the
    /// cheapest Rice parameter for it.
    pub fn new_fixed(value: &[S], order: usize) -> (r: Subframe<S>)
        requires
            1 <= order <= 4,
            order <= value@.len(),
            value@.len() <= 0x1_0000,
            crate::encoder::vals_bounded(sample_vals(value@), crate::encoder::sample_mag()),
        ensures
            r.wf(),
            r matches Subframe::Fixed { predictor, rice_param, residual } ==> {
                &&& predictor@ == value@.take(order as int)
                &&& residual@ == spec_fixed_residual(value@, order as nat)
                &&& rice_param == crate::rice::rice_opt_param(residual@)
            },
            r is Fixed,
            r.spec_byte_len() == spec_fixed_cost(value@, order as nat),
    {
        let mut predictor: Vec<S> = Vec::new();
        let mut i: usize = 0;
        while i < order
            invariant
                i <= order,
                order <= value@.len(),
                predictor@ == value@.take(i as int),
            decreases order - i,
        {
            predictor.push(*vstd::slice::slice_index_get(value, i));
            proof {
                assert(predictor@ =~= value@.take(i + 1));
            }
            i = i + 1;
        }
        let fr = crate::encoder::FixedResidual::new(value, order);
        let residual = fr.into_vec();
        proof {
            let rs = spec_fixed_residual(value@, order as nat);
            assert forall|t: int| 0 <= t < residual@.len() implies
                #[trigger] residual@[t] == rs[t]
            by {
                assert(crate::encoder::int_seq(residual@)[t]
                    == crate::encoder::nth_diffs(sample_vals(value@), order as nat)[t]);
            }
            crate::encoder::lemma_nth_diffs_len(sample_vals(value@), order as nat);
            assert(residual@ =~= rs);
        }
        let rice_param = crate::rice::find_optimum_rice_param(residual.as_slice());
        Subframe::Fixed { predictor, rice_param, residual }
    }

    /// Exact serialized bit length, without writing anything.
    pub fn bit_cost(&self) -> (r: u64)
        requires self.wf(),
        ensures
            r == self.spec_bit_len(),
            r <= 0x200_0000_0000_0000,
    {
        proof {
            S::lemma_bits_range();
        }
        let bits = S::bitsize() as u64;
        match self {
            Subframe::Constant { .. } => 8 + bits,
            Subframe::Verbatim { value } => {
                proof {
                    assert((value@.len() as u64) * bits <= 0x1_0000 * 64) by (nonlinear_arith)
                        requires value@.len() <= 0x1_0000 && bits <= 64;
                }
                8 + (value.len() as u64) * bits
            }
            Subframe::Fixed { predictor, rice_param, residual } => {
                let rl = crate::rice::get_rice_encoding_length(residual.as_slice(), *rice_param);
                proof {
                    crate::rice::lemma_rice_block_len_cap(residual@, *rice_param as nat);
                    assert((predictor@.len() as u64) * bits <= 4 * 64) by (nonlinear_arith)
                        requires predictor@.len() <= 4 && bits <= 64;
                }
                8 + (predictor.len() as u64) * bits + 10 + rl
            }
        }
    }

    /// Exact serialized byte count: what serializing this subframe alone
    /// into a fresh buffer would produce.
    pub fn byte_cost(&self) -> (r: u64)
        requires self.wf(),
        ensures
            r == self.spec_byte_len(),
            r <= 0x200_0000_0000_0000,
    {
        (self.bit_cost() + 7) / 8
    }

    /// Decides well-formedness at run time, for callers that assemble
    /// subframes by hand.
    pub fn is_well_formed(&self) -> (r: bool)
        ensures r == self.wf(),
    {
        match self {
            Subframe::Constant { .. } => true,
            Subframe::Verbatim { value } => value.len() <= 0x1_0000,
            Subframe::Fixed { predictor, rice_param, residual } => {
                let structural = 1 <= predictor.len() && predictor.len() <= 4
                    && *rice_param <= 14 && residual.len() <= 0x1_0000;
                let n = residual.len();
                let mut bounded = true;
                let mut i: usize = 0;
                while i < n
                    invariant
                        i <= n,
                        n == residual@.len(),
                        bounded <==> (forall|t: int| 0 <= t < i ==> -0x40_0000_0000
                            <= #[trigger] residual@[t] <= 0x40_0000_0000),
                    decreases n - i,
                {
                    let v = residual[i];
                    if v < -0x40_0000_0000i64 || v > 0x40_0000_0000i64 {
                        bounded = false;
                    }
                    i = i + 1;
                }
                structural && bounded
            }
        }
    }

    /// The serialized length in bytes.
    pub fn len(&self) -> (r: usize)
        requires
            self.wf(),
            self.spec_bit_len() + 7 < 0x1_0000_0000,
        ensures
            r == self.spec_byte_len(),
    {
        self.byte_cost() as usize
    }
}

impl<S: SampleVal> Subframe<S> {
    /// Chooses the cheapest representation for one channel's samples: a
    /// constant when all samples are equal, otherwise the cheapest of the
    /// verbatim form and the four fixed orders, where the verbatim form
    /// loses ties and lower orders win them.
    fn select_from(value: &[S]) -> (r: Subframe<S>)
        requires
            4 <= value@.len() <= 0x1_0000,
            crate::encoder::vals_bounded(sample_vals(value@), crate::encoder::sample_mag()),
        ensures
            r.wf(),
            is_selected_subframe(value@, r),
            r.spec_byte_len() <= spec_verbatim_cost(value@),
    {
        let n = value.len();
        let first = *vstd::slice::slice_index_get(value, 0);
        let mut all_equal = true;
        let mut i: usize = 0;
        while i < n
            invariant
                i <= n,
                n == value@.len(),
                4 <= n,
                first == value@[0],
                all_equal <==> (forall|t: int| 0 <= t < i
                    ==> #[trigger] value@[t].spec_val() == value@[0].spec_val()),
            decreases n - i,
        {
            let v = *vstd::slice::slice_index_get(value, i);
            if v.to_i64() != first.to_i64() {
                all_equal = false;
            }
            i = i + 1;
        }
        if all_equal {
            proof {
                S::lemma_bits_range();
                assert((1 as int) * S::spec_bits() <= value@.len() * S::spec_bits())
                    by (nonlinear_arith)
                    requires value@.len() >= 1 && S::spec_bits() >= 0,
                ;
            }
            return Subframe::Constant { value: first };
        }
        let o1 = Subframe::new_fixed(value, 1);
        let o2 = Subframe::new_fixed(value, 2);
        let o3 = Subframe::new_fixed(value, 3);
        let o4 = Subframe::new_fixed(value, 4);
        let c1 = o1.byte_cost();
        let c2 = o2.byte_cost();
        let c3 = o3.byte_cost();
        let c4 = o4.byte_cost();
        let mut best = o1;
        let mut best_cost = c1;
        let ghost mut border: nat = 1;
        proof {
            assert(spec_best_fixed_upto::<S>(value@, 2) == 1);
        }
        if c2 < best_cost {
            best = o2;
            best_cost = c2;
            proof { border = 2; }
        }
        proof {
            assert(border == spec_best_fixed_upto::<S>(value@, 3));
        }
        if c3 < best_cost {
            best = o3;
            best_cost = c3;
            proof { border = 3; }
        }
        proof {
            assert(border == spec_best_fixed_upto::<S>(value@, 4));
        }
        if c4 < best_cost {
            best = o4;
            best_cost = c4;
            proof { border = 4; }
        }
        proof {
            assert(border == spec_best_fixed_upto::<S>(value@, 5));
        }
        let mut verbatim_value: Vec<S> = Vec::new();
        let mut j: usize = 0;
        while j < n
            invariant
                j <= n,
                n == value@.len(),
                verbatim_value@ == value@.take(j as int),
            decreases n - j,
        {
            verbatim_value.push(*vstd::slice::slice_index_get(value, j));
            proof {
                assert(verbatim_value@ =~= value@.take(j + 1));
            }
            j = j + 1;
        }
        proof {
            assert(verbatim_value@ =~= value@);
            S::lemma_bits_range();
        }
        let verbatim = Subframe::Verbatim { value: verbatim_value };
        if best_cost <= verbatim.byte_cost() {
            best
        } else {
            verbatim
        }
    }

    /// Chooses the representation of one subblock.
    pub fn from_subblock(subblock: &Subblock<S>) -> (r: Subframe<S>)
        requires
            4 <= subblock.data@.len() <= 0x1_0000,
            crate::encoder::vals_bounded(sample_vals(subblock.data@), crate::encoder::sample_mag()),
        ensures
            r.wf(),
            is_selected_subframe(subblock.data@, r),
            r.spec_byte_len() <= spec_verbatim_cost(subblock.data@),
    {
        Subframe::select_from(subblock.data.as_slice())
    }
}

impl Subframe<i16> {
    /// Chooses the representation of one 16-bit subblock.
    pub fn from_subblock_i16(value: &[i16]) -> (r: Subframe<i16>)
        requires
            4 <= value@.len() <= 0x1_0000,
        ensures
            r.wf(),
            is_selected_subframe(value@, r),
            r.spec_byte_len() <= spec_verbatim_cost(value@),
    {
        proof {
            assert forall|i: int| 0 <= i < value@.len() implies
                -crate::encoder::sample_mag() <= #[trigger] sample_vals(value@)[i]
                    <= crate::encoder::sample_mag()
            by {
                value@[i].lemma_val_range();
                vstd::arithmetic::power2::lemma2_to64();
            }
        }
        Subframe::select_from(value)
    }
}

impl<S: Sample> Subframe<S> {
    /// Builds a fixed subframe whose warm-up samples are narrowed back from
    /// the widened domain; it fails exactly when some warm-up value does
    /// not fit the narrow type, so that the caller can skip the candidate.
    pub fn new_fixed_from_widened(value: &[S::Widened], order: usize) -> (r: Option<Subframe<S>>)
        requires
            1 <= order <= 4,
            order <= value@.len(),
            value@.len() <= 0x1_0000,
            crate::encoder::vals_bounded(sample_vals(value@), crate::encoder::sample_mag()),
        ensures
            r.is_some() <==> (forall|i: int| 0 <= i < order ==>
                -(pow2((<S as SampleVal>::spec_bits() - 1) as nat) as int)
                    <= (#[trigger] value@[i]).spec_val()
                    < pow2((<S as SampleVal>::spec_bits() - 1) as nat)),
            r matches Some(sf) ==> sf.wf()
                && (sf matches Subframe::Fixed { predictor, rice_param, residual }
                    && predictor@.len() == order
                    && (forall|i: int| 0 <= i < order ==> #[trigger] predictor@[i].spec_val()
                        == value@[i].spec_val())
                    && residual@ == spec_fixed_residual(value@, order as nat)
                    && rice_param == crate::rice::rice_opt_param(residual@)),
    {
        let ghost narrow_min = -(pow2((<S as SampleVal>::spec_bits() - 1) as nat) as int);
        let ghost narrow_end = pow2((<S as SampleVal>::spec_bits() - 1) as nat) as int;
        let mut predictor: Vec<S> = Vec::new();
        let mut i: usize = 0;
        while i < order
            invariant
                i <= order,
                order <= value@.len(),
                predictor@.len() == i,
                narrow_min == -(pow2((<S as SampleVal>::spec_bits() - 1) as nat) as int),
                narrow_end == pow2((<S as SampleVal>::spec_bits() - 1) as nat) as int,
                forall|t: int| 0 <= t < i ==> #[trigger] predictor@[t].spec_val()
                    == value@[t].spec_val(),
                forall|t: int| 0 <= t < i ==> narrow_min <= (#[trigger] value@[t]).spec_val()
                    < narrow_end,
            decreases order - i,
        {
            let w = *vstd::slice::slice_index_get(value, i);
            match S::try_from_widened(w) {
                Some(s) => {
                    predictor.push(s);
                }
                None => {
                    proof {
                        assert(!(narrow_min <= value@[i as int].spec_val() < narrow_end));
                    }
                    return None;
                }
            }
            i = i + 1;
        }
        let fr = crate::encoder::FixedResidual::new(value, order);
        let residual = fr.into_vec();
        proof {
            let rs = spec_fixed_residual(value@, order as nat);
            assert forall|t: int| 0 <= t < residual@.len() implies
                #[trigger] residual@[t] == rs[t]
            by {
                assert(crate::encoder::int_seq(residual@)[t]
                    == crate::encoder::nth_diffs(sample_vals(value@), order as nat)[t]);
            }
            crate::encoder::lemma_nth_diffs_len(sample_vals(value@), order as nat);
            assert(residual@ =~= rs);
        }
        let rice_param = crate::rice::find_optimum_rice_param(residual.as_slice());
        Some(Subframe::Fixed { predictor, rice_param, residual })
    }

    /// Encodes a side channel, which cannot be represented verbatim in the
    /// block's nominal width: the cheapest fixed order is chosen, lower
    /// orders winning ties.
    pub fn encode_side_channel(subblock: &Subblock<S::Widened>) -> (r: Option<Subframe<S::Widened>>)
        requires
            4 <= subblock.data@.len() <= 0x1_0000,
            crate::encoder::vals_bounded(sample_vals(subblock.data@), crate::encoder::sample_mag()),
        ensures
            r matches Some(sf) ==> sf.wf() && is_best_side_subframe(subblock.data@, sf)
                && sf.spec_byte_len() <= spec_fixed_cost(subblock.data@, 1),
            r.is_some(),
    {
        let value = subblock.data.as_slice();
        let o1 = Subframe::<S::Widened>::new_fixed(value, 1);
        let o2 = Subframe::<S::Widened>::new_fixed(value, 2);
        let o3 = Subframe::<S::Widened>::new_fixed(value, 3);
        let o4 = Subframe::<S::Widened>::new_fixed(value, 4);
        let c1 = o1.byte_cost();
        let c2 = o2.byte_cost();
        let c3 = o3.byte_cost();
        let c4 = o4.byte_cost();
        let mut best = o1;
        let mut best_cost = c1;
        let ghost mut border: nat = 1;
        proof {
            assert(spec_best_fixed_upto::<S::Widened>(subblock.data@, 2) == 1);
        }
        if c2 < best_cost {
            best = o2;
            best_cost = c2;
            proof { border = 2; }
        }
        proof {
            assert(border == spec_best_fixed_upto::<S::Widened>(subblock.data@, 3));
        }
        if c3 < best_cost {
            best = o3;
            best_cost = c3;
            proof { border = 3; }
        }
        proof {
            assert(border == spec_best_fixed_upto::<S::Widened>(subblock.data@, 4));
        }
        if c4 < best_cost {
            best = o4;
            best_cost = c4;
            proof { border = 4; }
        }
        proof {
            assert(border == spec_best_fixed_order(subblock.data@));
        }
        Some(best)
    }
}

impl<S: SampleVal> Subframe<S> {
    /// Serializes the subframe into the bit stream.
    pub fn put_into(&self, w: &mut crate::bitwriter::BitWriter)
        requires
            self.wf(),
            old(w).wf(),
            old(w)@.len() + self.spec_bit_len() <= crate::bitwriter::bit_cap(),
        ensures
            final(w).wf(),
            final(w)@ == old(w)@ + self.spec_bits(),
    {
        proof {
            S::lemma_bits_range();
            self.lemma_spec_bits_len();
            crate::bits::lemma_low_bits_flag(false);
        }
        w.put(1, 0);
        let code: u8 = match self {
            Subframe::Constant { .. } => 0b000000u8,
            Subframe::Verbatim { .. } => 0b000001,
            Subframe::Fixed { predictor, .. } => {
                let pl = predictor.len();
                let c = 0b001000u8 | (pl as u8);
                proof {
                    let p = pl as u8;
                    assert((8u8 | p) == vstd::prelude::add(8u8, p)) by (bit_vector)
                        requires p <= 4u8,
                    ;
                }
                c
            }
        };
        proof {
            assert(code == self.spec_type_code());
        }
        w.put(6, code as u64);
        w.put(1, 0);
        let ghost header_done = old(w)@ + seq![false]
            + crate::bits::low_bits(self.spec_type_code() as u64, 6) + seq![false];
        proof {
            assert(w@ =~= header_done);
        }
        match self {
            Subframe::Constant { value } => {
                w.put(S::bitsize() as usize, value.to_i64() as u64);
                proof {
                    assert(w@ =~= old(w)@ + self.spec_bits());
                }
            }
            Subframe::Verbatim { value } => {
                let m = value.len();
                let mut i: usize = 0;
                while i < m
                    invariant
                        i <= m,
                        m == value@.len() <= 0x1_0000,
                        w.wf(),
                        8 <= S::spec_bits() <= 64,
                        w@ == header_done + samples_bits(value@.take(i as int)),
                        header_done.len() + value@.len() * S::spec_bits()
                            <= crate::bitwriter::bit_cap(),
                    decreases m - i,
                {
                    proof {
                        lemma_samples_bits_len::<S>(value@.take(i as int));
                        assert((i as int) * S::spec_bits() <= value@.len() * S::spec_bits())
                            by (nonlinear_arith)
                            requires 0 <= i <= value@.len() && S::spec_bits() >= 0,
                        ;
                        assert(((i + 1) as int) * S::spec_bits() <= value@.len() * S::spec_bits())
                            by (nonlinear_arith)
                            requires 0 <= i + 1 <= value@.len() && S::spec_bits() >= 0,
                        ;
                        assert(((i + 1) as int) * S::spec_bits()
                            == (i as int) * S::spec_bits() + S::spec_bits()) by (nonlinear_arith);
                    }
                    let sample = value[i];
                    w.put(S::bitsize() as usize, sample.to_i64() as u64);
                    proof {
                        lemma_samples_bits_push::<S>(value@.take(i as int), value@[i as int]);
                        assert(value@.take(i as int).push(value@[i as int]) =~= value@.take(i + 1));
                        assert(w@ =~= header_done + samples_bits(value@.take(i + 1)));
                    }
                    i = i + 1;
                }
                proof {
                    assert(value@.take(m as int) =~= value@);
                    assert(w@ =~= old(w)@ + self.spec_bits());
                }
            }
            Subframe::Fixed { predictor, rice_param, residual } => {
                let m = predictor.len();
                let mut i: usize = 0;
                while i < m
                    invariant
                        i <= m,
                        m == predictor@.len() <= 4,
                        w.wf(),
                        8 <= S::spec_bits() <= 64,
                        w@ == header_done + samples_bits(predictor@.take(i as int)),
                        header_done.len() + predictor@.len() * S::spec_bits() + 10
                            + crate::rice::rice_block_len(residual@, *rice_param as nat)
                            <= crate::bitwriter::bit_cap(),
                    decreases m - i,
                {
                    proof {
                        lemma_samples_bits_len::<S>(predictor@.take(i as int));
                        assert((i as int) * S::spec_bits() <= predictor@.len() * S::spec_bits())
                            by (nonlinear_arith)
                            requires 0 <= i <= predictor@.len() && S::spec_bits() >= 0,
                        ;
                        assert(((i + 1) as int) * S::spec_bits() <= predictor@.len() * S::spec_bits())
                            by (nonlinear_arith)
                            requires 0 <= i + 1 <= predictor@.len() && S::spec_bits() >= 0,
                        ;
                        assert(((i + 1) as int) * S::spec_bits()
                            == (i as int) * S::spec_bits() + S::spec_bits()) by (nonlinear_arith);
                    }
                    let sample = predictor[i];
                    w.put(S::bitsize() as usize, sample.to_i64() as u64);
                    proof {
                        lemma_samples_bits_push::<S>(predictor@.take(i as int), predictor@[i as int]);
                        assert(predictor@.take(i as int).push(predictor@[i as int])
                            =~= predictor@.take(i + 1));
                        assert(w@ =~= header_done + samples_bits(predictor@.take(i + 1)));
                    }
                    i = i + 1;
                }
                proof {
                    assert(predictor@.take(m as int) =~= predictor@);
                    lemma_samples_bits_len::<S>(predictor@);
                }
                self.put_residual(residual.as_slice(), *rice_param, w);
                proof {
                    assert(header_done + samples_bits(predictor@)
                        + (crate::bits::zero_bits(2) + crate::bits::zero_bits(4)
                            + crate::bits::low_bits(*rice_param as u64, 4)
                            + crate::rice::rice_stream_bits(residual@, *rice_param as nat))
                        =~= old(w)@ + self.spec_bits());
                }
            }
        }
    }

    /// Writes the residual coding header, fixed to the four-bit Rice
    /// parameter method with no partitioning, then the Rice codes.
    fn put_residual(&self, residual: &[i64], rice_param: usize, w: &mut crate::bitwriter::BitWriter)
        requires
            rice_param <= 14,
            residual@.len() <= 0x1_0000,
            crate::rice::residuals_bounded(residual@),
            old(w).wf(),
            old(w)@.len() + 10 + crate::rice::rice_block_len(residual@, rice_param as nat)
                <= crate::bitwriter::bit_cap(),
        ensures
            final(w).wf(),
            final(w)@ == old(w)@ + crate::bits::zero_bits(2) + crate::bits::zero_bits(4)
                + crate::bits::low_bits(rice_param as u64, 4)
                + crate::rice::rice_stream_bits(residual@, rice_param as nat),
    {
        proof {
            crate::bits::lemma_low_bits_zero(2);
            crate::bits::lemma_low_bits_zero(4);
        }
        w.put(2, 0);
        w.put(4, 0);
        w.put(4, rice_param as u64);
        let ghost header_done = old(w)@ + crate::bits::zero_bits(2) + crate::bits::zero_bits(4)
            + crate::bits::low_bits(rice_param as u64, 4);
        proof {
            assert(w@ =~= header_done);
        }
        let n = residual.len();
        let mut i: usize = 0;
        while i < n
            invariant
                i <= n,
                n == residual@.len() <= 0x1_0000,
                rice_param <= 14,
                crate::rice::residuals_bounded(residual@),
                w.wf(),
                w@ == header_done + crate::rice::rice_stream_bits(
                    residual@.take(i as int), rice_param as nat),
                header_done.len() + crate::rice::rice_block_len(residual@, rice_param as nat)
                    <= crate::bitwriter::bit_cap(),
            decreases n - i,
        {
            let v = *vstd::slice::slice_index_get(residual, i);
            proof {
                crate::rice::lemma_rice_stream_bits_len(
                    residual@.take(i as int), rice_param as nat);
                assert(residual@ =~= residual@.take(i + 1) + residual@.skip(i + 1));
                crate::rice::lemma_rice_block_len_concat(
                    residual@.take(i + 1), residual@.skip(i + 1), rice_param as nat);
                assert(residual@.take(i + 1).drop_last() =~= residual@.take(i as int));
                assert(residual@.take(i + 1).last() == residual@[i as int]);
            }
            crate::rice::rice(rice_param, v, w);
            proof {
                crate::rice::lemma_rice_stream_bits_push(
                    residual@.take(i as int), rice_param as nat, residual@[i as int]);
                assert(residual@.take(i as int).push(residual@[i as int])
                    =~= residual@.take(i + 1));
                assert(w@ =~= header_done + crate::rice::rice_stream_bits(
                    residual@.take(i + 1), rice_param as nat));
            }
            i = i + 1;
        }
        proof {
            assert(residual@.take(n as int) =~= residual@);
        }
    }
}

/// The number of bytes in the variable-length encoding of `v`.
pub open spec fn ftf8_len(v: u64) -> nat
    recommends v < 0x10_0000_0000,
{
    if v < 0x80 { 1 }
    else if v < 0x800 { 2 }
    else if v < 0x1_0000 { 3 }
    else if v < 0x20_0000 { 4 }
    else if v < 0x400_0000 { 5 }
    else if v < 0x8000_0000 { 6 }
    else { 7 }
}

/// The length prefix of the leading byte: one set bit per continuation
/// byte, then a zero bit.
pub open spec fn ftf8_prefix(n: nat) -> u8 {
    if n <= 1 { 0 }
    else if n == 2 { 0xc0 }
    else if n == 3 { 0xe0 }
    else if n == 4 { 0xf0 }
    else if n == 5 { 0xf8 }
    else if n == 6 { 0xfc }
    else { 0xfe }
}

/// Byte `i` of the `n`-byte encoding of `v`: the leading byte carries the
/// most significant bits under the length prefix; each continuation byte
/// carries six bits, least significant continuation byte last.
pub open spec fn ftf8_byte(v: u64, n: nat, i: int) -> u8 {
    let x = v as nat;
    if i == 0 {
        (ftf8_prefix(n) as nat + x / vstd::arithmetic::power2::pow2((6 * (n - 1)) as nat)) as u8
    } else {
        (0x80 + (x / vstd::arithmetic::power2::pow2((6 * (n - 1 - i)) as nat)) % 64) as u8
    }
}

/// The variable-length encoding of `v`, for `v` below `2^36`.
pub open spec fn ftf8_bytes(v: u64) -> Seq<u8>
    recommends v < 0x10_0000_0000,
{
    Seq::new(ftf8_len(v), |i: int| ftf8_byte(v, ftf8_len(v), i))
}

/// One continuation byte: six bits of the value at the given shift, under
/// a `10` marker.
fn ftf8_cont_byte(val: u64, shift: u64) -> (r: u8)
    requires shift < 64,
    ensures r as nat == 0x80
        + ((val as nat) / vstd::arithmetic::power2::pow2(shift as nat)) % 64,
{
    proof {
        vstd::bits::lemma_u64_shr_is_div(val, shift);
        vstd::bits::lemma_u64_low_bits_mask_is_mod(val >> shift, 6);
        vstd::bits::lemma_low_bits_mask_values();
        vstd::arithmetic::power2::lemma2_to64();
    }
    0x80u8 + (((val >> shift) & 0x3f) as u8)
}

/// Encodes an unsigned integer of at most 36 bits in the container's
/// UTF-8-style variable-length form; larger values are rejected.
pub fn ftf8_encode(val: u64) -> (r: Option<Vec<u8>>)
    ensures
        r.is_some() <==> val < 0x10_0000_0000,
        r matches Some(b) ==> b@ == ftf8_bytes(val),
{
    proof {
        vstd::arithmetic::power2::lemma2_to64();
        vstd::arithmetic::power2::lemma2_to64_rest();
    }
    let mut out: Vec<u8> = Vec::new();
    if val < 0x80 {
        out.push(val as u8);
        proof {
            assert(out@ =~= ftf8_bytes(val)) by {
                vstd::bits::lemma_u64_shr_is_div(val, 0);
                assert(out@[0] == ftf8_byte(val, 1, 0));
            }
        }
        Some(out)
    } else if val < 0x800 {
        proof { lemma_ftf8_lead(val, 6); }
        out.push(0xc0u8 + ((val >> 6u64) as u8));
        out.push(ftf8_cont_byte(val, 0));
        proof {
            assert(out@ =~= ftf8_bytes(val));
        }
        Some(out)
    } else if val < 0x1_0000 {
        proof { lemma_ftf8_lead(val, 12); }
        out.push(0xe0u8 + ((val >> 12u64) as u8));
        out.push(ftf8_cont_byte(val, 6));
        out.push(ftf8_cont_byte(val, 0));
        proof {
            assert(out@ =~= ftf8_bytes(val));
        }
        Some(out)
    } else if val < 0x20_0000 {
        proof { lemma_ftf8_lead(val, 18); }
        out.push(0xf0u8 + ((val >> 18u64) as u8));
        out.push(ftf8_cont_byte(val, 12));
        out.push(ftf8_cont_byte(val, 6));
        out.push(ftf8_cont_byte(val, 0));
        proof {
            assert(out@ =~= ftf8_bytes(val));
        }
        Some(out)
    } else if val < 0x400_0000 {
        proof { lemma_ftf8_lead(val, 24); }
        out.push(0xf8u8 + ((val >> 24u64) as u8));
        out.push(ftf8_cont_byte(val, 18));
        out.push(ftf8_cont_byte(val, 12));
        out.push(ftf8_cont_byte(val, 6));
        out.push(ftf8_cont_byte(val, 0));
        proof {
            assert(out@ =~= ftf8_bytes(val));
        }
        Some(out)
    } else if val < 0x8000_0000 {
        proof { lemma_ftf8_lead(val, 30); }
        out.push(0xfcu8 + ((val >> 30u64) as u8));
        out.push(ftf8_cont_byte(val, 24));
        out.push(ftf8_cont_byte(val, 18));
        out.push(ftf8_cont_byte(val, 12));
        out.push(ftf8_cont_byte(val, 6));
        out.push(ftf8_cont_byte(val, 0));
        proof {
            assert(out@ =~= ftf8_bytes(val));
        }
        Some(out)
    } else if val < 0x10_0000_0000 {
        proof { lemma_ftf8_lead(val, 36); }
        out.push(0xfeu8 + ((val >> 36u64) as u8));
        out.push(ftf8_cont_byte(val, 30));
        out.push(ftf8_cont_byte(val, 24));
        out.push(ftf8_cont_byte(val, 18));
        out.push(ftf8_cont_byte(val, 12));
        out.push(ftf8_cont_byte(val, 6));
        out.push(ftf8_cont_byte(val, 0));
        proof {
            assert(out@ =~= ftf8_bytes(val));
        }
        Some(out)
    } else {
        None
    }
}

/// The leading byte's value bits: the shift empties all but the top bits.
proof fn lemma_ftf8_lead(val: u64, shift: u64)
    requires shift < 64,
    ensures
        val >> shift == (val as nat) / vstd::arithmetic::power2::pow2(shift as nat),
{
    vstd::bits::lemma_u64_shr_is_div(val, shift);
}

/// The CRC-8 of a byte-aligned bit range, polynomial `0x07`, no
/// reflection, zero initial and final values.
pub uninterp spec fn crc8_of(data: Seq<bool>) -> u8;

/// The CRC-16 of a byte-aligned bit range, polynomial `0x8005`, no
/// reflection, zero initial and final values.
pub uninterp spec fn crc16_of(data: Seq<bool>) -> u16;

/// Relies on `crc::Crc::<u8>::checksum` with the catalogued SMBus
/// algorithm: polynomial `0x07`, zero init, no reflection, zero xor-out;
/// with no input it returns the zero initial value unchanged.
#[verifier::external_body]
fn crc8_checksum(data: &[u8]) -> (r: u8)
    ensures
        r == crc8_of(crate::bits::bytes_bits(data@)),
        data@.len() == 0 ==> r == 0,
{
    crc::Crc::<u8>::new(&crc::CRC_8_SMBUS).checksum(data)
}

/// Relies on `crc::Crc::<u16>::checksum` with the catalogued UMTS
/// algorithm: polynomial `0x8005`, zero init, no reflection, zero xor-out;
/// with no input it returns the zero initial value unchanged.
#[verifier::external_body]
fn crc16_checksum(data: &[u8]) -> (r: u16)
    ensures
        r == crc16_of(crate::bits::bytes_bits(data@)),
        data@.len() == 0 ==> r == 0,
{
    crc::Crc::<u16>::new(&crc::CRC_16_UMTS).checksum(data)
}

/// The CRC-8 protecting each frame header.
pub fn crc8(data: &[u8]) -> (r: u8)
    ensures
        r == crc8_of(crate::bits::bytes_bits(data@)),
        data@.len() == 0 ==> r == 0,
{
    crc8_checksum(data)
}

/// The CRC-16 protecting each whole frame.
pub fn crc16(data: &[u8]) -> (r: u16)
    ensures
        r == crc16_of(crate::bits::bytes_bits(data@)),
        data@.len() == 0 ==> r == 0,
{
    crc16_checksum(data)
}

/// How a frame is identified: by frame number under fixed blocking, by
/// starting sample number under variable blocking.
pub enum BlockId {
    FixedStrategy { frame_number: u64 },
    VariableStrategy { sample_number: u64 },
}

impl BlockId {
    pub open spec fn spec_value(self) -> u64 {
        match self {
            BlockId::FixedStrategy { frame_number } => frame_number,
            BlockId::VariableStrategy { sample_number } => sample_number,
        }
    }

    pub open spec fn is_variable(self) -> bool {
        self is VariableStrategy
    }
}

/// The bits of a run of subframes, in declaration order.
pub open spec fn subframes_seq_bits<S: SampleVal>(cs: Seq<Subframe<S>>) -> Seq<bool>
    decreases cs.len(),
{
    if cs.len() == 0 {
        Seq::empty()
    } else {
        subframes_seq_bits(cs.drop_last()) + cs.last().spec_bits()
    }
}

pub open spec fn subframes_seq_bit_len<S: SampleVal>(cs: Seq<Subframe<S>>) -> nat
    decreases cs.len(),
{
    if cs.len() == 0 {
        0
    } else {
        subframes_seq_bit_len(cs.drop_last()) + cs.last().spec_bit_len()
    }
}

pub proof fn lemma_subframes_seq_len<S: SampleVal>(cs: Seq<Subframe<S>>)
    requires forall|i: int| 0 <= i < cs.len() ==> #[trigger] cs[i].wf(),
    ensures subframes_seq_bits(cs).len() == subframes_seq_bit_len(cs),
    decreases cs.len(),
{
    if cs.len() > 0 {
        assert(forall|i: int| 0 <= i < cs.drop_last().len()
            ==> #[trigger] cs.drop_last()[i].wf());
        lemma_subframes_seq_len(cs.drop_last());
        cs.last().lemma_spec_bits_len();
    }
}

pub proof fn lemma_subframes_seq_push<S: SampleVal>(cs: Seq<Subframe<S>>, x: Subframe<S>)
    ensures
        subframes_seq_bits(cs.push(x)) == subframes_seq_bits(cs) + x.spec_bits(),
        subframes_seq_bit_len(cs.push(x)) == subframes_seq_bit_len(cs) + x.spec_bit_len(),
{
    assert(cs.push(x).drop_last() =~= cs);
    assert(cs.push(x).last() == x);
}

pub proof fn lemma_subframes_seq_len_concat<S: SampleVal>(a: Seq<Subframe<S>>, b: Seq<Subframe<S>>)
    ensures subframes_seq_bit_len(a + b) == subframes_seq_bit_len(a) + subframes_seq_bit_len(b),
    decreases b.len(),
{
    if b.len() == 0 {
        assert(a + b =~= a);
    } else {
        assert((a + b).drop_last() =~= a + b.drop_last());
        lemma_subframes_seq_len_concat(a, b.drop_last());
    }
}

/// The chosen channel assignment for one frame.
pub enum ChannelLayout<S: Sample> {
    Independent {
        channels: Vec<Subframe<S>>,
    },
    MidSide {
        mid: Subframe<S>,
        side: Subframe<S::Widened>,
    },
    LeftSide {
        left: Subframe<S>,
        side: Subframe<S::Widened>,
    },
    SideRight {
        side: Subframe<S::Widened>,
        right: Subframe<S>,
    },
}

impl<S: Sample> ChannelLayout<S> {
    pub open spec fn wf(self) -> bool {
        match self {
            ChannelLayout::Independent { channels } =>
                1 <= channels@.len() <= 8
                    && forall|i: int| 0 <= i < channels@.len() ==> #[trigger] channels@[i].wf(),
            ChannelLayout::MidSide { mid, side } => mid.wf() && side.wf(),
            ChannelLayout::LeftSide { left, side } => left.wf() && side.wf(),
            ChannelLayout::SideRight { side, right } => side.wf() && right.wf(),
        }
    }

    /// The four-bit channel-assignment code of the frame header.
    pub open spec fn spec_channel_code(self) -> u8
        recommends self.wf(),
    {
        match self {
            ChannelLayout::Independent { channels } => (channels@.len() - 1) as u8,
            ChannelLayout::LeftSide { .. } => 8,
            ChannelLayout::SideRight { .. } => 9,
            ChannelLayout::MidSide { .. } => 10,
        }
    }

    /// The bits of all subframes, in the order the layout defines.
    pub open spec fn spec_bits(self) -> Seq<bool> {
        match self {
            ChannelLayout::Independent { channels } => subframes_seq_bits(channels@),
            ChannelLayout::MidSide { mid, side } => mid.spec_bits() + side.spec_bits(),
            ChannelLayout::LeftSide { left, side } => left.spec_bits() + side.spec_bits(),
            ChannelLayout::SideRight { side, right } => side.spec_bits() + right.spec_bits(),
        }
    }

    pub open spec fn spec_bit_len(self) -> nat {
        match self {
            ChannelLayout::Independent { channels } => subframes_seq_bit_len(channels@),
            ChannelLayout::MidSide { mid, side } => mid.spec_bit_len() + side.spec_bit_len(),
            ChannelLayout::LeftSide { left, side } => left.spec_bit_len() + side.spec_bit_len(),
            ChannelLayout::SideRight { side, right } => side.spec_bit_len() + right.spec_bit_len(),
        }
    }

    /// Decides well-formedness at run time.
    pub fn is_well_formed(&self) -> (r: bool)
        ensures r == self.wf(),
    {
        match self {
            ChannelLayout::Independent { channels } => {
                let m = channels.len();
                let mut all_good = true;
                let mut i: usize = 0;
                while i < m
                    invariant
                        i <= m,
                        m == channels@.len(),
                        all_good <==> (forall|t: int| 0 <= t < i ==> #[trigger] channels@[t].wf()),
                    decreases m - i,
                {
                    if !channels[i].is_well_formed() {
                        all_good = false;
                    }
                    i = i + 1;
                }
                1 <= m && m <= 8 && all_good
            }
            ChannelLayout::MidSide { mid, side } => mid.is_well_formed() && side.is_well_formed(),
            ChannelLayout::LeftSide { left, side } => left.is_well_formed() && side.is_well_formed(),
            ChannelLayout::SideRight { side, right } => side.is_well_formed() && right.is_well_formed(),
        }
    }

    /// The exact number of bits all subframes take together.
    fn bit_cost_total(&self) -> (r: u64)
        requires self.wf(),
        ensures r == self.spec_bit_len(),
    {
        match self {
            ChannelLayout::Independent { channels } => {
                let m = channels.len();
                let mut total: u64 = 0;
                let mut i: usize = 0;
                while i < m
                    invariant
                        i <= m,
                        1 <= m == channels@.len() <= 8,
                        forall|t: int| 0 <= t < m ==> #[trigger] channels@[t].wf(),
                        total == subframes_seq_bit_len(channels@.take(i as int)),
                        total <= i * 0x200_0000_0000_0000,
                    decreases m - i,
                {
                    let c = channels[i].bit_cost();
                    proof {
                        lemma_subframes_seq_push(
                            channels@.take(i as int), channels@[i as int]);
                        assert(channels@.take(i as int).push(channels@[i as int])
                            =~= channels@.take(i + 1));
                        assert(i * 0x200_0000_0000_0000 + 0x200_0000_0000_0000
                            == (i + 1) * 0x200_0000_0000_0000) by (nonlinear_arith);
                        assert((i + 1) * 0x200_0000_0000_0000 <= 8 * 0x200_0000_0000_0000)
                            by (nonlinear_arith)
                            requires i + 1 <= 8;
                    }
                    total = total + c;
                    i = i + 1;
                }
                proof {
                    assert(channels@.take(m as int) =~= channels@);
                }
                total
            }
            ChannelLayout::MidSide { mid, side } => mid.bit_cost() + side.bit_cost(),
            ChannelLayout::LeftSide { left, side } => left.bit_cost() + side.bit_cost(),
            ChannelLayout::SideRight { side, right } => side.bit_cost() + right.bit_cost(),
        }
    }

    pub proof fn lemma_spec_bits_len(self)
        requires self.wf(),
        ensures self.spec_bits().len() == self.spec_bit_len(),
    {
        match self {
            ChannelLayout::Independent { channels } => {
                lemma_subframes_seq_len(channels@);
            }
            ChannelLayout::MidSide { mid, side } => {
                mid.lemma_spec_bits_len();
                side.lemma_spec_bits_len();
            }
            ChannelLayout::LeftSide { left, side } => {
                left.lemma_spec_bits_len();
                side.lemma_spec_bits_len();
            }
            ChannelLayout::SideRight { side, right } => {
                side.lemma_spec_bits_len();
                right.lemma_spec_bits_len();
            }
        }
    }
}

/// The four-bit block-size code; six and seven announce an explicit
/// field at the end of the header.
pub open spec fn spec_block_size_code(bs: u16) -> u8 {
    if bs == 192 { 0x1 }
    else if bs == 576 { 0x2 }
    else if bs == 1152 { 0x3 }
    else if bs == 2304 { 0x4 }
    else if bs == 4608 { 0x5 }
    else if bs == 256 { 0x8 }
    else if bs == 512 { 0x9 }
    else if bs == 1024 { 0xa }
    else if bs == 2048 { 0xb }
    else if bs == 4096 { 0xc }
    else if bs == 8192 { 0xd }
    else if bs == 16384 { 0xe }
    else if bs == 32768 { 0xf }
    else if bs <= 256 { 0x6 }
    else { 0x7 }
}

/// The four-bit sample-rate code; zero defers to the stream header.
pub open spec fn spec_sample_rate_code(sr: u32) -> u8 {
    if sr == 88200 { 0x1 }
    else if sr == 176400 { 0x2 }
    else if sr == 44100 { 0x9 }
    else { 0x0 }
}

/// The three-bit bit-depth code; zero defers to the stream header.
pub open spec fn spec_depth_code(bits: u8) -> u8 {
    if bits == 8 { 0x1 }
    else if bits == 12 { 0x2 }
    else if bits == 16 { 0x4 }
    else if bits == 20 { 0x5 }
    else if bits == 24 { 0x6 }
    else { 0x0 }
}

/// The four-bit block-size code for one block size.
fn block_size_code(bs: u16) -> (r: u8)
    ensures r == spec_block_size_code(bs),
{
    match bs {
        192 => 0x1,
        576 => 0x2,
        1152 => 0x3,
        2304 => 0x4,
        4608 => 0x5,
        256 => 0x8,
        512 => 0x9,
        1024 => 0xa,
        2048 => 0xb,
        4096 => 0xc,
        8192 => 0xd,
        16384 => 0xe,
        32768 => 0xf,
        x => if x <= 256 { 0x6 } else { 0x7 },
    }
}

/// The four-bit sample-rate code for one rate.
fn sample_rate_code(sr: u32) -> (r: u8)
    ensures r == spec_sample_rate_code(sr),
{
    match sr {
        88200 => 0x1,
        176400 => 0x2,
        44100 => 0x9,
        _ => 0x0,
    }
}

/// The three-bit bit-depth code for one depth.
fn depth_code(bits: u8) -> (r: u8)
    ensures r == spec_depth_code(bits),
{
    match bits {
        8 => 0x1,
        12 => 0x2,
        16 => 0x4,
        20 => 0x5,
        24 => 0x6,
        _ => 0x0,
    }
}

/// One frame's header fields, validated at construction.
pub struct FrameHeader {
    block_id: BlockId,
    actual_block_size: u16,
    sample_rate: u32,
    bits_per_sample: BitsPerSample,
}

impl FrameHeader {
    pub closed spec fn spec_block_id(self) -> BlockId {
        self.block_id
    }

    pub closed spec fn spec_block_size(self) -> u16 {
        self.actual_block_size
    }

    pub closed spec fn spec_sample_rate(self) -> u32 {
        self.sample_rate
    }

    pub closed spec fn spec_bits_per_sample(self) -> u8 {
        self.bits_per_sample.spec_inner()
    }

    pub open spec fn wf(self) -> bool {
        &&& self.spec_block_size() >= 16
        &&& 0 < self.spec_sample_rate() <= 655350
        &&& self.spec_block_id().spec_value() < 0x10_0000_0000
    }

    /// The header bits before the trailing CRC-8.
    pub open spec fn spec_body_bits(self, ch_code: u8) -> Seq<bool> {
        let bs_code = spec_block_size_code(self.spec_block_size());
        crate::bits::low_bits(0x7ffc, 15)
            + seq![self.spec_block_id().is_variable()]
            + crate::bits::low_bits(bs_code as u64, 4)
            + crate::bits::low_bits(spec_sample_rate_code(self.spec_sample_rate()) as u64, 4)
            + crate::bits::low_bits(ch_code as u64, 4)
            + crate::bits::low_bits(spec_depth_code(self.spec_bits_per_sample()) as u64, 3)
            + seq![false]
            + crate::bits::bytes_bits(ftf8_bytes(self.spec_block_id().spec_value()))
            + if bs_code == 6 {
                crate::bits::low_bits((self.spec_block_size() - 1) as u64, 8)
            } else if bs_code == 7 {
                crate::bits::low_bits((self.spec_block_size() - 1) as u64, 16)
            } else {
                Seq::empty()
            }
    }

    /// The whole header: its body followed by the CRC-8 of that body.
    pub open spec fn spec_bits(self, ch_code: u8) -> Seq<bool> {
        self.spec_body_bits(ch_code) + crate::bits::low_bits(
            crc8_of(self.spec_body_bits(ch_code)) as u64, 8)
    }

    /// Decides well-formedness at run time.
    pub fn is_well_formed(&self) -> (r: bool)
        ensures r == self.wf(),
    {
        let id = match self.block_id {
            BlockId::FixedStrategy { frame_number } => frame_number,
            BlockId::VariableStrategy { sample_number } => sample_number,
        };
        self.actual_block_size >= 16 && self.sample_rate > 0 && self.sample_rate <= 655350
            && id < 0x10_0000_0000
    }

    /// The header is short and always a whole number of bytes.
    pub proof fn lemma_spec_bits_len(self, ch_code: u8)
        requires self.wf(),
        ensures
            self.spec_bits(ch_code).len() <= 200,
            self.spec_bits(ch_code).len() % 8 == 0,
    {
        let body = self.spec_body_bits(ch_code);
        crate::bits::lemma_bytes_bits_len(ftf8_bytes(self.spec_block_id().spec_value()));
        assert(ftf8_bytes(self.spec_block_id().spec_value()).len()
            == ftf8_len(self.spec_block_id().spec_value()));
    }

    /// Serializes the header, byte-aligned, CRC-8 of the emitted bytes last.
    #[verifier::rlimit(100)]
    fn put_into<S: Sample>(&self, channel_layout: &ChannelLayout<S>, w: &mut crate::bitwriter::BitWriter)
        requires
            self.wf(),
            channel_layout.wf(),
            old(w).wf(),
            old(w)@.len() % 8 == 0,
            old(w)@.len() + 200 <= crate::bitwriter::bit_cap(),
        ensures
            final(w).wf(),
            final(w)@ == old(w)@ + self.spec_bits(channel_layout.spec_channel_code()),
            final(w)@.len() % 8 == 0,
    {
        proof {
            w.lemma_repr();
        }
        w.flush();
        let crc8_start = w.as_slice().len();
        proof {
            w.lemma_repr();
            assert(8 * crc8_start == w@.len());
        }
        let ghost ch_code = channel_layout.spec_channel_code();
        let ghost body = self.spec_body_bits(ch_code);
        w.put(15, 0x7ffc);
        let variable = match self.block_id {
            BlockId::VariableStrategy { .. } => true,
            BlockId::FixedStrategy { .. } => false,
        };
        w.put(1, if variable { 1 } else { 0 });
        proof {
            crate::bits::lemma_low_bits_flag(variable);
        }
        let block_size_bits: u8 = block_size_code(self.actual_block_size);
        w.put(4, block_size_bits as u64);
        let sample_rate_bits: u8 = sample_rate_code(self.sample_rate);
        w.put(4, sample_rate_bits as u64);
        let channel_bits: u8 = match channel_layout {
            ChannelLayout::Independent { channels } => (channels.len() - 1) as u8,
            ChannelLayout::LeftSide { .. } => 8,
            ChannelLayout::SideRight { .. } => 9,
            ChannelLayout::MidSide { .. } => 10,
        };
        w.put(4, channel_bits as u64);
        let depth_bits: u8 = depth_code(self.bits_per_sample.inner());
        w.put(3, depth_bits as u64);
        w.put(1, 0);
        proof {
            crate::bits::lemma_low_bits_flag(false);
        }
        let id_value = match self.block_id {
            BlockId::FixedStrategy { frame_number } => frame_number,
            BlockId::VariableStrategy { sample_number } => sample_number,
        };
        let encoded = ftf8_encode(id_value).unwrap();
        let ghost fixed_done = old(w)@ + crate::bits::low_bits(0x7ffc, 15) + seq![variable]
            + crate::bits::low_bits(block_size_bits as u64, 4)
            + crate::bits::low_bits(sample_rate_bits as u64, 4)
            + crate::bits::low_bits(channel_bits as u64, 4)
            + crate::bits::low_bits(depth_bits as u64, 3)
            + seq![false];
        proof {
            assert(w@ =~= fixed_done);
        }
        let m = encoded.len();
        let mut i: usize = 0;
        while i < m
            invariant
                i <= m,
                m == encoded@.len() <= 7,
                w.wf(),
                w@ == fixed_done + crate::bits::bytes_bits(encoded@.take(i as int)),
                fixed_done.len() + 80 <= crate::bitwriter::bit_cap(),
            decreases m - i,
        {
            proof {
                crate::bits::lemma_bytes_bits_len(encoded@.take(i as int));
            }
            w.put(8, encoded[i] as u64);
            proof {
                crate::bits::lemma_low_bits_byte(encoded@[i as int]);
                crate::bits::lemma_bytes_bits_push(encoded@.take(i as int), encoded@[i as int]);
                assert(encoded@.take(i as int).push(encoded@[i as int]) =~= encoded@.take(i + 1));
                assert(w@ =~= fixed_done + crate::bits::bytes_bits(encoded@.take(i + 1)));
            }
            i = i + 1;
        }
        proof {
            assert(encoded@.take(m as int) =~= encoded@);
            crate::bits::lemma_bytes_bits_len(encoded@);
        }
        if block_size_bits == 0x6 {
            w.put(8, (self.actual_block_size - 1) as u64);
        } else if block_size_bits == 0x7 {
            w.put(16, (self.actual_block_size - 1) as u64);
        }
        proof {
            assert(w@ =~= old(w)@ + body);
            assert(body.len() % 8 == 0);
        }
        w.flush();
        let s = w.as_slice();
        proof {
            w.lemma_repr();
            assert(8 * crc8_start <= 8 * w.flushed().len());
        }
        let sub = vstd::slice::slice_subrange(s, crc8_start, s.len());
        proof {
            w.lemma_repr();
            assert(w@.len() % 8 == 0);
            assert(w@.take(8 * w.flushed().len() as int) =~= w@);
            crate::bits::lemma_bytes_bits_skip(w.flushed(), crc8_start as int);
            assert(sub@ =~= w.flushed().skip(crc8_start as int));
            assert(crate::bits::bytes_bits(sub@) =~= w@.skip(8 * crc8_start));
            assert(w@.skip(8 * crc8_start) =~= body);
        }
        let digest = crc8(sub);
        w.put(8, digest as u64);
        proof {
            crate::bits::lemma_low_bits_byte(digest);
            assert(w@ =~= old(w)@ + self.spec_bits(ch_code));
        }
    }
}

/// One block's header and encoded channels.
pub struct Frame<S: Sample> {
    header: FrameHeader,
    subframes: ChannelLayout<S>,
}

impl<S: Sample> Frame<S> {
    pub closed spec fn spec_header(self) -> FrameHeader {
        self.header
    }

    pub closed spec fn spec_subframes(self) -> ChannelLayout<S> {
        self.subframes
    }

    pub open spec fn wf(self) -> bool {
        &&& self.spec_header().wf()
        &&& self.spec_subframes().wf()
        &&& self.spec_subframes().spec_bit_len() <= 0x1000_0000
    }

    /// Creates a frame for one block.  Only 16-bit streams are supported;
    /// the subframes are set separately, once chosen.
    pub fn new(
        block_size: BlockSize,
        stream_info: &MetadataBlockStreamInfo,
        first_sample: u64,
    ) -> (r: Option<Frame<S>>)
        requires
            first_sample / (stream_info.min_block_size.spec_inner() as u64) < 0x10_0000_0000,
        ensures
            r.is_some() <==> stream_info.bits_per_sample.spec_inner() == 16,
            r matches Some(f) ==> {
                &&& f.spec_header().wf()
                &&& f.spec_header().spec_block_size() == block_size.spec_inner()
                &&& f.spec_header().spec_sample_rate() == stream_info.sample_rate.spec_inner()
                &&& f.spec_header().spec_bits_per_sample() == 16
                &&& f.spec_header().spec_block_id() == (BlockId::FixedStrategy {
                    frame_number: (first_sample
                        / stream_info.min_block_size.spec_inner() as u64) as u64 })
                &&& (f.spec_subframes() matches ChannelLayout::Independent { channels }
                    && channels@ == Seq::<Subframe<S>>::empty())
            },
    {
        if stream_info.bits_per_sample.inner() == 16 {
            let frame_number = first_sample / (stream_info.min_block_size.inner() as u64);
            Some(Frame {
                header: FrameHeader {
                    block_id: BlockId::FixedStrategy { frame_number },
                    actual_block_size: block_size.inner(),
                    sample_rate: stream_info.sample_rate.inner(),
                    bits_per_sample: stream_info.bits_per_sample,
                },
                subframes: ChannelLayout::Independent { channels: Vec::new() },
            })
        } else {
            None
        }
    }

    /// Installs the chosen channel layout.
    pub fn set_subframes(&mut self, subframes: ChannelLayout<S>)
        ensures
            final(self).spec_header() == old(self).spec_header(),
            final(self).spec_subframes() == subframes,
    {
        self.subframes = subframes;
    }

    /// Decides well-formedness at run time, so that an unverified caller
    /// can test the serializer's precondition before serializing.
    pub fn is_well_formed(&self) -> (r: bool)
        ensures r == self.wf(),
    {
        if !self.header.is_well_formed() {
            return false;
        }
        if !self.subframes.is_well_formed() {
            return false;
        }
        self.subframes.bit_cost_total() <= 0x1000_0000
    }

    /// The bits of the whole frame: header, subframes, zero padding to the
    /// next byte boundary, and the CRC-16 of all of it.
    pub open spec fn spec_bits(self) -> Seq<bool> {
        let body = self.spec_header().spec_bits(self.spec_subframes().spec_channel_code())
            + self.spec_subframes().spec_bits();
        let padded = body + crate::bits::zero_bits(crate::bitwriter::align_pad(body.len()));
        padded + crate::bits::low_bits(crc16_of(padded) as u64, 16)
    }
}

impl Frame<i16> {
    /// Serializes the frame, byte-aligned, CRC-16 of the emitted bytes last.
    #[verifier::rlimit(100)]
    #[verifier::spinoff_prover]
    pub fn put_into(&self, w: &mut crate::bitwriter::BitWriter)
        requires
            self.wf(),
            old(w).wf(),
            old(w)@.len() % 8 == 0,
            old(w)@.len() + 0x1000_0000 + 400 <= crate::bitwriter::bit_cap(),
        ensures
            final(w).wf(),
            final(w)@ == old(w)@ + self.spec_bits(),
    {
        proof {
            w.lemma_repr();
        }
        w.flush();
        let crc16_start = w.as_slice().len();
        proof {
            w.lemma_repr();
            assert(8 * crc16_start == w@.len());
        }
        self.header.put_into(&self.subframes, w);
        let ghost header_done = w@;
        let ghost sub_total = self.spec_subframes().spec_bit_len();
        proof {
            self.spec_subframes().lemma_spec_bits_len();
            self.spec_header().lemma_spec_bits_len(self.spec_subframes().spec_channel_code());
        }
        match &self.subframes {
            ChannelLayout::Independent { channels } => {
                let m = channels.len();
                let mut i: usize = 0;
                while i < m
                    invariant
                        i <= m,
                        m == channels@.len() <= 8,
                        forall|t: int| 0 <= t < m ==> #[trigger] channels@[t].wf(),
                        w.wf(),
                        w@ == header_done + subframes_seq_bits(channels@.take(i as int)),
                        subframes_seq_bit_len(channels@) == sub_total,
                        header_done.len() + sub_total + 23 <= crate::bitwriter::bit_cap(),
                    decreases m - i,
                {
                    proof {
                        assert(forall|t: int| 0 <= t < i
                            ==> #[trigger] channels@.take(i as int)[t].wf());
                        lemma_subframes_seq_len(channels@.take(i as int));
                        assert(channels@ =~= channels@.take(i + 1) + channels@.skip(i + 1));
                        lemma_subframes_seq_len_concat(channels@.take(i + 1), channels@.skip(i + 1));
                        lemma_subframes_seq_push(channels@.take(i as int), channels@[i as int]);
                        assert(channels@.take(i as int).push(channels@[i as int])
                            =~= channels@.take(i + 1));
                    }
                    let sf = &channels[i];
                    sf.put_into(w);
                    proof {
                        assert(w@ =~= header_done + subframes_seq_bits(channels@.take(i + 1)));
                    }
                    i = i + 1;
                }
                proof {
                    assert(channels@.take(m as int) =~= channels@);
                }
            }
            ChannelLayout::MidSide { mid, side } => {
                proof {
                    mid.lemma_spec_bits_len();
                    side.lemma_spec_bits_len();
                }
                mid.put_into(w);
                side.put_into(w);
                proof {
                    assert(w@ =~= header_done + (mid.spec_bits() + side.spec_bits()));
                }
            }
            ChannelLayout::LeftSide { left, side } => {
                proof {
                    left.lemma_spec_bits_len();
                    side.lemma_spec_bits_len();
                }
                left.put_into(w);
                side.put_into(w);
                proof {
                    assert(w@ =~= header_done + (left.spec_bits() + side.spec_bits()));
                }
            }
            ChannelLayout::SideRight { side, right } => {
                proof {
                    side.lemma_spec_bits_len();
                    right.lemma_spec_bits_len();
                }
                side.put_into(w);
                right.put_into(w);
                proof {
                    assert(w@ =~= header_done + (side.spec_bits() + right.spec_bits()));
                }
            }
        }
        let ghost body = self.spec_header().spec_bits(self.spec_subframes().spec_channel_code())
            + self.spec_subframes().spec_bits();
        proof {
            assert(w@ =~= old(w)@ + body);
            assert(crate::bitwriter::align_pad(w@.len())
                == crate::bitwriter::align_pad(body.len()));
        }
        w.align_and_flush();
        let ghost padded = body + crate::bits::zero_bits(crate::bitwriter::align_pad(body.len()));
        proof {
            assert(w@ =~= old(w)@ + padded);
        }
        let s = w.as_slice();
        proof {
            w.lemma_repr();
            assert(8 * crc16_start <= 8 * w.flushed().len());
        }
        let sub = vstd::slice::slice_subrange(s, crc16_start, s.len());
        proof {
            w.lemma_repr();
            assert(w@.take(8 * w.flushed().len() as int) =~= w@);
            crate::bits::lemma_bytes_bits_skip(w.flushed(), crc16_start as int);
            assert(sub@ =~= w.flushed().skip(crc16_start as int));
            assert(crate::bits::bytes_bits(sub@) =~= w@.skip(8 * crc16_start));
            assert(w@.skip(8 * crc16_start) =~= padded);
        }
        let digest = crc16(sub);
        w.put(16, digest as u64);
        proof {
            assert(w@ =~= old(w)@ + self.spec_bits());
        }
    }
}

} // verus!
