//! A writer that packs arbitrary-width bit fields into a byte buffer.
//!
//! Bits are accumulated most-significant-first in a 64-bit scratch register;
//! complete bytes are moved into a growable byte buffer.  The abstract state
//! of a writer is the sequence of all bits written so far (`self@`), together
//! with the prefix that has already been flushed into whole bytes
//! (`self.flushed()`).

use vstd::prelude::*;

use crate::bits::{byte_bits, bytes_bits, low_bits, nth_bit64, prefix_bits64, zero_bits};
use crate::bits::{lemma_bytes_bits_concat, lemma_bytes_bits_len, lemma_bytes_bits_push};

verus! {

/// The contents of an outside byte buffer, as a sequence of bytes.
pub uninterp spec fn byte_buf_contents(b: bytes::BytesMut) -> Seq<u8>;

#[verifier::external_type_specification]
#[verifier::external_body]
pub struct ExBytesMut(bytes::BytesMut);

/// Relies on `bytes::BytesMut::new`: a freshly created buffer is empty.
#[verifier::external_body]
fn byte_buf_new() -> (r: bytes::BytesMut)
    ensures
        byte_buf_contents(r) == Seq::<u8>::empty(),
{
    bytes::BytesMut::new()
}

/// Relies on `bytes::BytesMut::with_capacity`: the buffer starts empty,
/// whatever capacity was reserved.
#[verifier::external_body]
fn byte_buf_with_capacity(n: usize) -> (r: bytes::BytesMut)
    ensures
        byte_buf_contents(r) == Seq::<u8>::empty(),
{
    bytes::BytesMut::with_capacity(n)
}

/// Relies on `bytes::BytesMut::extend_from_slice`: the slice is appended to
/// the buffer's contents.  The length bound keeps the new length far from
/// `usize` overflow, on which the outside call would panic.
#[verifier::external_body]
fn byte_buf_extend(b: &mut bytes::BytesMut, s: &[u8])
    requires
        byte_buf_contents(*old(b)).len() + s@.len() <= 0xffff_ffff,
    ensures
        byte_buf_contents(*final(b)) == byte_buf_contents(*old(b)) + s@,
{
    b.extend_from_slice(s);
}

/// Relies on `<bytes::BytesMut as AsRef<[u8]>>::as_ref`: the returned slice
/// is exactly the buffer's contents.
#[verifier::external_body]
fn byte_buf_as_slice(b: &bytes::BytesMut) -> (r: &[u8])
    ensures
        r@ == byte_buf_contents(*b),
{
    b.as_ref()
}

/// Relies on `<Vec<u8> as From<bytes::BytesMut>>::from`: the vector holds
/// exactly the buffer's contents.
#[verifier::external_body]
fn byte_buf_into_vec(b: bytes::BytesMut) -> (r: Vec<u8>)
    ensures
        r@ == byte_buf_contents(b),
{
    Vec::from(b)
}

/// Upper bound on the number of bits one writer may accumulate.
pub open spec fn bit_cap() -> nat {
    0x4_0000_0000
}

/// Zero bits needed to reach the next byte boundary after `n` bits.
pub open spec fn align_pad(n: nat) -> nat {
    ((8 - n % 8) % 8) as nat
}

/// Bits `[p, 64)` of the scratch register are all clear.
spec fn scratch_ok(s: u64, p: int) -> bool {
    forall|i: int| p <= i < 64 ==> !nth_bit64(s, i)
}

/// Byte `j` of the scratch register, counting from the most significant end.
spec fn scratch_byte(s: u64, j: int) -> u8 {
    (s >> ((56 - 8 * j) as u64)) as u8
}

pub struct BitWriter {
    buf: bytes::BytesMut,
    scratch: u64,
    scratchptr: usize,
}

impl View for BitWriter {
    type V = Seq<bool>;

    closed spec fn view(&self) -> Seq<bool> {
        bytes_bits(byte_buf_contents(self.buf)) + prefix_bits64(self.scratch, self.scratchptr as nat)
    }
}

proof fn lemma_zero_scratch(p: int)
    ensures
        scratch_ok(0u64, p),
        prefix_bits64(0u64, 0) == Seq::<bool>::empty(),
{
    assert forall|i: int| p <= i < 64 implies !nth_bit64(0u64, i) by {
        let k = (63 - i) as u64;
        assert((0u64 >> k) & 1u64 == 0u64) by (bit_vector);
    }
    assert(prefix_bits64(0u64, 0) =~= Seq::<bool>::empty());
}

proof fn lemma_set_bit_other(s: u64, p: u64, i: u64)
    by (bit_vector)
    requires
        p < 64,
        i < 64,
        i != p,
    ensures
        ((s | (1u64 << ((63 - p) as u64))) >> ((63 - i) as u64)) & 1u64
            == (s >> ((63 - i) as u64)) & 1u64,
{
}

proof fn lemma_set_bit_self(s: u64, p: u64)
    by (bit_vector)
    requires
        p < 64,
    ensures
        ((s | (1u64 << ((63 - p) as u64))) >> ((63 - p) as u64)) & 1u64 == 1u64,
{
}

proof fn lemma_byte_extract(s: u64, j: u64, b: u64)
    by (bit_vector)
    requires
        j < 8,
        b < 8,
    ensures
        ((((s >> ((56 - 8 * j) as u64)) as u8) >> ((7 - b) as u8)) & 1u8 == 1u8)
            <==> ((s >> ((63 - (8 * j + b)) as u64)) & 1u64 == 1u64),
{
}

proof fn lemma_shift_left_bits(s: u64, m: u64, i: u64)
    by (bit_vector)
    requires
        m < 64,
        i < 64,
    ensures
        (((s << m) >> ((63 - i) as u64)) & 1u64 == 1u64)
            <==> (i + m < 64 && (s >> ((63 - (i + m)) as u64)) & 1u64 == 1u64),
{
}

/// The first `8 * k` scratch bits, read back through the extracted bytes.
proof fn lemma_scratch_bytes_bits(s: u64, k: int)
    requires
        0 <= k <= 8,
    ensures
        bytes_bits(Seq::new(k as nat, |j: int| scratch_byte(s, j)))
            == Seq::new((8 * k) as nat, |i: int| nth_bit64(s, i)),
    decreases k,
{
    let bs = Seq::new(k as nat, |j: int| scratch_byte(s, j));
    if k == 0 {
        assert(bs =~= Seq::<u8>::empty());
        assert(bytes_bits(bs) =~= Seq::new(0, |i: int| nth_bit64(s, i)));
    } else {
        let prev = Seq::new((k - 1) as nat, |j: int| scratch_byte(s, j));
        lemma_scratch_bytes_bits(s, k - 1);
        assert(bs =~= prev.push(scratch_byte(s, k - 1)));
        lemma_bytes_bits_push(prev, scratch_byte(s, k - 1));
        let whole = Seq::new((8 * k) as nat, |i: int| nth_bit64(s, i));
        assert forall|i: int| 0 <= i < 8 implies
            #[trigger] byte_bits(scratch_byte(s, k - 1))[i] == nth_bit64(s, 8 * (k - 1) + i)
        by {
            lemma_byte_extract(s, (k - 1) as u64, i as u64);
        }
        assert(bytes_bits(bs) =~= whole);
    }
}

impl BitWriter {
    /// All bits beyond the cursor are clear and the cursor leaves room in the
    /// scratch register for at least one more bit.
    pub closed spec fn wf(&self) -> bool {
        self.scratchptr < 64 && scratch_ok(self.scratch, self.scratchptr as int)
    }

    /// The bytes that have been moved out of the scratch register so far.
    pub closed spec fn flushed(&self) -> Seq<u8> {
        byte_buf_contents(self.buf)
    }

    /// The number of bits still waiting in the scratch register.
    pub closed spec fn pending(&self) -> nat {
        self.scratchptr as nat
    }

    /// How the two views line up: the flushed bytes are an exact byte-aligned
    /// prefix of the bit stream.
    pub proof fn lemma_repr(&self)
        ensures
            self@.len() == 8 * self.flushed().len() + self.pending(),
            self@.take(8 * self.flushed().len() as int) == bytes_bits(self.flushed()),
    {
        lemma_bytes_bits_len(self.flushed());
        assert(self@.take(8 * self.flushed().len() as int) =~= bytes_bits(self.flushed()));
    }

    pub fn new() -> (r: BitWriter)
        ensures
            r.wf(),
            r@ == Seq::<bool>::empty(),
            r.pending() == 0,
    {
        let r = BitWriter { buf: byte_buf_new(), scratch: 0, scratchptr: 0 };
        proof {
            lemma_zero_scratch(0);
            assert(r@ =~= Seq::<bool>::empty());
        }
        r
    }

    /// Same as `new`; the capacity is only a reservation.
    pub fn with_capacity(n: usize) -> (r: BitWriter)
        ensures
            r.wf(),
            r@ == Seq::<bool>::empty(),
            r.pending() == 0,
    {
        let r = BitWriter { buf: byte_buf_with_capacity(n), scratch: 0, scratchptr: 0 };
        proof {
            lemma_zero_scratch(0);
            assert(r@ =~= Seq::<bool>::empty());
        }
        r
    }

    /// Appends the low `ct` bits of `value`, most significant bit first.
    pub fn put(&mut self, ct: usize, value: u64)
        requires
            old(self).wf(),
            ct <= 64,
            old(self)@.len() + ct <= bit_cap(),
        ensures
            final(self).wf(),
            final(self)@ == old(self)@ + low_bits(value, ct as nat),
            final(self).pending() == (old(self).pending() + ct) % 64,
    {
        let ghost complete = low_bits(value, ct as nat);
        let mut i: usize = 0;
        while i < ct
            invariant
                self.wf(),
                i <= ct,
                ct <= 64,
                complete == low_bits(value, ct as nat),
                self@ == old(self)@ + complete.take(i as int),
                self.pending() == (old(self).pending() + i) % 64,
                old(self)@.len() + ct <= bit_cap(),
            decreases ct - i,
        {
            let bit = (value >> ((ct - 1 - i) as u64)) & 1u64;
            let ghost bit_set = complete[i as int];
            assert(bit_set == (bit == 1u64));
            let ghost s0 = self.scratch;
            let ghost p0 = self.scratchptr as int;
            if bit == 1 {
                self.scratch = self.scratch | (1u64 << ((63 - self.scratchptr) as u64));
                proof {
                    assert forall|j: int| 0 <= j < 64 && j != p0 implies
                        #[trigger] nth_bit64(self.scratch, j) == nth_bit64(s0, j)
                    by {
                        lemma_set_bit_other(s0, p0 as u64, j as u64);
                    }
                    lemma_set_bit_self(s0, p0 as u64);
                    assert(nth_bit64(self.scratch, p0));
                }
            } else {
                proof {
                    assert(!nth_bit64(self.scratch, p0));
                }
            }
            proof {
                assert(scratch_ok(self.scratch, p0 + 1));
                assert(prefix_bits64(self.scratch, (p0 + 1) as nat)
                    =~= prefix_bits64(s0, p0 as nat).push(bit_set));
                assert(bytes_bits(byte_buf_contents(self.buf)) + prefix_bits64(self.scratch, (p0 + 1) as nat)
                    =~= self@.push(bit_set));
                assert(complete.take(i as int).push(bit_set) =~= complete.take(i + 1));
                assert((old(self)@ + complete.take(i as int)).push(bit_set)
                    =~= old(self)@ + complete.take(i + 1));
            }
            self.scratchptr = self.scratchptr + 1;
            if self.scratchptr == 64 {
                self.flush_bytes();
            }
            proof {
                assert(self.pending() == (old(self).pending() + i + 1) % 64) by {
                    assert((old(self).pending() + i) % 64 == p0);
                    if p0 + 1 == 64 {
                        vstd::arithmetic::div_mod::lemma_add_mod_noop(
                            (old(self).pending() + i) as int, 1, 64);
                    }
                }
            }
            i = i + 1;
        }
        proof {
            assert(complete.take(ct as int) =~= complete);
        }
    }

    /// Moves every complete byte out of the scratch register into the buffer,
    /// keeping any partial byte at the front of the register.
    fn flush_bytes(&mut self)
        requires
            old(self).scratchptr <= 64,
            scratch_ok(old(self).scratch, old(self).scratchptr as int),
            old(self)@.len() <= bit_cap(),
        ensures
            final(self).wf(),
            final(self)@ == old(self)@,
            final(self).pending() == old(self).pending() % 8,
    {
        let to_write = self.scratchptr / 8;
        let rem = self.scratchptr % 8;
        let ghost s0 = self.scratch;
        let ghost p0 = self.scratchptr as int;
        let ghost buf0 = byte_buf_contents(self.buf);
        let mut tmp: Vec<u8> = Vec::new();
        let mut k: usize = 0;
        while k < to_write
            invariant
                k <= to_write,
                to_write <= 8,
                self.scratch == s0,
                tmp@ == Seq::new(k as nat, |j: int| scratch_byte(s0, j)),
            decreases to_write - k,
        {
            let b = (self.scratch >> ((56 - 8 * k) as u64)) as u8;
            tmp.push(b);
            proof {
                assert(tmp@ =~= Seq::new((k + 1) as nat, |j: int| scratch_byte(s0, j)));
            }
            k = k + 1;
        }
        proof {
            lemma_bytes_bits_len(buf0);
            assert(8 * buf0.len() + p0 == self@.len());
        }
        byte_buf_extend(&mut self.buf, tmp.as_slice());
        if to_write == 8 {
            self.scratch = 0;
        } else if to_write > 0 {
            self.scratch = self.scratch << ((8 * to_write) as u64);
        }
        self.scratchptr = rem;
        proof {
            let m = 8 * to_write as int;
            // New scratch bits are the old bits shifted down by `m`.
            if to_write == 8 {
                lemma_zero_scratch(0);
            } else if to_write > 0 {
                assert forall|i: int| 0 <= i < 64 implies
                    #[trigger] nth_bit64(self.scratch, i)
                        == (i + m < 64 && nth_bit64(s0, i + m))
                by {
                    lemma_shift_left_bits(s0, m as u64, i as u64);
                }
            }
            assert(scratch_ok(self.scratch, rem as int));
            lemma_scratch_bytes_bits(s0, to_write as int);
            lemma_bytes_bits_concat(buf0, tmp@);
            assert(prefix_bits64(s0, p0 as nat).take(m)
                =~= Seq::new((8 * to_write) as nat, |i: int| nth_bit64(s0, i)));
            assert(prefix_bits64(s0, p0 as nat).skip(m) =~= prefix_bits64(self.scratch, rem as nat));
            assert(prefix_bits64(s0, p0 as nat)
                =~= prefix_bits64(s0, p0 as nat).take(m) + prefix_bits64(s0, p0 as nat).skip(m));
            assert(self@ =~= bytes_bits(buf0) + prefix_bits64(s0, p0 as nat));
        }
    }

    /// Flushes all complete bytes; the bit stream itself is unchanged.
    pub fn flush(&mut self)
        requires
            old(self).wf(),
            old(self)@.len() <= bit_cap(),
        ensures
            final(self).wf(),
            final(self)@ == old(self)@,
            final(self).pending() == old(self).pending() % 8,
    {
        self.flush_bytes();
    }

    /// Pads with zero bits to the next byte boundary, then flushes, so that
    /// every written bit now sits in the buffer.
    pub fn align_and_flush(&mut self)
        requires
            old(self).wf(),
            old(self)@.len() + 7 <= bit_cap(),
        ensures
            final(self).wf(),
            final(self)@ == old(self)@ + zero_bits(align_pad(old(self)@.len())),
            final(self).pending() == 0,
            final(self)@.len() % 8 == 0,
            bytes_bits(final(self).flushed()) == final(self)@,
    {
        proof {
            self.lemma_repr();
        }
        let rem = self.scratchptr % 8;
        if rem != 0 {
            let ghost n = self@.len();
            self.put(8 - rem, 0);
            proof {
                assert forall|i: int| 0 <= i < 8 - rem implies
                    !(#[trigger] low_bits(0u64, (8 - rem) as nat)[i])
                by {
                    let k = (8 - rem - 1 - i) as u64;
                    assert((0u64 >> k) & 1u64 == 0u64) by (bit_vector);
                }
                assert(low_bits(0u64, (8 - rem) as nat) =~= zero_bits(align_pad(n)));
            }
        } else {
            proof {
                assert(self@ + zero_bits(0) =~= self@);
            }
        }
        self.flush_bytes();
        proof {
            self.lemma_repr();
            assert(self@.take(8 * self.flushed().len() as int) =~= self@);
        }
    }

    /// Aligns, flushes, and hands back the finished byte buffer.
    pub fn finish(self) -> (r: Vec<u8>)
        requires
            self.wf(),
            self@.len() + 7 <= bit_cap(),
        ensures
            bytes_bits(r@) == self@ + zero_bits(align_pad(self@.len())),
    {
        let mut this = self;
        this.align_and_flush();
        let BitWriter { buf, scratch: _, scratchptr: _ } = this;
        byte_buf_into_vec(buf)
    }

    /// The bytes flushed so far, for checksum computation over a byte range.
    pub fn as_slice(&self) -> (r: &[u8])
        ensures
            r@ == self.flushed(),
    {
        byte_buf_as_slice(&self.buf)
    }
}

} // verus!
