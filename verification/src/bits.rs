//! Mathematical model of bit streams.
//!
//! The container format is defined bit by bit, most significant bit first
//! within every field.  All contracts in this crate speak about sequences of
//! booleans; this module defines how machine words and bytes map onto such
//! sequences and proves the algebraic facts the other modules rely on.

use vstd::prelude::*;

verus! {

/// Bit `i` (counting from the most significant end) of a 64-bit word.
pub open spec fn nth_bit64(v: u64, i: int) -> bool
    recommends 0 <= i < 64,
{
    (v >> ((63 - i) as u64)) & 1u64 == 1u64
}

/// The low `ct` bits of `v`, most significant first.
pub open spec fn low_bits(v: u64, ct: nat) -> Seq<bool>
    recommends ct <= 64,
{
    Seq::new(ct, |i: int| (v >> ((ct - 1 - i) as u64)) & 1u64 == 1u64)
}

/// The first `n` bits of a 64-bit scratch register, most significant first.
pub open spec fn prefix_bits64(v: u64, n: nat) -> Seq<bool>
    recommends n <= 64,
{
    Seq::new(n, |i: int| nth_bit64(v, i))
}

/// The eight bits of one byte, most significant first.
pub open spec fn byte_bits(b: u8) -> Seq<bool> {
    Seq::new(8, |i: int| (b >> ((7 - i) as u8)) & 1u8 == 1u8)
}

/// A byte sequence laid out as a bit sequence.
pub open spec fn bytes_bits(s: Seq<u8>) -> Seq<bool>
    decreases s.len(),
{
    if s.len() == 0 {
        Seq::empty()
    } else {
        byte_bits(s[0]) + bytes_bits(s.drop_first())
    }
}

/// `n` zero bits.
pub open spec fn zero_bits(n: nat) -> Seq<bool> {
    Seq::new(n, |i: int| false)
}

/// The unsigned value encoded by a bit sequence, most significant bit first.
pub open spec fn bits_val(s: Seq<bool>) -> nat
    decreases s.len(),
{
    if s.len() == 0 {
        0
    } else {
        bits_val(s.drop_last()) * 2 + if s.last() { 1nat } else { 0nat }
    }
}

pub proof fn lemma_bytes_bits_len(s: Seq<u8>)
    ensures bytes_bits(s).len() == 8 * s.len(),
    decreases s.len(),
{
    if s.len() > 0 {
        lemma_bytes_bits_len(s.drop_first());
    }
}

pub proof fn lemma_bytes_bits_concat(a: Seq<u8>, b: Seq<u8>)
    ensures bytes_bits(a + b) == bytes_bits(a) + bytes_bits(b),
    decreases a.len(),
{
    if a.len() == 0 {
        assert(a + b =~= b);
        assert(bytes_bits(a) + bytes_bits(b) =~= bytes_bits(b));
    } else {
        assert((a + b).drop_first() =~= a.drop_first() + b);
        lemma_bytes_bits_concat(a.drop_first(), b);
        assert(bytes_bits(a + b) =~= bytes_bits(a) + bytes_bits(b));
    }
}

pub proof fn lemma_bytes_bits_push(a: Seq<u8>, x: u8)
    ensures bytes_bits(a.push(x)) == bytes_bits(a) + byte_bits(x),
{
    assert(a.push(x) =~= a + seq![x]);
    lemma_bytes_bits_concat(a, seq![x]);
    let sx = seq![x];
    assert(sx.drop_first() =~= Seq::<u8>::empty());
    assert(bytes_bits(sx.drop_first()) == Seq::<bool>::empty());
    assert(bytes_bits(sx) == byte_bits(x) + bytes_bits(sx.drop_first()));
    assert(byte_bits(x) + Seq::<bool>::empty() =~= byte_bits(x));
}

pub proof fn lemma_bytes_bits_skip(s: Seq<u8>, k: int)
    requires 0 <= k <= s.len(),
    ensures bytes_bits(s).skip(8 * k) == bytes_bits(s.skip(k)),
{
    assert(s =~= s.take(k) + s.skip(k));
    lemma_bytes_bits_concat(s.take(k), s.skip(k));
    lemma_bytes_bits_len(s.take(k));
    lemma_bytes_bits_len(s.skip(k));
    assert(bytes_bits(s).skip(8 * k) =~= bytes_bits(s.skip(k)));
}

/// The value of a concatenation: the left part is shifted by the width of
/// the right part.
pub proof fn lemma_bits_val_concat(a: Seq<bool>, b: Seq<bool>)
    ensures bits_val(a + b) == bits_val(a) * vstd::arithmetic::power2::pow2(b.len()) + bits_val(b),
    decreases b.len(),
{
    vstd::arithmetic::power2::lemma2_to64();
    if b.len() == 0 {
        assert(a + b =~= a);
    } else {
        assert((a + b).drop_last() =~= a + b.drop_last());
        assert((a + b).last() == b.last());
        lemma_bits_val_concat(a, b.drop_last());
        let p = vstd::arithmetic::power2::pow2(b.drop_last().len());
        vstd::arithmetic::power2::lemma_pow2_adds(b.drop_last().len(), 1);
        assert(vstd::arithmetic::power2::pow2(b.len()) == p * 2);
        let bl: nat = if b.last() { 1nat } else { 0nat };
        assert(bits_val(a + b) == (bits_val(a) * p + bits_val(b.drop_last())) * 2 + bl);
        assert((bits_val(a) * p + bits_val(b.drop_last())) * 2 == bits_val(a) * p * 2
            + bits_val(b.drop_last()) * 2) by (nonlinear_arith);
        assert(bits_val(a) * p * 2 == bits_val(a) * (p * 2)) by (nonlinear_arith);
    }
}

/// Reading back the low `ct` bits of a word recovers the word modulo `2^ct`.
pub proof fn lemma_low_bits_val(v: u64, ct: nat)
    requires ct <= 64,
    ensures bits_val(low_bits(v, ct)) == (v as nat) % vstd::arithmetic::power2::pow2(ct),
    decreases ct,
{
    vstd::arithmetic::power2::lemma2_to64();
    if ct == 0 {
    } else {
        let s = low_bits(v, ct);
        let half = v >> 1u64;
        let shorter = low_bits(half, (ct - 1) as nat);
        assert(s.drop_last() =~= shorter) by {
            assert forall|i: int| 0 <= i < ct - 1 implies #[trigger] s.drop_last()[i] == shorter[i]
            by {
                let k = (ct - 2 - i) as u64;
                assert(((v >> 1u64) >> k) & 1u64 == (v >> vstd::prelude::add(k, 1u64)) & 1u64)
                    by (bit_vector)
                    requires k < 63u64,
                ;
                assert(vstd::prelude::add(k, 1u64) == (ct - 1 - i) as u64);
            }
        }
        lemma_low_bits_val(half, (ct - 1) as nat);
        assert(s.last() == ((v >> 0u64) & 1u64 == 1u64));
        assert(v >> 0u64 == v) by (bit_vector);
        assert(half as nat == (v as nat) / 2) by {
            assert(v >> 1u64 == v / 2u64) by (bit_vector);
        }
        let p1 = vstd::arithmetic::power2::pow2((ct - 1) as nat);
        vstd::arithmetic::power2::lemma_pow2_adds((ct - 1) as nat, 1);
        assert(bits_val(s) == ((v as nat) / 2 % p1) * 2 + (v as nat) % 2) by {
            assert((v & 1u64 == 1u64) <==> v % 2u64 == 1u64) by (bit_vector);
            assert((v as nat) % 2 == (v % 2u64) as nat);
        }
        vstd::arithmetic::power2::lemma_pow2_pos((ct - 1) as nat);
        lemma_div_mod_split(v as nat, p1);
    }
}

/// `x % (2p) == (x / 2 % p) * 2 + x % 2`.
proof fn lemma_div_mod_split(x: nat, p: nat)
    requires p >= 1,
    ensures (x / 2 % p) * 2 + x % 2 == x % (p * 2),
{
    let q = x / 2;
    let r = x % 2;
    assert(x == q * 2 + r) by (nonlinear_arith) requires q == x / 2 && r == x % 2;
    let qq = q / p;
    let qr = q % p;
    assert(q == qq * p + qr && qr < p) by (nonlinear_arith) requires p >= 1 && qq == q / p && qr == q % p;
    assert(x == qq * (p * 2) + (qr * 2 + r)) by (nonlinear_arith)
        requires x == q * 2 + r && q == qq * p + qr;
    assert(x % (p * 2) == qr * 2 + r) by (nonlinear_arith)
        requires x == qq * (p * 2) + (qr * 2 + r) && qr < p && r < 2 && p >= 1;
}

/// The low `ct` bits of zero are `ct` zero bits.
pub proof fn lemma_low_bits_zero(ct: nat)
    requires ct <= 64,
    ensures low_bits(0u64, ct) == zero_bits(ct),
{
    assert forall|i: int| 0 <= i < ct implies !(#[trigger] low_bits(0u64, ct)[i]) by {
        let k = (ct - 1 - i) as u64;
        assert((0u64 >> k) & 1u64 == 0u64) by (bit_vector);
    }
    assert(low_bits(0u64, ct) =~= zero_bits(ct));
}

/// The low `ct` bits of one are `ct - 1` zero bits and a final one bit.
pub proof fn lemma_low_bits_one(ct: nat)
    requires 1 <= ct <= 64,
    ensures low_bits(1u64, ct) == zero_bits((ct - 1) as nat) + seq![true],
{
    assert forall|i: int| 0 <= i < ct implies
        #[trigger] low_bits(1u64, ct)[i] == (i == ct - 1)
    by {
        let k = (ct - 1 - i) as u64;
        assert(((1u64 >> k) & 1u64 == 1u64) <==> k == 0) by (bit_vector);
    }
    assert(low_bits(1u64, ct) =~= zero_bits((ct - 1) as nat) + seq![true]);
}

/// A one-bit field holds exactly its flag.
pub proof fn lemma_low_bits_flag(b: bool)
    ensures low_bits(if b { 1u64 } else { 0u64 }, 1) == seq![b],
{
    if b {
        lemma_low_bits_one(1);
        assert(zero_bits(0) + seq![true] =~= seq![true]);
    } else {
        lemma_low_bits_zero(1);
        assert(zero_bits(1) =~= seq![false]);
    }
}

/// An eight-bit field holds exactly the byte's bits.
pub proof fn lemma_low_bits_byte(b: u8)
    ensures low_bits(b as u64, 8) == byte_bits(b),
{
    assert forall|i: int| 0 <= i < 8 implies
        #[trigger] low_bits(b as u64, 8)[i] == byte_bits(b)[i]
    by {
        let k = (7 - i) as u64;
        assert((((b as u64) >> k) & 1u64 == 1u64) <==> ((b >> (k as u8)) & 1u8 == 1u8))
            by (bit_vector)
            requires k < 8u64,
        ;
    }
    assert(low_bits(b as u64, 8) =~= byte_bits(b));
}

/// A sequence of bit fields, each a width of at most 64 and a value,
/// packed back to back, most significant bit of each field first.  This is
/// exactly what consecutive `put` calls of the bit writer produce.
pub open spec fn packed_bits(fields: Seq<(nat, u64)>) -> Seq<bool>
    decreases fields.len(),
{
    if fields.len() == 0 {
        Seq::empty()
    } else {
        packed_bits(fields.drop_last()) + low_bits(fields.last().1, fields.last().0)
    }
}

/// One more `put` call extends the packed stream by that field's bits.
pub proof fn lemma_packed_bits_push(fields: Seq<(nat, u64)>, w: nat, v: u64)
    ensures packed_bits(fields.push((w, v))) == packed_bits(fields) + low_bits(v, w),
{
    assert(fields.push((w, v)).drop_last() =~= fields);
    assert(fields.push((w, v)).last() == (w, v));
}

pub proof fn lemma_packed_bits_concat(a: Seq<(nat, u64)>, b: Seq<(nat, u64)>)
    ensures packed_bits(a + b) == packed_bits(a) + packed_bits(b),
    decreases b.len(),
{
    if b.len() == 0 {
        assert(a + b =~= a);
        assert(packed_bits(a) + packed_bits(b) =~= packed_bits(a));
    } else {
        assert((a + b).drop_last() =~= a + b.drop_last());
        lemma_packed_bits_concat(a, b.drop_last());
        assert(packed_bits(a + b) =~= packed_bits(a) + packed_bits(b));
    }
}

/// Writing any sequence of bit fields and reading the resulting stream
/// back field by field recovers every value exactly, wherever the stream
/// ends up: the law holds for any extension of the packed bits, such as
/// the zero-padded bytes the writer finally hands out.
pub proof fn lemma_packed_fields_recoverable(fields: Seq<(nat, u64)>, stream: Seq<bool>)
    requires
        packed_bits(fields).len() <= stream.len(),
        stream.take(packed_bits(fields).len() as int) == packed_bits(fields),
        forall|i: int| 0 <= i < fields.len()
            ==> (#[trigger] fields[i]).0 <= 64
                && (fields[i].1 as nat) < vstd::arithmetic::power2::pow2(fields[i].0),
    ensures
        forall|i: int| 0 <= i < fields.len() ==> {
            let off = packed_bits(fields.take(i)).len() as int;
            bits_val(stream.subrange(off, off + (#[trigger] fields[i]).0 as int))
                == fields[i].1
        },
{
    assert forall|i: int| 0 <= i < fields.len() implies {
        let off = packed_bits(fields.take(i)).len() as int;
        bits_val(stream.subrange(off, off + (#[trigger] fields[i]).0 as int))
            == fields[i].1
    } by {
        let w = fields[i].0;
        let v = fields[i].1;
        let head = fields.take(i + 1);
        let tail = fields.skip(i + 1);
        assert(fields =~= head + tail);
        lemma_packed_bits_concat(head, tail);
        assert(head.drop_last() =~= fields.take(i));
        assert(head.last() == fields[i]);
        assert(packed_bits(head) == packed_bits(fields.take(i)) + low_bits(v, w));
        let off = packed_bits(fields.take(i)).len() as int;
        assert(packed_bits(fields) =~= packed_bits(fields.take(i)) + low_bits(v, w)
            + packed_bits(tail));
        assert(packed_bits(fields).len() == off + w + packed_bits(tail).len());
        assert(stream.subrange(off, off + w as int) =~= low_bits(v, w)) by {
            assert forall|t: int| 0 <= t < w implies
                #[trigger] stream.subrange(off, off + w as int)[t] == low_bits(v, w)[t]
            by {
                assert(0 <= off + t < packed_bits(fields).len());
                assert((packed_bits(fields.take(i)) + low_bits(v, w)
                    + packed_bits(tail))[off + t] == low_bits(v, w)[t]);
                assert(stream.take(packed_bits(fields).len() as int) == packed_bits(fields));
                assert(stream.take(packed_bits(fields).len() as int)[off + t]
                    == stream[off + t]);
            }
        }
        lemma_low_bits_val(v, w);
        vstd::arithmetic::power2::lemma_pow2_pos(w);
        vstd::arithmetic::div_mod::lemma_small_mod(
            v as nat, vstd::arithmetic::power2::pow2(w));
        assert((v as nat) % vstd::arithmetic::power2::pow2(w) == v as nat);
    }
}

} // verus!
