//! MSB-first bit writer for entropy-coded segments, with 0xFF byte stuffing.
use vstd::arithmetic::power2::*;
use vstd::prelude::*;

use crate::error::Error;

verus! {

/// Bit `k` (counting from the least significant) of a non-negative value.
pub open spec fn bit_at(v: int, k: nat) -> bool {
    (v / pow2(k) as int) % 2 == 1
}

/// The `n` low bits of `v`, most significant first.
pub open spec fn bits_msb(v: int, n: nat) -> Seq<bool> {
    Seq::new(n, |i: int| bit_at(v, (n - 1 - i) as nat))
}

/// `n` one-bits (the padding written by a flush).
pub open spec fn ones(n: nat) -> Seq<bool> {
    Seq::new(n, |i: int| true)
}

/// Unsigned value of a bit sequence read most significant first.
pub open spec fn bits_value(s: Seq<bool>) -> int
    decreases s.len(),
{
    if s.len() == 0 {
        0
    } else {
        2 * bits_value(s.drop_last()) + if s.last() {
            1int
        } else {
            0int
        }
    }
}

/// The complete bytes of a bit sequence; a trailing partial byte is left out.
pub open spec fn pack_bytes(s: Seq<bool>) -> Seq<u8> {
    Seq::new(s.len() / 8, |k: int| bits_value(s.subrange(8 * k, 8 * k + 8)) as u8)
}

/// Byte stuffing: every 0xFF byte is followed by a 0x00 byte.
pub open spec fn stuff(b: Seq<u8>) -> Seq<u8>
    decreases b.len(),
{
    if b.len() == 0 {
        Seq::empty()
    } else {
        let p = stuff(b.drop_last());
        if b.last() == 0xFF {
            p.push(0xFFu8).push(0u8)
        } else {
            p.push(b.last())
        }
    }
}

/// Number of one-bits that a flush appends to a sequence of `len` bits.
pub open spec fn pad_len(len: nat) -> nat {
    ((8 - len % 8) % 8) as nat
}

/// Concatenation of bit sequences is associative.
pub proof fn lemma_concat_assoc(a: Seq<bool>, b: Seq<bool>, c: Seq<bool>)
    ensures
        a + b + c == a + (b + c),
{
    assert(a + b + c =~= a + (b + c));
}

proof fn lemma_bits_value_bound(s: Seq<bool>)
    ensures
        0 <= bits_value(s) < pow2(s.len()),
    decreases s.len(),
{
    if s.len() > 0 {
        lemma_bits_value_bound(s.drop_last());
        lemma_pow2_unfold(s.len());
    } else {
        lemma_pow2(0);
        reveal(vstd::arithmetic::power::pow);
    }
}

/// A bit writer collecting its bytes in memory.
pub type VecBitWriter = BitWriter;

/// Writes bits most significant first and collects the resulting bytes,
/// inserting a 0x00 after every 0xFF byte.
pub struct BitWriter {
    out: Vec<u8>,
    acc: u32,
    nbits: u32,
    emitted: Ghost<Seq<bool>>,
}

impl BitWriter {
    /// Every bit written so far, padding included.
    pub closed spec fn bits(&self) -> Seq<bool> {
        self.emitted@
    }

    pub closed spec fn wf(&self) -> bool {
        let s = self.emitted@;
        let full = 8 * (s.len() / 8);
        &&& self.out@ == stuff(pack_bytes(s))
        &&& self.nbits as int == s.len() % 8
        &&& self.acc as int == bits_value(s.subrange(full as int, s.len() as int))
    }

    /// The bytes produced so far: the complete bytes of `bits()`, stuffed.
    pub closed spec fn bytes(&self) -> Seq<u8> {
        self.out@
    }

    pub proof fn lemma_wf_bytes(&self)
        requires
            self.wf(),
        ensures
            self.bytes() == stuff(pack_bytes(self.bits())),
    {
    }

    /// An empty writer.
    pub fn new_vec() -> (r: Self)
        ensures
            r.wf(),
            r.bits() == Seq::<bool>::empty(),
    {
        let r = BitWriter { out: Vec::new(), acc: 0, nbits: 0, emitted: Ghost(Seq::empty()) };
        proof {
            assert(r.out@ =~= stuff(pack_bytes(Seq::<bool>::empty())));
            assert(Seq::<bool>::empty().subrange(0, 0) =~= Seq::<bool>::empty());
        }
        r
    }

    /// Number of output bytes produced so far.
    pub fn len(&self) -> (r: usize)
        ensures
            r == self.bytes().len(),
    {
        self.out.len()
    }

    /// Append one bit.
    pub fn put_bit(&mut self, b: bool)
        requires
            old(self).wf(),
        ensures
            final(self).wf(),
            final(self).bits() == old(self).bits().push(b),
    {
        let ghost s = self.emitted@;
        let ghost s2 = s.push(b);
        let ghost full = 8 * (s.len() / 8);
        proof {
            lemma_bits_value_bound(s.subrange(full as int, s.len() as int));
            if self.nbits < 7 {
                lemma_pow2_strictly_increases(self.nbits as nat, 7);
            }
            lemma2_to64();
            assert(s2.subrange(full as int, s2.len() as int) =~= s.subrange(
                full as int,
                s.len() as int,
            ).push(b));
            assert(s2.subrange(full as int, s2.len() as int).drop_last() =~= s.subrange(
                full as int,
                s.len() as int,
            ));
        }
        let v: u32 = self.acc * 2 + if b {
            1u32
        } else {
            0u32
        };
        self.emitted = Ghost(s2);
        if self.nbits == 7 {
            let byte = v as u8;
            self.out.push(byte);
            if byte == 0xFF {
                self.out.push(0);
            }
            self.acc = 0;
            self.nbits = 0;
            proof {
                let p = pack_bytes(s);
                let p2 = pack_bytes(s2);
                assert(s2.len() / 8 == s.len() / 8 + 1);
                assert forall|k: int| 0 <= k < p.len() implies p2[k] == p[k] by {
                    assert(s2.subrange(8 * k, 8 * k + 8) =~= s.subrange(8 * k, 8 * k + 8));
                }
                assert(p2.drop_last() =~= p);
                assert(p2.last() == byte);
                assert(s2.subrange(s2.len() as int, s2.len() as int) =~= Seq::<bool>::empty());
            }
        } else {
            self.acc = v;
            self.nbits = self.nbits + 1;
            proof {
                let p = pack_bytes(s);
                let p2 = pack_bytes(s2);
                assert(s2.len() / 8 == s.len() / 8);
                assert forall|k: int| 0 <= k < p.len() implies p2[k] == p[k] by {
                    assert(s2.subrange(8 * k, 8 * k + 8) =~= s.subrange(8 * k, 8 * k + 8));
                }
                assert(p2 =~= p);
            }
        }
    }

    /// Append the `size` low bits of `code`, most significant first.
    pub fn put_bits(&mut self, code: u32, size: u8) -> (r: Result<(), Error>)
        requires
            old(self).wf(),
            size <= 32,
        ensures
            final(self).wf(),
            final(self).bits() == old(self).bits() + bits_msb(code as int, size as nat),
            r.is_ok(),
    {
        let ghost s0 = self.bits();
        let mut i: u8 = size;
        while i > 0
            invariant
                self.wf(),
                i <= size <= 32,
                self.bits() == s0 + bits_msb(code as int, size as nat).take(size - i),
            decreases i,
        {
            i = i - 1;
            let sh: u32 = i as u32;
            let bit = (code >> sh) & 1u32 == 1u32;
            proof {
                vstd::bits::lemma_u32_shr_is_div(code, sh);
                let q: u32 = code >> sh;
                assert(q & 1u32 == q % 2) by (bit_vector);
                assert(bit == bit_at(code as int, i as nat));
                assert(bits_msb(code as int, size as nat).take(size - i) =~= bits_msb(
                    code as int,
                    size as nat,
                ).take(size - i - 1).push(bit_at(code as int, i as nat)));
            }
            self.put_bit(bit);
        }
        proof {
            assert(bits_msb(code as int, size as nat).take(size as int) =~= bits_msb(
                code as int,
                size as nat,
            ));
        }
        Ok(())
    }

    /// Complete the last partial byte with one-bits.
    pub fn flush(&mut self) -> (r: Result<(), Error>)
        requires
            old(self).wf(),
        ensures
            final(self).wf(),
            final(self).bits() == old(self).bits() + ones(pad_len(old(self).bits().len())),
            final(self).bits().len() % 8 == 0,
            r.is_ok(),
    {
        let ghost s0 = self.bits();
        let ghost pad = pad_len(s0.len());
        while self.nbits != 0
            invariant
                self.wf(),
                self.bits().len() <= s0.len() + pad,
                self.bits() == s0 + ones((self.bits().len() - s0.len()) as nat),
                self.bits().len() >= s0.len(),
                (s0.len() + pad) % 8 == 0,
            decreases s0.len() + pad - self.bits().len(),
        {
            proof {
                let k = (self.bits().len() - s0.len()) as nat;
                assert(k < pad);
                assert(ones(k + 1) =~= ones(k).push(true));
                assert(s0 + ones(k + 1) =~= (s0 + ones(k)).push(true));
            }
            self.put_bit(true);
        }
        proof {
            let k = (self.bits().len() - s0.len()) as nat;
            assert(k == pad);
        }
        Ok(())
    }

    /// The bytes produced so far.
    pub fn as_bytes(&self) -> (r: &Vec<u8>)
        ensures
            r@ == self.bytes(),
    {
        &self.out
    }

    /// Give up the writer and keep its bytes.
    pub fn into_bytes(self) -> (r: Vec<u8>)
        ensures
            r@ == self.bytes(),
    {
        self.out
    }
}

/// Every 0xFF byte of `s` is followed by a 0x00 byte.
pub open spec fn ff_followed_by_zero(s: Seq<u8>) -> bool {
    forall|i: int| 0 <= i < s.len() && #[trigger] s[i] == 0xFF ==> i + 1 < s.len() && s[i + 1] == 0
}

/// Stuffed bytes never hold a bare 0xFF: each is followed by 0x00.
pub proof fn lemma_stuff_ff_followed_by_zero(b: Seq<u8>)
    ensures
        ff_followed_by_zero(stuff(b)),
    decreases b.len(),
{
    if b.len() > 0 {
        let p = stuff(b.drop_last());
        lemma_stuff_ff_followed_by_zero(b.drop_last());
        let s = stuff(b);
        assert forall|i: int| 0 <= i < s.len() && #[trigger] s[i] == 0xFF implies i + 1 < s.len() && s[i
            + 1] == 0 by {
            if i < p.len() {
                assert(s[i] == p[i]);
                if i + 1 < p.len() {
                    assert(s[i + 1] == p[i + 1]);
                } else {
                    assert(p[i] == 0xFF);
                }
            }
        }
    }
}

/// The bytes of a bit writer hold no bare 0xFF: every 0xFF is followed by
/// a stuffed 0x00.
pub proof fn lemma_writer_bytes_stuffed(w: BitWriter)
    requires
        w.wf(),
    ensures
        ff_followed_by_zero(w.bytes()),
{
    w.lemma_wf_bytes();
    lemma_stuff_ff_followed_by_zero(pack_bytes(w.bits()));
}

/// The bytes of a bit writer are a function of the bits written: two
/// writers that were given the same bits hold the same bytes.
pub proof fn lemma_bytes_determined_by_bits(a: BitWriter, b: BitWriter)
    requires
        a.wf(),
        b.wf(),
        a.bits() == b.bits(),
    ensures
        a.bytes() == b.bytes(),
{
    a.lemma_wf_bytes();
    b.lemma_wf_bytes();
}

} // verus!
