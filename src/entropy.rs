//! Baseline Huffman entropy coding of quantized blocks (ITU-T T.81 F.1.2):
//! differential DC coding and run-length AC coding in zigzag order.
use vstd::arithmetic::power2::*;
use vstd::prelude::*;

use crate::bitstream::{bits_msb, lemma_concat_assoc, BitWriter};
use crate::consts::{DCTSIZE2, JPEG_NATURAL_ORDER};
use crate::error::Error;
use crate::huffman::DerivedTable;

verus! {

/// End-of-block symbol (run 0, size 0).
pub const EOB: u8 = 0x00;

/// Sixteen-zero run symbol.
pub const ZRL: u8 = 0xF0;

/// Number of bits of a non-negative value: 0 for 0, else the position of
/// its highest one bit plus one.
pub open spec fn nbits_of(a: nat) -> nat
    decreases a,
{
    if a == 0 {
        0
    } else {
        1 + nbits_of(a / 2)
    }
}

/// Absolute value.
pub open spec fn abs_int(v: int) -> nat {
    if v < 0 {
        (-v) as nat
    } else {
        v as nat
    }
}

/// Size category of a coefficient or difference.
pub open spec fn category(v: int) -> nat {
    nbits_of(abs_int(v))
}

/// The `category(v)` bits sent after a symbol: `v` itself when positive,
/// else `v - 1` in two's complement, truncated to the category.
pub open spec fn mag_value(v: int) -> int {
    if v < 0 {
        v - 1 + pow2(category(v)) as int
    } else {
        v
    }
}

/// Bits of the magnitude part of `v`.
pub open spec fn mag_bits(v: int) -> Seq<bool> {
    bits_msb(mag_value(v), category(v))
}

/// Huffman code of symbol `s`.
pub open spec fn sym_bits(t: DerivedTable, s: int) -> Seq<bool> {
    bits_msb(t.code_of(s), t.size_of(s) as nat)
}

/// Difference of two `i16` values, wrapped to `i16` as `wrapping_sub` does.
pub open spec fn wrap16(x: int) -> int {
    if x > 32767 {
        x - 65536
    } else if x < -32768 {
        x + 65536
    } else {
        x
    }
}

/// DC coding of a difference: its category symbol, then its magnitude bits.
pub open spec fn dc_bits(diff: int, t: DerivedTable) -> Seq<bool> {
    sym_bits(t, category(diff) as int) + mag_bits(diff)
}

/// A non-zero AC coefficient after `run` zeros: one ZRL per full sixteen
/// zeros, then the `(run, size)` symbol and the magnitude bits.
pub open spec fn nonzero_bits(t: DerivedTable, run: int, c: int) -> Seq<bool>
    decreases run,
{
    if run >= 16 {
        sym_bits(t, 0xF0) + nonzero_bits(t, run - 16, c)
    } else {
        sym_bits(t, run * 16 + category(c) as int) + mag_bits(c)
    }
}

/// Coefficient `k` (zigzag position) of a block in natural order.
pub open spec fn zz(block: Seq<i16>, k: int) -> int {
    block[JPEG_NATURAL_ORDER@[k] as int] as int
}

/// AC coding from zigzag position `k` on, with `run` zeros pending; an EOB
/// ends a block with trailing zeros.
pub open spec fn ac_bits(block: Seq<i16>, t: DerivedTable, k: int, run: int) -> Seq<bool>
    decreases 64 - k,
{
    if k >= 64 {
        if run > 0 {
            sym_bits(t, 0x00)
        } else {
            Seq::empty()
        }
    } else if zz(block, k) == 0 {
        ac_bits(block, t, k + 1, run + 1)
    } else {
        nonzero_bits(t, run, zz(block, k)) + ac_bits(block, t, k + 1, 0)
    }
}

/// Baseline coding of one block whose component last had DC `last_dc`.
pub open spec fn block_bits(block: Seq<i16>, last_dc: int, dc: DerivedTable, ac: DerivedTable) -> Seq<bool> {
    dc_bits(wrap16(block[0] as int - last_dc), dc) + ac_bits(block, ac, 1, 0)
}

/// Every symbol that coding a non-zero AC coefficient after `run` zeros
/// uses has a code.
pub open spec fn nonzero_codable(t: DerivedTable, run: int, c: int) -> bool
    decreases run,
{
    if run >= 16 {
        t.size_of(0xF0) > 0 && nonzero_codable(t, run - 16, c)
    } else {
        t.size_of(run * 16 + category(c) as int) > 0
    }
}

/// Every symbol that AC coding from zigzag position `k` on uses has a code.
pub open spec fn ac_codable(block: Seq<i16>, t: DerivedTable, k: int, run: int) -> bool
    decreases 64 - k,
{
    if k >= 64 {
        run > 0 ==> t.size_of(0x00) > 0
    } else if zz(block, k) == 0 {
        ac_codable(block, t, k + 1, run + 1)
    } else {
        nonzero_codable(t, run, zz(block, k)) && ac_codable(block, t, k + 1, 0)
    }
}

/// Every symbol that coding a block uses has a code in its table: a symbol
/// of code length 0 is never emitted.
pub open spec fn block_codable(block: Seq<i16>, last_dc: int, dc: DerivedTable, ac: DerivedTable) -> bool {
    &&& dc.size_of(category(wrap16(block[0] as int - last_dc)) as int) > 0
    &&& ac_codable(block, ac, 1, 0)
}

/// No AC coefficient is `i16::MIN`, whose category (16) has no symbol.
pub open spec fn ac_in_range(block: Seq<i16>) -> bool {
    forall|i: int| 1 <= i < 64 ==> block[i] != i16::MIN
}

pub proof fn lemma_nbits_bound(a: nat)
    ensures
        a < pow2(nbits_of(a)),
    decreases a,
{
    if a > 0 {
        lemma_nbits_bound(a / 2);
        lemma_pow2_unfold(nbits_of(a));
    } else {
        lemma2_to64();
    }
}

pub proof fn lemma_nbits_le(a: nat, k: nat)
    requires
        a < pow2(k),
    ensures
        nbits_of(a) <= k,
    decreases k,
{
    if a > 0 {
        if k == 0 {
            lemma2_to64();
        } else {
            lemma_pow2_unfold(k);
            lemma_nbits_le(a / 2, (k - 1) as nat);
        }
    }
}

/// Category of a coefficient: the number of bits of its magnitude.
pub fn jpeg_nbits(value: i16) -> (r: u8)
    ensures
        r as nat == category(value as int),
        r <= 16,
{
    if value == 0 {
        return 0;
    }
    let abs_value: u16 = if value < 0 {
        (-(value as i32)) as u16
    } else {
        value as u16
    };
    jpeg_nbits_nonzero(abs_value)
}

/// Number of bits of a value (0 for 0).
pub fn jpeg_nbits_nonzero(value: u16) -> (r: u8)
    ensures
        r as nat == nbits_of(value as nat),
        r <= 16,
{
    let mut a: u16 = value;
    let mut n: u8 = 0;
    proof {
        lemma2_to64();
        lemma_nbits_le(value as nat, 16);
    }
    while a > 0
        invariant
            nbits_of(value as nat) == n + nbits_of(a as nat),
            nbits_of(value as nat) <= 16,
        decreases a,
    {
        a = a / 2;
        n = n + 1;
    }
    n
}

/// The magnitude bits of a non-zero value in `-32767..=32767` and its
/// category.
fn magnitude(v: i16) -> (r: (u32, u8))
    requires
        v != i16::MIN,
    ensures
        r.0 as int == mag_value(v as int),
        r.1 as nat == category(v as int),
        r.1 <= 15,
        bits_msb(r.0 as int, r.1 as nat) == mag_bits(v as int),
{
    let n = jpeg_nbits(v);
    proof {
        lemma_nbits_bound(abs_int(v as int));
        lemma2_to64();
        lemma_nbits_le(abs_int(v as int), 15);
    }
    if v < 0 {
        proof {
            lemma_pow2_strictly_increases(n as nat, 16);
            vstd::bits::lemma_u32_shl_is_mul(1, n as u32);
        }
        let p: u32 = 1u32 << (n as u32);
        ((v as i32 - 1 + p as i32) as u32, n)
    } else {
        (v as u32, n)
    }
}

/// Huffman encoder state of one scan: the bit writer and each component's
/// last DC value.
pub struct EntropyEncoder<'a> {
    pub writer: &'a mut BitWriter,
    pub last_dc_val: [i16; 4],
}

impl<'a> EntropyEncoder<'a> {
    /// An encoder writing to `writer`, with every DC predictor 0.
    pub fn new(writer: &'a mut BitWriter) -> (r: Self)
        ensures
            *r.writer == *old(writer),
            *final(r.writer) == *final(writer),
            forall|c: int| 0 <= c < 4 ==> r.last_dc_val[c] == 0,
    {
        EntropyEncoder { writer, last_dc_val: [0;4] }
    }

    /// Reset every DC predictor to 0 (done at restart markers).
    pub fn reset_dc(&mut self)
        ensures
            *final(self).writer == *old(self).writer,
            *final(final(self).writer) == *final(old(self).writer),
            forall|c: int| 0 <= c < 4 ==> final(self).last_dc_val[c] == 0,
    {
        self.last_dc_val = [0;4];
    }

    /// Last DC value of a component.
    pub fn last_dc(&self, component: usize) -> (r: i16)
        requires
            component < 4,
        ensures
            r == self.last_dc_val[component as int],
    {
        self.last_dc_val[component]
    }

    /// Set the last DC value of a component.
    pub fn set_last_dc(&mut self, component: usize, value: i16)
        requires
            component < 4,
        ensures
            *final(self).writer == *old(self).writer,
            *final(final(self).writer) == *final(old(self).writer),
            final(self).last_dc_val@ == old(self).last_dc_val@.update(component as int, value),
    {
        self.last_dc_val[component] = value;
    }

    /// Encode one block of 64 quantized coefficients in natural order: the
    /// DC difference from the component's last DC, then the AC run-length
    /// codes.
    pub fn encode_block(
        &mut self,
        block: &[i16; 64],
        component: usize,
        dc_table: &DerivedTable,
        ac_table: &DerivedTable,
    ) -> (r: Result<(), Error>)
        requires
            old(self).writer.wf(),
            component < 4,
            dc_table.wf(),
            ac_table.wf(),
            wrap16(block[0] as int - old(self).last_dc_val[component as int] as int) != i16::MIN,
            ac_in_range(block@),
            block_codable(
                block@,
                old(self).last_dc_val[component as int] as int,
                *dc_table,
                *ac_table,
            ),
        ensures
            r.is_ok(),
            final(self).writer.wf(),
            final(self).writer.bits() == old(self).writer.bits() + block_bits(
                block@,
                old(self).last_dc_val[component as int] as int,
                *dc_table,
                *ac_table,
            ),
            final(self).last_dc_val@ == old(self).last_dc_val@.update(component as int, block[0]),
            *final(final(self).writer) == *final(old(self).writer),
    {
        let ghost b0 = self.writer.bits();
        self.encode_dc(block[0], component, dc_table)?;
        self.encode_ac(block, ac_table)?;
        proof {
            lemma_concat_assoc(
                b0,
                dc_bits(wrap16(block[0] as int - old(self).last_dc_val[component as int] as int), *dc_table),
                ac_bits(block@, *ac_table, 1, 0),
            );
        }
        Ok(())
    }

    /// Encode a DC coefficient as the difference from the component's last DC.
    fn encode_dc(&mut self, dc: i16, component: usize, dc_table: &DerivedTable) -> (r: Result<(), Error>)
        requires
            old(self).writer.wf(),
            component < 4,
            dc_table.wf(),
            wrap16(dc as int - old(self).last_dc_val[component as int] as int) != i16::MIN,
            dc_table.size_of(
                category(wrap16(dc as int - old(self).last_dc_val[component as int] as int)) as int,
            ) > 0,
        ensures
            r.is_ok(),
            final(self).writer.wf(),
            final(self).writer.bits() == old(self).writer.bits() + dc_bits(
                wrap16(dc as int - old(self).last_dc_val[component as int] as int),
                *dc_table,
            ),
            final(self).last_dc_val@ == old(self).last_dc_val@.update(component as int, dc),
            *final(final(self).writer) == *final(old(self).writer),
    {
        let d: i32 = dc as i32 - self.last_dc_val[component] as i32;
        let diff: i16 = if d > 32767 {
            (d - 65536) as i16
        } else if d < -32768 {
            (d + 65536) as i16
        } else {
            d as i16
        };
        self.last_dc_val[component] = dc;
        let (value, nbits) = magnitude(diff);
        let (code, size) = dc_table.get_code(nbits);
        let ghost b0 = self.writer.bits();
        proof {
            assert(0 <= nbits < 256);
        }
        self.writer.put_bits(code, size)?;
        self.writer.put_bits(value, nbits)?;
        proof {
            lemma_concat_assoc(
                b0,
                sym_bits(*dc_table, nbits as int),
                mag_bits(diff as int),
            );
        }
        Ok(())
    }

    /// Encode the 63 AC coefficients in zigzag order.
    fn encode_ac(&mut self, block: &[i16; 64], ac_table: &DerivedTable) -> (r: Result<(), Error>)
        requires
            old(self).writer.wf(),
            ac_table.wf(),
            ac_in_range(block@),
            ac_codable(block@, *ac_table, 1, 0),
        ensures
            r.is_ok(),
            final(self).writer.wf(),
            final(self).writer.bits() == old(self).writer.bits() + ac_bits(block@, *ac_table, 1, 0),
            final(self).last_dc_val == old(self).last_dc_val,
            *final(final(self).writer) == *final(old(self).writer),
    {
        let ghost b0 = self.writer.bits();
        let mut run: usize = 0;
        let mut k: usize = 1;
        while k < DCTSIZE2
            invariant
                1 <= k <= 64,
                run < k,
                self.writer.wf(),
                ac_table.wf(),
                ac_in_range(block@),
                self.last_dc_val == old(self).last_dc_val,
                *final(self.writer) == *final(old(self).writer),
                self.writer.bits() + ac_bits(block@, *ac_table, k as int, run as int) == b0 + ac_bits(
                    block@,
                    *ac_table,
                    1,
                    0,
                ),
            decreases 64 - k,
        {
            let coef = block[JPEG_NATURAL_ORDER[k]];
            if coef == 0 {
                run = run + 1;
            } else {
                let ghost before = self.writer.bits();
                let ghost rest = ac_bits(block@, *ac_table, k as int + 1, 0);
                let ghost run0 = run;
                proof {
                    assert(JPEG_NATURAL_ORDER@[k as int] < 64);
                    assert(zz(block@, k as int) == coef as int);
                    assert(coef != i16::MIN);
                }
                while run >= 16
                    invariant
                        self.writer.wf(),
                        ac_table.wf(),
                        run <= run0,
                        coef != 0,
                        coef != i16::MIN,
                        self.last_dc_val == old(self).last_dc_val,
                        *final(self.writer) == *final(old(self).writer),
                        self.writer.bits() + nonzero_bits(*ac_table, run as int, coef as int)
                            == before + nonzero_bits(*ac_table, run0 as int, coef as int),
                    decreases run,
                {
                    let ghost bb = self.writer.bits();
                    let (code, size) = ac_table.get_code(ZRL);
                    self.writer.put_bits(code, size)?;
                    proof {
                        lemma_concat_assoc(
                            bb,
                            sym_bits(*ac_table, 0xF0),
                            nonzero_bits(*ac_table, run - 16, coef as int),
                        );
                    }
                    run = run - 16;
                }
                let (value, nbits) = magnitude(coef);
                let symbol: u8 = (run as u8) * 16 + nbits;
                let ghost bb = self.writer.bits();
                let (code, size) = ac_table.get_code(symbol);
                self.writer.put_bits(code, size)?;
                self.writer.put_bits(value, nbits)?;
                proof {
                    lemma_concat_assoc(
                        bb,
                        sym_bits(*ac_table, symbol as int),
                        mag_bits(coef as int),
                    );
                    lemma_concat_assoc(
                        before,
                        nonzero_bits(*ac_table, run0 as int, coef as int),
                        rest,
                    );
                }
                run = 0;
            }
            k = k + 1;
        }
        if run > 0 {
            let (code, size) = ac_table.get_code(EOB);
            self.writer.put_bits(code, size)?;
        } else {
            assert(self.writer.bits() + Seq::<bool>::empty() =~= self.writer.bits());
        }
        Ok(())
    }

    /// Pad the last partial byte with one-bits.
    pub fn flush(&mut self) -> (r: Result<(), Error>)
        requires
            old(self).writer.wf(),
        ensures
            r.is_ok(),
            final(self).writer.wf(),
            final(self).writer.bits() == old(self).writer.bits() + crate::bitstream::ones(
                crate::bitstream::pad_len(old(self).writer.bits().len()),
            ),
            final(self).last_dc_val == old(self).last_dc_val,
            *final(final(self).writer) == *final(old(self).writer),
    {
        self.writer.flush()
    }
}

/// Encode one block as component 0 after a block whose DC was `last_dc`,
/// and return the new DC predictor.
pub fn encode_block_standalone(
    writer: &mut BitWriter,
    block: &[i16; 64],
    last_dc: i16,
    dc_table: &DerivedTable,
    ac_table: &DerivedTable,
) -> (r: Result<i16, Error>)
    requires
        old(writer).wf(),
        dc_table.wf(),
        ac_table.wf(),
        wrap16(block[0] as int - last_dc as int) != i16::MIN,
        ac_in_range(block@),
        block_codable(block@, last_dc as int, *dc_table, *ac_table),
    ensures
        r == Ok::<i16, Error>(block[0]),
        final(writer).wf(),
        final(writer).bits() == old(writer).bits() + block_bits(
            block@,
            last_dc as int,
            *dc_table,
            *ac_table,
        ),
{
    let mut encoder = EntropyEncoder::new(writer);
    encoder.set_last_dc(0, last_dc);
    encoder.encode_block(block, 0, dc_table, ac_table)?;
    Ok(encoder.last_dc(0))
}

} // verus!
