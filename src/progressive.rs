//! Progressive Huffman coding (ITU-T T.81 G.1.2), following jcphuff.c:
//! DC first and refinement scans, AC spectral-selection scans with EOB runs,
//! and AC successive-approximation refinement with correction bits.
use vstd::arithmetic::power2::*;
use vstd::prelude::*;

use crate::bitstream::{bits_msb, lemma_concat_assoc, ones, pad_len, BitWriter};
use crate::consts::JPEG_NATURAL_ORDER;
use crate::dct::lemma_floor_neg;
use crate::entropy::{
    abs_int, category, dc_bits, jpeg_nbits_nonzero, lemma_nbits_bound, lemma_nbits_le,
    mag_bits, mag_value, nbits_of, nonzero_bits, sym_bits, zz,
};
use crate::error::Error;
use crate::huffman::DerivedTable;

verus! {

/// Largest EOB run before it is forced out.
pub const MAX_EOBRUN: u32 = 0x7FFF;

/// Size of the correction-bit buffer.
pub const MAX_CORR_BITS: usize = 1000;

/// The table codes every DC category 0..=15.
pub open spec fn dc_complete(t: DerivedTable) -> bool {
    forall|s: int| 0 <= s < 16 ==> #[trigger] t.size_of(s) > 0
}

/// The table codes every symbol 0..=255: progressive AC coding may use any
/// (run, size) pair, EOB run or ZRL symbol.
pub open spec fn ac_complete(t: DerivedTable) -> bool {
    forall|s: int| 0 <= s < 256 ==> #[trigger] t.size_of(s) > 0
}

/// A value shifted right by `al` bits (arithmetic shift: floor division).
pub open spec fn shr(v: int, al: nat) -> int {
    v / pow2(al) as int
}

/// Point transform of an AC coefficient: the magnitude shifted right by
/// `al`, with the coefficient's sign.
pub open spec fn point_transform(c: int, al: nat) -> int {
    if c < 0 {
        -(abs_int(c) as int / pow2(al) as int)
    } else {
        c / pow2(al) as int
    }
}

/// Bits that flush a pending EOB run: the run's symbol, its low bits, then
/// the buffered correction bits.
pub open spec fn eob_flush_bits(eobrun: int, be: Seq<bool>, t: DerivedTable) -> Seq<bool> {
    if eobrun > 0 {
        let n = nbits_of(eobrun as nat) - 1;
        sym_bits(t, n * 16) + bits_msb(eobrun, n as nat) + be
    } else {
        Seq::empty()
    }
}

/// AC first-scan coding of zigzag positions `k..=se` with `run` zeros
/// pending; trailing zeros are left to the EOB run.
pub open spec fn ac_first_bits(
    block: Seq<i16>,
    se: int,
    al: nat,
    t: DerivedTable,
    k: int,
    run: int,
) -> Seq<bool>
    decreases se + 1 - k,
{
    if k > se {
        Seq::empty()
    } else {
        let v = point_transform(zz(block, k), al);
        if v == 0 {
            ac_first_bits(block, se, al, t, k + 1, run + 1)
        } else {
            nonzero_bits(t, run, v) + ac_first_bits(block, se, al, t, k + 1, 0)
        }
    }
}

/// The state after an AC first-scan block: a pending EOB run is flushed
/// if some value survives the point transform, the values are coded, and
/// a trailing zero extends the EOB run, which is forced out at its maximum.
pub open spec fn ac_first_result(
    st: RefineState,
    block: Seq<i16>,
    ss: int,
    se: int,
    al: nat,
    t: DerivedTable,
) -> RefineState {
    let s1 = if any_nonzero(block, ss, se, al) {
        flush_eob(st, t)
    } else {
        st
    };
    let s2 = RefineState {
        bits: s1.bits + ac_first_bits(block, se, al, t, ss, 0),
        eobrun: s1.eobrun,
        be: s1.be,
        run: s1.run,
        br: s1.br,
    };
    if point_transform(zz(block, se), al) == 0 {
        let s3 = RefineState { bits: s2.bits, eobrun: s2.eobrun + 1, be: s2.be, run: s2.run, br: s2.br };
        if s3.eobrun == MAX_EOBRUN {
            flush_eob(s3, t)
        } else {
            s3
        }
    } else {
        s2
    }
}

/// Some coefficient of `ss..=se` is non-zero after the point transform.
pub open spec fn any_nonzero(block: Seq<i16>, ss: int, se: int, al: nat) -> bool {
    exists|k: int| ss <= k <= se && point_transform(zz(block, k), al) != 0
}

/// Coding state inside an AC refinement scan: the bits written, the
/// pending EOB run and its buffered correction bits, the current zero run,
/// and the correction bits waiting for the next code.
pub struct RefineState {
    pub bits: Seq<bool>,
    pub eobrun: int,
    pub be: Seq<bool>,
    pub run: int,
    pub br: Seq<bool>,
}

/// Flush the pending EOB run.
pub open spec fn flush_eob(st: RefineState, t: DerivedTable) -> RefineState {
    RefineState {
        bits: st.bits + eob_flush_bits(st.eobrun, st.be, t),
        eobrun: 0,
        be: Seq::empty(),
        run: st.run,
        br: st.br,
    }
}

/// One ZRL: flush the EOB run, code sixteen zeros, send the waiting
/// correction bits.
pub open spec fn refine_zrl_step(st: RefineState, t: DerivedTable) -> RefineState {
    let f = flush_eob(st, t);
    RefineState {
        bits: f.bits + sym_bits(t, 0xF0) + f.br,
        eobrun: f.eobrun,
        be: f.be,
        run: f.run - 16,
        br: Seq::empty(),
    }
}

/// The ZRLs before a non-zero value at index `k`; none once `k` is past the
/// last newly non-zero value, since they then fold into the EOB run.
pub open spec fn refine_zrl(st: RefineState, k: int, eob: int, t: DerivedTable) -> RefineState
    decreases st.run,
{
    if st.run > 15 && k <= eob {
        refine_zrl(refine_zrl_step(st, t), k, eob, t)
    } else {
        st
    }
}

/// Coding of the value at index `k` with transformed magnitude `a`.
pub open spec fn refine_coef(
    st: RefineState,
    a: int,
    sign: bool,
    k: int,
    eob: int,
    t: DerivedTable,
) -> RefineState {
    if a == 0 {
        RefineState { bits: st.bits, eobrun: st.eobrun, be: st.be, run: st.run + 1, br: st.br }
    } else {
        let z = refine_zrl(st, k, eob, t);
        if a > 1 {
            RefineState { bits: z.bits, eobrun: z.eobrun, be: z.be, run: z.run, br: z.br.push(a % 2 == 1) }
        } else {
            let f = flush_eob(z, t);
            RefineState {
                bits: f.bits + sym_bits(t, f.run * 16 + 1) + seq![sign] + f.br,
                eobrun: f.eobrun,
                be: f.be,
                run: 0,
                br: Seq::empty(),
            }
        }
    }
}

/// Coding of the first `k` values.
pub open spec fn refine_coefs(
    st: RefineState,
    avals: Seq<int>,
    signs: Seq<bool>,
    k: int,
    eob: int,
    t: DerivedTable,
) -> RefineState
    decreases k,
{
    if k <= 0 {
        st
    } else {
        refine_coef(refine_coefs(st, avals, signs, k - 1, eob, t), avals[k - 1], signs[k - 1], k - 1, eob, t)
    }
}

/// End of a block: trailing zeros or waiting bits extend the EOB run, which
/// is forced out at its maximum or when the buffer is nearly full.
pub open spec fn refine_finish(st: RefineState, t: DerivedTable) -> RefineState {
    if st.run > 0 || st.br.len() > 0 {
        let s2 = RefineState {
            bits: st.bits,
            eobrun: st.eobrun + 1,
            be: st.be + st.br,
            run: st.run,
            br: st.br,
        };
        if s2.eobrun == MAX_EOBRUN || s2.be.len() > MAX_CORR_BITS - 63 {
            flush_eob(s2, t)
        } else {
            s2
        }
    } else {
        st
    }
}

/// Magnitudes after the point transform over zigzag positions `ss..=se`.
pub open spec fn refine_abs(block: Seq<i16>, ss: int, se: int, al: nat) -> Seq<int> {
    Seq::new((se - ss + 1) as nat, |k: int| abs_int(point_transform(zz(block, ss + k), al)) as int)
}

/// Signs (true for non-negative) over zigzag positions `ss..=se`.
pub open spec fn refine_signs(block: Seq<i16>, ss: int, se: int) -> Seq<bool> {
    Seq::new((se - ss + 1) as nat, |k: int| zz(block, ss + k) >= 0)
}

/// Index of the last magnitude equal to 1 (0 when there is none).
pub open spec fn last_one(avals: Seq<int>) -> int
    decreases avals.len(),
{
    if avals.len() == 0 {
        0
    } else if avals.last() == 1 {
        avals.len() - 1
    } else {
        last_one(avals.drop_last())
    }
}

proof fn lemma_one_bit(b: bool)
    ensures
        bits_msb(if b { 1int } else { 0int }, 1) == seq![b],
{
    lemma2_to64();
    let v: int = if b { 1 } else { 0 };
    assert(crate::bitstream::bit_at(v, 0) == b);
    assert(bits_msb(v, 1) =~= seq![b]);
}

proof fn lemma_last_one(avals: Seq<int>, i: int)
    requires
        0 <= i < avals.len(),
        avals[i] == 1,
    ensures
        i <= last_one(avals),
    decreases avals.len(),
{
    if avals.last() != 1 {
        lemma_last_one(avals.drop_last(), i);
    }
}

/// Progressive Huffman encoder of one scan: its bit writer, the DC
/// predictors (of point-transformed values), the pending EOB run and the
/// correction bits buffered with it.
pub struct ProgressiveEncoder {
    pub writer: BitWriter,
    pub last_dc_val: [i32; 4],
    pub eobrun: u32,
    pub be: Vec<bool>,
}

impl ProgressiveEncoder {
    /// The state between blocks: the EOB run is below its maximum and the
    /// correction buffer leaves room for one more block's bits.
    pub open spec fn wf(&self) -> bool {
        &&& self.wf_loose()
        &&& self.eobrun < MAX_EOBRUN
        &&& self.be@.len() <= MAX_CORR_BITS - 63
        &&& self.eobrun == 0 ==> self.be@.len() == 0
    }

    /// The state inside a block, before a forced flush.
    pub open spec fn wf_loose(&self) -> bool {
        &&& self.writer.wf()
        &&& self.eobrun <= MAX_EOBRUN
        &&& self.be@.len() <= MAX_CORR_BITS
        &&& forall|c: int| 0 <= c < 4 ==> -16383 <= #[trigger] self.last_dc_val[c] <= 16383
    }

    /// The refinement state at the start of a block.
    pub open spec fn refine_start(&self) -> RefineState {
        RefineState {
            bits: self.writer.bits(),
            eobrun: self.eobrun as int,
            be: self.be@,
            run: 0,
            br: Seq::empty(),
        }
    }

    /// The refinement state with the given zero run and waiting bits.
    pub open spec fn refine_state(&self, run: int, br: Seq<bool>) -> RefineState {
        RefineState { bits: self.writer.bits(), eobrun: self.eobrun as int, be: self.be@, run, br }
    }

    /// A fresh encoder with an empty writer.
    pub fn new() -> (r: Self)
        ensures
            r.wf(),
            r.writer.bits() == Seq::<bool>::empty(),
            r.eobrun == 0,
            r.be@.len() == 0,
            forall|c: int| 0 <= c < 4 ==> r.last_dc_val[c] == 0,
    {
        ProgressiveEncoder { writer: BitWriter::new_vec(), last_dc_val: [0;4], eobrun: 0, be: Vec::new() }
    }

    /// Emit the low `size` bits of `v`, where `v` has at most 16 significant
    /// bits.
    fn put(&mut self, v: u32, size: u8)
        requires
            old(self).writer.wf(),
            size <= 16,
        ensures
            final(self).writer.wf(),
            final(self).writer.bits() == old(self).writer.bits() + bits_msb(v as int, size as nat),
            final(self).last_dc_val == old(self).last_dc_val,
            final(self).eobrun == old(self).eobrun,
            final(self).be == old(self).be,
    {
        let _ = self.writer.put_bits(v, size);
    }

    /// Emit the Huffman code of `symbol`.
    fn put_symbol(&mut self, t: &DerivedTable, symbol: u8)
        requires
            old(self).writer.wf(),
            t.wf(),
            t.size_of(symbol as int) > 0,
        ensures
            final(self).writer.wf(),
            final(self).writer.bits() == old(self).writer.bits() + sym_bits(*t, symbol as int),
            final(self).last_dc_val == old(self).last_dc_val,
            final(self).eobrun == old(self).eobrun,
            final(self).be == old(self).be,
    {
        let (code, size) = t.get_code(symbol);
        self.put(code, size);
    }

    /// Emit a pending EOB run and the correction bits buffered with it.
    fn emit_eobrun(&mut self, t: &DerivedTable)
        requires
            old(self).wf_loose(),
            old(self).eobrun == 0 ==> old(self).be@.len() == 0,
            t.wf(),
            ac_complete(*t),
        ensures
            final(self).wf(),
            final(self).writer.bits() == old(self).writer.bits() + eob_flush_bits(
                old(self).eobrun as int,
                old(self).be@,
                *t,
            ),
            final(self).eobrun == 0,
            final(self).be@.len() == 0,
            final(self).last_dc_val == old(self).last_dc_val,
    {
        if self.eobrun > 0 {
            let ghost b0 = self.writer.bits();
            let e = self.eobrun;
            proof {
                lemma2_to64();
                lemma_nbits_bound(e as nat);
                lemma_nbits_le(e as nat, 15);
            }
            let n = jpeg_nbits_nonzero(e as u16) - 1;
            self.put_symbol(t, n * 16);
            self.put(e, n);
            let ghost be = self.be;
            put_buffered(&mut self.writer, &self.be);
            proof {
                lemma_concat_assoc(b0, sym_bits(*t, n * 16), bits_msb(e as int, n as nat));
                lemma_concat_assoc(
                    b0,
                    sym_bits(*t, n * 16) + bits_msb(e as int, n as nat),
                    be@,
                );
            }
            self.eobrun = 0;
            self.be = Vec::new();
        } else {
            assert(self.writer.bits() + Seq::<bool>::empty() =~= self.writer.bits());
        }
    }

    /// DC first scan: code the difference of `block[0] >> al` from the
    /// component's previous shifted DC.
    pub fn encode_dc_first(
        &mut self,
        block: &[i16; 64],
        component: usize,
        dc_table: &DerivedTable,
        al: u8,
    ) -> (r: Result<(), Error>)
        requires
            old(self).wf(),
            component < 4,
            dc_table.wf(),
            dc_complete(*dc_table),
            -16383 <= block[0] <= 16383,
            al < 14,
        ensures
            r.is_ok(),
            final(self).wf(),
            final(self).writer.bits() == old(self).writer.bits() + dc_bits(
                shr(block[0] as int, al as nat) - old(self).last_dc_val[component as int],
                *dc_table,
            ),
            final(self).last_dc_val@ == old(self).last_dc_val@.update(
                component as int,
                shr(block[0] as int, al as nat) as i32,
            ),
            final(self).eobrun == old(self).eobrun,
            final(self).be == old(self).be,
    {
        let t2: i32 = floor_shift(block[0] as i32, al);
        let diff: i32 = t2 - self.last_dc_val[component];
        self.last_dc_val[component] = t2;
        let (value, nbits) = magnitude32(diff);
        let ghost b0 = self.writer.bits();
        self.put_symbol(dc_table, nbits);
        self.put(value, nbits);
        proof {
            lemma_concat_assoc(b0, sym_bits(*dc_table, nbits as int), mag_bits(diff as int));
        }
        Ok(())
    }

    /// DC refinement scan: emit bit `al` of the DC coefficient.
    pub fn encode_dc_refine(&mut self, block: &[i16; 64], al: u8) -> (r: Result<(), Error>)
        requires
            old(self).wf(),
            al < 14,
        ensures
            r.is_ok(),
            final(self).wf(),
            final(self).writer.bits() == old(self).writer.bits() + bits_msb(
                shr(block[0] as int, al as nat),
                1,
            ),
            final(self).last_dc_val == old(self).last_dc_val,
            final(self).eobrun == old(self).eobrun,
            final(self).be == old(self).be,
    {
        let t: i32 = floor_shift(block[0] as i32, al);
        let parity: u32 = (t + 65536) as u32 % 2;
        let bit: u32 = if parity == 0 {
            0
        } else {
            1
        };
        proof {
            lemma2_to64();
            assert((t as int + 65536) % 2 == (t as int) % 2);
            assert(pow2(0) == 1);
            assert(crate::bitstream::bit_at(bit as int, 0) == crate::bitstream::bit_at(t as int, 0));
            assert(bits_msb(bit as int, 1) =~= bits_msb(t as int, 1));
        }
        self.put(bit, 1);
        Ok(())
    }

    /// AC first scan over zigzag positions `ss..=se` with point transform
    /// `al`: flush a pending EOB run before the first non-zero value, code
    /// the non-zero values with their zero runs, and count trailing zeros as
    /// one more EOB (forced out at the maximum run). Follows
    /// `ac_first_result` exactly.
    pub fn encode_ac_first(
        &mut self,
        block: &[i16; 64],
        ss: u8,
        se: u8,
        al: u8,
        ac_table: &DerivedTable,
    ) -> (r: Result<(), Error>)
        requires
            old(self).wf(),
            1 <= ss <= se <= 63,
            al < 14,
            ac_table.wf(),
            ac_complete(*ac_table),
            forall|i: int| 0 <= i < 64 ==> block[i] != i16::MIN,
        ensures
            r.is_ok(),
            final(self).wf(),
            ({
                let fin = ac_first_result(
                    old(self).refine_start(),
                    block@,
                    ss as int,
                    se as int,
                    al as nat,
                    *ac_table,
                );
                &&& final(self).writer.bits() == fin.bits
                &&& final(self).eobrun as int == fin.eobrun
                &&& final(self).be@ == fin.be
            }),
            final(self).last_dc_val == old(self).last_dc_val,
    {
        let ghost st0 = self.refine_start();
        let ghost e0 = self.eobrun as int;
        // Find whether any value survives the point transform.
        let mut any = false;
        let mut k: usize = ss as usize;
        while k <= se as usize
            invariant
                ss <= k <= se as int + 1,
                se <= 63,
                any <==> exists|j: int|
                    ss <= j < k && point_transform(zz(block@, j), al as nat) != 0,
                forall|i: int| 0 <= i < 64 ==> block[i] != i16::MIN,
                al < 14,
            decreases se as int + 1 - k,
        {
            let (v, _) = transformed(block[JPEG_NATURAL_ORDER[k]], al);
            proof {
                assert(JPEG_NATURAL_ORDER@[k as int] < 64);
                assert(v as int == point_transform(zz(block@, k as int), al as nat));
            }
            if v != 0 {
                any = true;
            }
            k = k + 1;
        }
        if any && self.eobrun > 0 {
            self.emit_eobrun(ac_table);
        }
        proof {
            assert(self.be@ =~= Seq::<bool>::empty() || !any);
        }
        let ghost st1 = self.refine_start();
        let ghost b1 = self.writer.bits();
        let mut run: u32 = 0;
        let mut k: usize = ss as usize;
        while k <= se as usize
            invariant
                ss <= k <= se as int + 1,
                se <= 63,
                run < k,
                k == ss ==> run == 0,
                k > ss ==> (run > 0 <==> point_transform(zz(block@, k - 1), al as nat) == 0),
                al < 14,
                self.wf(),
                ac_table.wf(),
                ac_complete(*ac_table),
                forall|i: int| 0 <= i < 64 ==> block[i] != i16::MIN,
                self.last_dc_val == old(self).last_dc_val,
                self.eobrun == st1.eobrun,
                self.be@ == st1.be,
                self.writer.bits() + ac_first_bits(block@, se as int, al as nat, *ac_table, k as int, run as int)
                    == b1 + ac_first_bits(block@, se as int, al as nat, *ac_table, ss as int, 0),
            decreases se as int + 1 - k,
        {
            let (v, n) = transformed(block[JPEG_NATURAL_ORDER[k]], al);
            proof {
                assert(JPEG_NATURAL_ORDER@[k as int] < 64);
                assert(v as int == point_transform(zz(block@, k as int), al as nat));
            }
            if v == 0 {
                run = run + 1;
            } else {
                let ghost before = self.writer.bits();
                let ghost rest = ac_first_bits(block@, se as int, al as nat, *ac_table, k as int + 1, 0);
                let ghost run0 = run;
                while run >= 16
                    invariant
                        self.wf(),
                        ac_table.wf(),
                        ac_complete(*ac_table),
                        run <= run0,
                        v != 0,
                        -32767 <= v <= 32767,
                        self.last_dc_val == old(self).last_dc_val,
                        self.eobrun == st1.eobrun,
                        self.be@ == st1.be,
                        self.writer.bits() + nonzero_bits(*ac_table, run as int, v as int) == before
                            + nonzero_bits(*ac_table, run0 as int, v as int),
                    decreases run,
                {
                    let ghost bb = self.writer.bits();
                    self.put_symbol(ac_table, 0xF0);
                    proof {
                        lemma_concat_assoc(
                            bb,
                            sym_bits(*ac_table, 0xF0),
                            nonzero_bits(*ac_table, run - 16, v as int),
                        );
                    }
                    run = run - 16;
                }
                let (value, nbits) = magnitude32(v);
                let ghost bb = self.writer.bits();
                let symbol: u8 = (run as u8) * 16 + nbits;
                self.put_symbol(ac_table, symbol);
                self.put(value, nbits);
                proof {
                    lemma_concat_assoc(bb, sym_bits(*ac_table, run * 16 + nbits), mag_bits(v as int));
                    lemma_concat_assoc(before, nonzero_bits(*ac_table, run0 as int, v as int), rest);
                }
                run = 0;
            }
            k = k + 1;
        }
        proof {
            assert(self.writer.bits() + Seq::<bool>::empty() =~= self.writer.bits());
        }
        if run > 0 {
            self.eobrun = self.eobrun + 1;
            if self.eobrun == MAX_EOBRUN {
                self.emit_eobrun(ac_table);
                proof {
                    assert(self.be@ =~= Seq::<bool>::empty());
                }
            }
        }
        Ok(())
    }

    /// AC refinement scan over `ss..=se` at bit `al`: newly non-zero values
    /// are coded with their zero runs and sign; values already non-zero get
    /// one correction bit each, sent with the next code (or buffered with
    /// the EOB run). Follows `refine_finish(refine_coefs(..))` exactly.
    pub fn encode_ac_refine(
        &mut self,
        block: &[i16; 64],
        ss: u8,
        se: u8,
        ah: u8,
        al: u8,
        ac_table: &DerivedTable,
    ) -> (r: Result<(), Error>)
        requires
            old(self).wf(),
            1 <= ss <= se <= 63,
            al < 14,
            ac_table.wf(),
            ac_complete(*ac_table),
            forall|i: int| 0 <= i < 64 ==> block[i] != i16::MIN,
        ensures
            r.is_ok(),
            final(self).wf(),
            ({
                let avals = refine_abs(block@, ss as int, se as int, al as nat);
                let fin = refine_finish(
                    refine_coefs(
                        old(self).refine_start(),
                        avals,
                        refine_signs(block@, ss as int, se as int),
                        avals.len() as int,
                        last_one(avals),
                        *ac_table,
                    ),
                    *ac_table,
                );
                &&& final(self).writer.bits() == fin.bits
                &&& final(self).eobrun as int == fin.eobrun
                &&& final(self).be@ == fin.be
            }),
            final(self).last_dc_val == old(self).last_dc_val,
    {
        let ghost st0 = self.refine_start();
        // Absolute values after the point transform, signs, and the index
        // of the last value that becomes exactly 1 (newly non-zero).
        let mut absvalues: Vec<u32> = Vec::new();
        let mut signs: Vec<bool> = Vec::new();
        let mut eob: usize = 0;
        let mut k: usize = ss as usize;
        while k <= se as usize
            invariant
                ss <= k <= se as int + 1,
                se <= 63,
                al < 14,
                absvalues@.len() == k - ss,
                signs@.len() == k - ss,
                eob <= absvalues@.len(),
                forall|i: int| 0 <= i < absvalues@.len() ==> #[trigger] absvalues@[i] <= 32767,
                forall|i: int|
                    0 <= i < absvalues@.len() ==> absvalues@[i] as int == #[trigger] refine_abs(
                        block@,
                        ss as int,
                        se as int,
                        al as nat,
                    )[i],
                forall|i: int|
                    0 <= i < signs@.len() ==> signs@[i] == #[trigger] refine_signs(
                        block@,
                        ss as int,
                        se as int,
                    )[i],
                eob as int == last_one(refine_abs(block@, ss as int, se as int, al as nat).take(
                    absvalues@.len() as int,
                )),
                forall|i: int| 0 <= i < 64 ==> block[i] != i16::MIN,
            decreases se as int + 1 - k,
        {
            let c = block[JPEG_NATURAL_ORDER[k]];
            let (v, _) = transformed(c, al);
            let a: u32 = if v < 0 {
                (-v) as u32
            } else {
                v as u32
            };
            let ghost avals = refine_abs(block@, ss as int, se as int, al as nat);
            proof {
                assert(JPEG_NATURAL_ORDER@[k as int] < 64);
                assert(zz(block@, ss + (k - ss)) == c as int);
                assert(a as int == avals[k - ss]);
                assert(avals.take(k - ss + 1).drop_last() =~= avals.take(k - ss));
            }
            absvalues.push(a);
            signs.push(c >= 0);
            if a == 1 {
                eob = k - ss as usize;
            }
            k = k + 1;
        }
        let ghost avals = refine_abs(block@, ss as int, se as int, al as nat);
        let ghost sgns = refine_signs(block@, ss as int, se as int);
        proof {
            assert(absvalues@.len() == avals.len());
            assert(avals.take(avals.len() as int) =~= avals);
        }
        let sl = absvalues.len();
        let mut br: Vec<bool> = Vec::new();
        let mut run: u32 = 0;
        let mut i: usize = 0;
        while i < sl
            invariant
                i <= sl,
                sl == absvalues@.len(),
                sl == avals.len(),
                sl <= 63,
                eob as int == last_one(avals),
                eob <= sl,
                run <= i,
                br@.len() <= i,
                self.wf(),
                ac_table.wf(),
                ac_complete(*ac_table),
                self.last_dc_val == old(self).last_dc_val,
                forall|j: int| 0 <= j < absvalues@.len() ==> #[trigger] absvalues@[j] <= 32767,
                forall|j: int| 0 <= j < sl ==> absvalues@[j] as int == #[trigger] avals[j],
                forall|j: int| 0 <= j < sl ==> signs@[j] == #[trigger] sgns[j],
                signs@.len() == sl,
                self.refine_state(run as int, br@) == refine_coefs(
                    st0,
                    avals,
                    sgns,
                    i as int,
                    eob as int,
                    *ac_table,
                ),
            decreases sl - i,
        {
            let a = absvalues[i];
            let ghost before = self.refine_state(run as int, br@);
            proof {
                if avals[i as int] == 1 {
                    lemma_last_one(avals, i as int);
                }
            }
            if a == 0 {
                run = run + 1;
            } else {
                // Emit any required ZRLs, unless they fold into the EOB run.
                while run > 15 && i <= eob
                    invariant
                        self.wf(),
                        ac_table.wf(),
                        ac_complete(*ac_table),
                        self.last_dc_val == old(self).last_dc_val,
                        br@.len() <= i,
                        run <= i,
                        refine_zrl(self.refine_state(run as int, br@), i as int, eob as int, *ac_table)
                            == refine_zrl(before, i as int, eob as int, *ac_table),
                    decreases run,
                {
                    let ghost cur = self.refine_state(run as int, br@);
                    self.emit_eobrun(ac_table);
                    let ghost b1 = self.writer.bits();
                    self.put_symbol(ac_table, 0xF0);
                    run = run - 16;
                    put_buffered(&mut self.writer, &br);
                    br = Vec::new();
                    proof {
                        assert(self.be@ =~= Seq::<bool>::empty());
                        assert(br@ =~= Seq::<bool>::empty());
                        assert(self.refine_state(run as int, br@) == refine_zrl_step(cur, *ac_table));
                    }
                }
                let ghost z = self.refine_state(run as int, br@);
                if a > 1 {
                    // Previously non-zero: only a correction bit.
                    br.push(a % 2 == 1);
                    proof {
                        assert(self.refine_state(run as int, br@) == refine_coef(
                            before,
                            avals[i as int],
                            sgns[i as int],
                            i as int,
                            eob as int,
                            *ac_table,
                        ));
                    }
                } else {
                    self.emit_eobrun(ac_table);
                    let symbol: u8 = (run as u8) * 16 + 1;
                    let ghost f = self.refine_state(run as int, br@);
                    self.put_symbol(ac_table, symbol);
                    self.put(if signs[i] {
                        1
                    } else {
                        0
                    }, 1);
                    put_buffered(&mut self.writer, &br);
                    proof {
                        lemma_one_bit(signs@[i as int]);
                        assert(self.be@ =~= Seq::<bool>::empty());
                    }
                    br = Vec::new();
                    run = 0;
                    proof {
                        assert(br@ =~= Seq::<bool>::empty());
                        assert(self.refine_state(run as int, br@) == refine_coef(
                            before,
                            avals[i as int],
                            sgns[i as int],
                            i as int,
                            eob as int,
                            *ac_table,
                        ));
                    }
                }
            }
            i = i + 1;
        }
        let ghost done = self.refine_state(run as int, br@);
        if run > 0 || br.len() > 0 {
            self.eobrun = self.eobrun + 1;
            let ghost be0 = self.be@;
            let mut j: usize = 0;
            while j < br.len()
                invariant
                    j <= br@.len(),
                    br@.len() <= 63,
                    be0.len() <= MAX_CORR_BITS - 63,
                    self.be@ == be0 + br@.take(j as int),
                    self.writer.wf(),
                    self.eobrun <= MAX_EOBRUN,
                    self.eobrun > 0,
                    self.eobrun as int == done.eobrun + 1,
                    self.writer.bits() == done.bits,
                    forall|c: int| 0 <= c < 4 ==> -16383 <= #[trigger] self.last_dc_val[c] <= 16383,
                    self.last_dc_val == old(self).last_dc_val,
                decreases br@.len() - j,
            {
                self.be.push(br[j]);
                proof {
                    assert(br@.take(j + 1) =~= br@.take(j as int).push(br@[j as int]));
                }
                j = j + 1;
            }
            proof {
                assert(br@.take(br@.len() as int) =~= br@);
            }
            if self.eobrun == MAX_EOBRUN || self.be.len() > MAX_CORR_BITS - 63 {
                self.emit_eobrun(ac_table);
                proof {
                    assert(self.be@ =~= Seq::<bool>::empty());
                }
            }
        }
        Ok(())
    }

    /// End a scan: flush a pending EOB run (AC scans) and pad the last byte
    /// with one-bits.
    pub fn finish_scan(&mut self, ac_table: Option<&DerivedTable>) -> (r: Result<(), Error>)
        requires
            old(self).wf(),
            ac_table.is_some() ==> ac_table.unwrap().wf() && ac_complete(*ac_table.unwrap()),
            ac_table.is_none() ==> old(self).eobrun == 0,
        ensures
            r.is_ok(),
            final(self).wf(),
            final(self).eobrun == 0,
            final(self).writer.bits().len() % 8 == 0,
            ac_table.is_some() ==> final(self).writer.bits() == old(self).writer.bits()
                + eob_flush_bits(old(self).eobrun as int, old(self).be@, *ac_table.unwrap()) + ones(
                pad_len(
                    (old(self).writer.bits() + eob_flush_bits(
                        old(self).eobrun as int,
                        old(self).be@,
                        *ac_table.unwrap(),
                    )).len(),
                ),
            ),
            ac_table.is_none() ==> final(self).writer.bits() == old(self).writer.bits() + ones(
                pad_len(old(self).writer.bits().len()),
            ),
            final(self).last_dc_val == old(self).last_dc_val,
    {
        match ac_table {
            Some(t) => {
                self.emit_eobrun(t);
            },
            None => {},
        }
        let _ = self.writer.flush();
        Ok(())
    }
}

/// Emit buffered bits one by one.
fn put_buffered(w: &mut BitWriter, buf: &Vec<bool>)
    requires
        old(w).wf(),
    ensures
        final(w).wf(),
        final(w).bits() == old(w).bits() + buf@,
{
    let ghost b0 = w.bits();
    let mut i: usize = 0;
    while i < buf.len()
        invariant
            i <= buf@.len(),
            w.wf(),
            w.bits() == b0 + buf@.subrange(0, i as int),
        decreases buf@.len() - i,
    {
        w.put_bit(buf[i]);
        proof {
            assert(buf@.subrange(0, i + 1) =~= buf@.subrange(0, i as int).push(buf@[i as int]));
        }
        i = i + 1;
    }
    assert(buf@.subrange(0, buf@.len() as int) =~= buf@);
}

/// `v >> al` for a non-negative shift, as floor division.
fn floor_shift(v: i32, al: u8) -> (r: i32)
    requires
        -32768 <= v <= 32767,
        al < 14,
    ensures
        r as int == shr(v as int, al as nat),
        -32768 <= r <= 32767,
        v >= 0 ==> 0 <= r <= v,
        v < 0 ==> v <= r < 0,
{
    proof {
        lemma2_to64();
        lemma_pow2_strictly_increases(al as nat, 14);
        lemma_pow2_pos(al as nat);
        vstd::bits::lemma_u32_shl_is_mul(1, al as u32);
    }
    let d: i32 = (1u32 << (al as u32)) as i32;
    let r = if v >= 0 {
        v / d
    } else {
        let m: i32 = -v;
        -((m + d - 1) / d)
    };
    proof {
        if v < 0 {
            lemma_floor_neg(v as int, d as int);
        }
        vstd::arithmetic::div_mod::lemma_fundamental_div_mod(v as int, d as int);
        assert(-32768 <= r <= 32767 && (v >= 0 ==> 0 <= r <= v) && (v < 0 ==> v <= r < 0)) by (nonlinear_arith)
            requires
                v == d * r + v % d,
                0 <= v % d < d,
                d >= 1,
                -32768 <= v <= 32767,
        ;
    }
    r
}

/// An AC coefficient after the point transform, with the category of the
/// result.
fn transformed(c: i16, al: u8) -> (r: (i32, u8))
    requires
        c != i16::MIN,
        al < 14,
    ensures
        r.0 as int == point_transform(c as int, al as nat),
        -32767 <= r.0 <= 32767,
{
    proof {
        lemma2_to64();
        lemma_pow2_strictly_increases(al as nat, 14);
        lemma_pow2_pos(al as nat);
        vstd::bits::lemma_u32_shl_is_mul(1, al as u32);
    }
    let d: i32 = (1u32 << (al as u32)) as i32;
    let a: i32 = if c < 0 {
        -(c as i32)
    } else {
        c as i32
    };
    let q = a / d;
    proof {
        vstd::arithmetic::div_mod::lemma_fundamental_div_mod(a as int, d as int);
        assert(0 <= q <= a) by (nonlinear_arith)
            requires
                a == d * q + a % d,
                0 <= a % d < d,
                d >= 1,
                a >= 0,
        ;
    }
    if c < 0 {
        (-q, 0)
    } else {
        (q, 0)
    }
}

/// Magnitude bits and category of a value in `-65535..=65535`.
fn magnitude32(v: i32) -> (r: (u32, u8))
    requires
        -65535 <= v <= 65535,
    ensures
        r.0 as int == mag_value(v as int),
        r.1 as nat == category(v as int),
        r.1 <= 16,
        -32767 <= v <= 32767 ==> r.1 <= 15,
        bits_msb(r.0 as int, r.1 as nat) == mag_bits(v as int),
{
    let a: u32 = if v < 0 {
        (-v) as u32
    } else {
        v as u32
    };
    proof {
        lemma2_to64();
        lemma_nbits_bound(a as nat);
        lemma_nbits_le(a as nat, 16);
        if a < 32768 {
            lemma_nbits_le(a as nat, 15);
        }
    }
    let n: u8 = if a == 0 {
        0
    } else {
        jpeg_nbits_nonzero_u32(a)
    };
    if v < 0 {
        proof {
            if n < 16 {
                lemma_pow2_strictly_increases(n as nat, 16);
            }
            vstd::bits::lemma_u32_shl_is_mul(1, n as u32);
        }
        let p: u32 = 1u32 << (n as u32);
        (((v - 1) as i64 + p as i64) as u32, n)
    } else {
        (v as u32, n)
    }
}

/// Number of bits of a value below 2^16.
fn jpeg_nbits_nonzero_u32(value: u32) -> (r: u8)
    requires
        value < 65536,
    ensures
        r as nat == nbits_of(value as nat),
        r <= 16,
{
    jpeg_nbits_nonzero(value as u16)
}

} // verus!
