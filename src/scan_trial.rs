//! Sequential trial encoding of candidate progressive scans. Scans are coded
//! in order with state kept between them, so that refinement scans are sized
//! in the context of the scans before them.
use vstd::prelude::*;

use crate::bitstream::{
    bits_msb, ff_followed_by_zero, lemma_writer_bytes_stuffed, ones, pack_bytes, pad_len, stuff,
};
use crate::entropy::dc_bits;
use crate::error::Error;
use crate::huffman::DerivedTable;
use crate::progressive::{
    ac_complete, dc_complete, ac_first_result, eob_flush_bits, last_one, refine_abs, refine_coefs, refine_finish, refine_signs,
    shr, ProgressiveEncoder, RefineState,
};
use crate::types::ScanInfo;

verus! {

/// State of one AC coefficient across the scan sequence.
#[derive(Clone, Copy)]
pub struct CoeffState {
    /// Al of the first scan that coded the coefficient.
    pub first_al: u8,
    /// Whether a first scan has coded the coefficient.
    pub coded: bool,
}

/// State of one block across the scan sequence.
#[derive(Clone, Copy)]
pub struct BlockState {
    pub ac_state: [CoeffState; 63],
    /// Al of the first DC scan of the block.
    pub dc_first_al: u8,
    /// Whether a first DC scan has coded the block.
    pub dc_coded: bool,
}

/// A block that no scan has coded yet.
pub open spec fn fresh_block(b: BlockState) -> bool {
    &&& !b.dc_coded
    &&& b.dc_first_al == 0
    &&& forall|i: int| 0 <= i < 63 ==> !(#[trigger] b.ac_state[i]).coded && b.ac_state[i].first_al == 0
}

/// Every block of every component is fresh, with one state per block.
pub open spec fn all_fresh(states: Seq<Seq<BlockState>>, ctx: TrialContext) -> bool {
    &&& states.len() == 3
    &&& forall|c: int| 0 <= c < 3 ==> (#[trigger] states[c]).len() == ctx.blocks[c].len()
    &&& forall|c: int, i: int| 0 <= c < 3 && 0 <= i < states[c].len() ==> fresh_block(#[trigger] states[c][i])
}

/// Two fresh blocks are the same value.
pub proof fn lemma_fresh_unique(a: BlockState, b: BlockState)
    requires
        fresh_block(a),
        fresh_block(b),
    ensures
        a == b,
{
    assert forall|i: int| 0 <= i < 63 implies a.ac_state[i] == b.ac_state[i] by {
        assert(!a.ac_state[i].coded && !b.ac_state[i].coded);
    }
    assert(a.ac_state =~= b.ac_state);
}

/// All-fresh states of one context are equal: an encoder after `reset`
/// holds the very state that `new` gave it.
pub proof fn lemma_all_fresh_equal(a: Seq<Seq<BlockState>>, b: Seq<Seq<BlockState>>, ctx: TrialContext)
    requires
        all_fresh(a, ctx),
        all_fresh(b, ctx),
    ensures
        a == b,
{
    assert forall|c: int| 0 <= c < 3 implies a[c] == b[c] by {
        assert forall|i: int| 0 <= i < a[c].len() implies a[c][i] == b[c][i] by {
            lemma_fresh_unique(a[c][i], b[c][i]);
        }
        assert(a[c] =~= b[c]);
    }
    assert(a =~= b);
}

/// Any scan sequence coded from all-fresh block states gives the same
/// buffers and final states: a reset encoder behaves as a new one.
pub proof fn lemma_fresh_runs_equal(
    ctx: TrialContext,
    a: Seq<Seq<BlockState>>,
    b: Seq<Seq<BlockState>>,
    scans: Seq<ScanInfo>,
    k: int,
)
    requires
        all_fresh(a, ctx),
        all_fresh(b, ctx),
    ensures
        trial_run(ctx, a, scans, k) == trial_run(ctx, b, scans, k),
{
    lemma_all_fresh_equal(a, b, ctx);
}

/// What the scans read: the blocks of the three components, the tables, and
/// the geometry.
pub struct TrialContext {
    pub blocks: Seq<Seq<[i16; 64]>>,
    pub dc_luma: DerivedTable,
    pub dc_chroma: DerivedTable,
    pub ac_luma: DerivedTable,
    pub ac_chroma: DerivedTable,
    pub mcu_rows: int,
    pub mcu_cols: int,
    pub h_samp: int,
    pub v_samp: int,
    pub width: int,
    pub height: int,
    pub chroma_width: int,
    pub chroma_height: int,
}

pub open spec fn dc_table_of(ctx: TrialContext, comp: int) -> DerivedTable {
    if comp == 0 {
        ctx.dc_luma
    } else {
        ctx.dc_chroma
    }
}

pub open spec fn ac_table_of(ctx: TrialContext, comp: int) -> DerivedTable {
    if comp == 0 {
        ctx.ac_luma
    } else {
        ctx.ac_chroma
    }
}

/// Blocks of a component per MCU, horizontally.
pub open spec fn mcu_h_blocks(ctx: TrialContext, comp: int) -> int {
    if comp == 0 {
        ctx.h_samp
    } else {
        1
    }
}

/// Blocks of a component per MCU, vertically.
pub open spec fn mcu_v_blocks(ctx: TrialContext, comp: int) -> int {
    if comp == 0 {
        ctx.v_samp
    } else {
        1
    }
}

/// Blocks per stored row of a component.
pub open spec fn row_stride(ctx: TrialContext, comp: int) -> int {
    if comp == 0 {
        ctx.mcu_cols * ctx.h_samp
    } else {
        ctx.mcu_cols
    }
}

/// Index of block (`v`, `h`) of MCU (`r`, `c`) in a component.
pub open spec fn mcu_block_index(ctx: TrialContext, comp: int, r: int, c: int, v: int, h: int) -> int {
    (r * mcu_v_blocks(ctx, comp) + v) * row_stride(ctx, comp) + c * mcu_h_blocks(ctx, comp) + h
}

/// Rows of actual (not MCU-padded) blocks of a component.
pub open spec fn actual_block_rows(ctx: TrialContext, comp: int) -> int {
    if comp == 0 {
        (ctx.height + 7) / 8
    } else {
        (ctx.chroma_height + 7) / 8
    }
}

/// Columns of actual blocks of a component.
pub open spec fn actual_block_cols(ctx: TrialContext, comp: int) -> int {
    if comp == 0 {
        (ctx.width + 7) / 8
    } else {
        (ctx.chroma_width + 7) / 8
    }
}

/// Progress of a DC scan: bits written, DC predictors, block states.
pub struct DcProgress {
    pub bits: Seq<bool>,
    pub last_dc: Seq<i32>,
    pub states: Seq<Seq<BlockState>>,
}

/// A block marked as coded by a first DC scan at `al`.
pub open spec fn mark_coded(b: BlockState, al: u8) -> BlockState {
    BlockState { ac_state: b.ac_state, dc_first_al: al, dc_coded: true }
}

/// One block of a DC scan. A first scan codes the difference of the
/// shifted DC from the component's predictor and marks the block coded; a
/// refinement sends bit `al` of a block that a first scan has coded.
pub open spec fn dc_block(ctx: TrialContext, scan: ScanInfo, p: DcProgress, comp: int, idx: int) -> DcProgress {
    if idx < 0 || idx >= ctx.blocks[comp].len() {
        p
    } else {
        let t2 = shr(ctx.blocks[comp][idx][0] as int, scan.al as nat);
        if scan.ah != 0 {
            if p.states[comp][idx].dc_coded {
                DcProgress { bits: p.bits + bits_msb(t2, 1), last_dc: p.last_dc, states: p.states }
            } else {
                p
            }
        } else {
            DcProgress {
                bits: p.bits + dc_bits(t2 - p.last_dc[comp] as int, dc_table_of(ctx, comp)),
                last_dc: p.last_dc.update(comp, t2 as i32),
                states: p.states.update(comp, p.states[comp].update(idx, mark_coded(p.states[comp][idx], scan.al))),
            }
        }
    }
}

/// The first `k` blocks of row `v` of a component in MCU (`r`, `c`).
pub open spec fn dc_hs(ctx: TrialContext, scan: ScanInfo, p: DcProgress, comp: int, r: int, c: int, v: int, k: int) -> DcProgress
    decreases k,
{
    if k <= 0 {
        p
    } else {
        dc_block(ctx, scan, dc_hs(ctx, scan, p, comp, r, c, v, k - 1), comp, mcu_block_index(ctx, comp, r, c, v, k - 1))
    }
}

/// The first `k` block rows of a component in MCU (`r`, `c`).
pub open spec fn dc_vs(ctx: TrialContext, scan: ScanInfo, p: DcProgress, comp: int, r: int, c: int, k: int) -> DcProgress
    decreases k,
{
    if k <= 0 {
        p
    } else {
        dc_hs(ctx, scan, dc_vs(ctx, scan, p, comp, r, c, k - 1), comp, r, c, k - 1, mcu_h_blocks(ctx, comp))
    }
}

/// The first `k` components of the scan in MCU (`r`, `c`); indices above 2
/// are skipped.
pub open spec fn dc_comps(ctx: TrialContext, scan: ScanInfo, p: DcProgress, r: int, c: int, k: int) -> DcProgress
    decreases k,
{
    if k <= 0 {
        p
    } else {
        let q = dc_comps(ctx, scan, p, r, c, k - 1);
        let comp = scan.component_index[k - 1] as int;
        if comp < 3 {
            dc_vs(ctx, scan, q, comp, r, c, mcu_v_blocks(ctx, comp))
        } else {
            q
        }
    }
}

/// The first `k` MCUs of MCU row `r`.
pub open spec fn dc_cols(ctx: TrialContext, scan: ScanInfo, p: DcProgress, r: int, k: int) -> DcProgress
    decreases k,
{
    if k <= 0 {
        p
    } else {
        dc_comps(ctx, scan, dc_cols(ctx, scan, p, r, k - 1), r, k - 1, scan.comps_in_scan as int)
    }
}

/// The first `k` MCU rows of a DC scan.
pub open spec fn dc_rows(ctx: TrialContext, scan: ScanInfo, p: DcProgress, k: int) -> DcProgress
    decreases k,
{
    if k <= 0 {
        p
    } else {
        dc_cols(ctx, scan, dc_rows(ctx, scan, p, k - 1), k - 1, ctx.mcu_cols)
    }
}

/// The coding state with no zero run and no waiting correction bits.
pub open spec fn settle(st: RefineState) -> RefineState {
    RefineState { bits: st.bits, eobrun: st.eobrun, be: st.be, run: 0, br: Seq::empty() }
}

/// One block of an AC scan: a first scan or a refinement of `ss..=se`.
pub open spec fn ac_block(ctx: TrialContext, scan: ScanInfo, st: RefineState, comp: int, idx: int) -> RefineState {
    if idx < 0 || idx >= ctx.blocks[comp].len() {
        st
    } else {
        let b = ctx.blocks[comp][idx]@;
        let t = ac_table_of(ctx, comp);
        let ss = scan.ss as int;
        let se = scan.se as int;
        let al = scan.al as nat;
        if scan.ah != 0 {
            let avals = refine_abs(b, ss, se, al);
            settle(refine_finish(
                refine_coefs(st, avals, refine_signs(b, ss, se), avals.len() as int, last_one(avals), t),
                t,
            ))
        } else {
            settle(ac_first_result(st, b, ss, se, al, t))
        }
    }
}

/// The first `k` blocks of block row `r` of an AC scan.
pub open spec fn ac_cols(ctx: TrialContext, scan: ScanInfo, st: RefineState, comp: int, r: int, k: int) -> RefineState
    decreases k,
{
    if k <= 0 {
        st
    } else {
        ac_block(ctx, scan, ac_cols(ctx, scan, st, comp, r, k - 1), comp, r * row_stride(ctx, comp) + k - 1)
    }
}

/// The first `k` block rows of an AC scan.
pub open spec fn ac_rows(ctx: TrialContext, scan: ScanInfo, st: RefineState, comp: int, k: int) -> RefineState
    decreases k,
{
    if k <= 0 {
        st
    } else {
        ac_cols(ctx, scan, ac_rows(ctx, scan, st, comp, k - 1), comp, k - 1, actual_block_cols(ctx, comp))
    }
}

/// The empty coding state of a new scan.
pub open spec fn empty_refine() -> RefineState {
    RefineState { bits: Seq::empty(), eobrun: 0, be: Seq::empty(), run: 0, br: Seq::empty() }
}

/// The bits of one scan coded from block states `states`, padded to a byte,
/// and the block states after it. A DC scan visits MCUs in order; an AC
/// scan visits the actual blocks of its first component row by row and
/// ends by flushing its EOB run.
pub open spec fn scan_result(ctx: TrialContext, states: Seq<Seq<BlockState>>, scan: ScanInfo) -> (Seq<bool>, Seq<Seq<BlockState>>) {
    if scan.ss == 0 {
        let p = dc_rows(
            ctx,
            scan,
            DcProgress { bits: Seq::empty(), last_dc: seq![0i32, 0i32, 0i32, 0i32], states },
            ctx.mcu_rows,
        );
        (p.bits + ones(pad_len(p.bits.len())), p.states)
    } else {
        let comp = scan.component_index[0] as int;
        let st = if comp < 3 {
            ac_rows(ctx, scan, empty_refine(), comp, actual_block_rows(ctx, comp))
        } else {
            empty_refine()
        };
        let b = st.bits + eob_flush_bits(st.eobrun, st.be, ac_table_of(ctx, comp));
        (b + ones(pad_len(b.len())), states)
    }
}

/// The byte buffer of one scan: its bits packed and stuffed.
pub open spec fn scan_bytes(ctx: TrialContext, states: Seq<Seq<BlockState>>, scan: ScanInfo) -> Seq<u8> {
    stuff(pack_bytes(scan_result(ctx, states, scan).0))
}

/// The buffers of the first `k` scans coded in order, each from the block
/// states the scans before it left, and the final block states.
pub open spec fn trial_run(ctx: TrialContext, states: Seq<Seq<BlockState>>, scans: Seq<ScanInfo>, k: int) -> (Seq<Seq<u8>>, Seq<Seq<BlockState>>)
    decreases k,
{
    if k <= 0 {
        (Seq::empty(), states)
    } else {
        let prev = trial_run(ctx, states, scans, k - 1);
        (prev.0.push(scan_bytes(ctx, prev.1, scans[k - 1])), scan_result(ctx, prev.1, scans[k - 1]).1)
    }
}

impl BlockState {
    fn fresh() -> (r: BlockState)
        ensures
            fresh_block(r),
    {
        BlockState {
            ac_state: [CoeffState { first_al: 0, coded: false };63],
            dc_first_al: 0,
            dc_coded: false,
        }
    }
}

fn fresh_states(n: usize) -> (r: Vec<BlockState>)
    ensures
        r@.len() == n,
        forall|i: int| 0 <= i < n ==> fresh_block(#[trigger] r@[i]),
{
    let mut v: Vec<BlockState> = Vec::new();
    let mut i: usize = 0;
    while i < n
        invariant
            i <= n,
            v@.len() == i,
            forall|j: int| 0 <= j < i ==> fresh_block(#[trigger] v@[j]),
        decreases n - i,
    {
        v.push(BlockState::fresh());
        i = i + 1;
    }
    v
}

/// Every coefficient of every block has a magnitude below 2^14, so that
/// DC differences and AC values stay within category 15.
pub open spec fn blocks_in_range(blocks: Seq<[i16; 64]>) -> bool {
    forall|b: int, i: int|
        0 <= b < blocks.len() && 0 <= i < 64 ==> -16383 <= #[trigger] blocks[b][i] <= 16383
}

/// A scan that the trial encoder can code: well formed, with component
/// indices below 4.
pub open spec fn scan_ok(s: ScanInfo) -> bool {
    &&& s.wf()
    &&& forall|i: int| 0 <= i < 4 ==> s.component_index[i] < 4
}

/// Sequential scan trial encoder.
pub struct ScanTrialEncoder<'a> {
    y_blocks: &'a [[i16; 64]],
    cb_blocks: &'a [[i16; 64]],
    cr_blocks: &'a [[i16; 64]],
    y_state: Vec<BlockState>,
    cb_state: Vec<BlockState>,
    cr_state: Vec<BlockState>,
    dc_luma: &'a DerivedTable,
    dc_chroma: &'a DerivedTable,
    ac_luma: &'a DerivedTable,
    ac_chroma: &'a DerivedTable,
    mcu_rows: usize,
    mcu_cols: usize,
    h_samp: u8,
    v_samp: u8,
    actual_width: usize,
    actual_height: usize,
    chroma_width: usize,
    chroma_height: usize,
    scan_buffers: Vec<Vec<u8>>,
}

/// The DC-scan progress held by an encoder and a set of block states.
pub open spec fn dc_progress(enc: ProgressiveEncoder, states: Seq<Seq<BlockState>>) -> DcProgress {
    DcProgress { bits: enc.writer.bits(), last_dc: enc.last_dc_val@, states }
}

proof fn lemma_trial_run_len(ctx: TrialContext, states: Seq<Seq<BlockState>>, scans: Seq<ScanInfo>, k: int)
    requires
        k >= 0,
    ensures
        trial_run(ctx, states, scans, k).0.len() == k,
    decreases k,
{
    if k > 0 {
        lemma_trial_run_len(ctx, states, scans, k - 1);
    }
}

impl<'a> ScanTrialEncoder<'a> {
    /// The block data, tables and geometry admit coding, and each component
    /// has one state per block.
    pub closed spec fn wf(&self) -> bool {
        &&& self.y_state@.len() == self.y_blocks@.len()
        &&& self.cb_state@.len() == self.cb_blocks@.len()
        &&& self.cr_state@.len() == self.cr_blocks@.len()
        &&& blocks_in_range(self.y_blocks@)
        &&& blocks_in_range(self.cb_blocks@)
        &&& blocks_in_range(self.cr_blocks@)
        &&& self.dc_luma.wf() && self.dc_chroma.wf() && self.ac_luma.wf() && self.ac_chroma.wf()
        &&& dc_complete(*self.dc_luma) && dc_complete(*self.dc_chroma)
        &&& ac_complete(*self.ac_luma) && ac_complete(*self.ac_chroma)
        &&& self.mcu_rows <= 8192 && self.mcu_cols <= 8192
        &&& 1 <= self.h_samp <= 4 && 1 <= self.v_samp <= 4
        &&& self.actual_width <= 65535 && self.actual_height <= 65535
        &&& self.chroma_width <= 65535 && self.chroma_height <= 65535
    }

    /// The byte buffers of the scans coded so far.
    pub closed spec fn buffers(&self) -> Seq<Vec<u8>> {
        self.scan_buffers@
    }

    /// The blocks, tables and geometry that the scans read.
    pub closed spec fn ctx(&self) -> TrialContext {
        TrialContext {
            blocks: seq![self.y_blocks@, self.cb_blocks@, self.cr_blocks@],
            dc_luma: *self.dc_luma,
            dc_chroma: *self.dc_chroma,
            ac_luma: *self.ac_luma,
            ac_chroma: *self.ac_chroma,
            mcu_rows: self.mcu_rows as int,
            mcu_cols: self.mcu_cols as int,
            h_samp: self.h_samp as int,
            v_samp: self.v_samp as int,
            width: self.actual_width as int,
            height: self.actual_height as int,
            chroma_width: self.chroma_width as int,
            chroma_height: self.chroma_height as int,
        }
    }

    /// The coded state of every block, per component.
    pub closed spec fn states(&self) -> Seq<Seq<BlockState>> {
        seq![self.y_state@, self.cb_state@, self.cr_state@]
    }

    /// Create an encoder over the quantized blocks of the three components;
    /// every block starts uncoded.
    pub fn new(
        y_blocks: &'a [[i16; 64]],
        cb_blocks: &'a [[i16; 64]],
        cr_blocks: &'a [[i16; 64]],
        dc_luma: &'a DerivedTable,
        dc_chroma: &'a DerivedTable,
        ac_luma: &'a DerivedTable,
        ac_chroma: &'a DerivedTable,
        mcu_rows: usize,
        mcu_cols: usize,
        h_samp: u8,
        v_samp: u8,
        actual_width: usize,
        actual_height: usize,
        chroma_width: usize,
        chroma_height: usize,
    ) -> (r: Self)
        requires
            blocks_in_range(y_blocks@),
            blocks_in_range(cb_blocks@),
            blocks_in_range(cr_blocks@),
            dc_luma.wf(),
            dc_chroma.wf(),
            ac_luma.wf(),
            ac_chroma.wf(),
            dc_complete(*dc_luma),
            dc_complete(*dc_chroma),
            ac_complete(*ac_luma),
            ac_complete(*ac_chroma),
            mcu_rows <= 8192,
            mcu_cols <= 8192,
            1 <= h_samp <= 4,
            1 <= v_samp <= 4,
            actual_width <= 65535,
            actual_height <= 65535,
            chroma_width <= 65535,
            chroma_height <= 65535,
        ensures
            r.wf(),
            r.buffers().len() == 0,
            r.ctx() == (TrialContext {
                blocks: seq![y_blocks@, cb_blocks@, cr_blocks@],
                dc_luma: *dc_luma,
                dc_chroma: *dc_chroma,
                ac_luma: *ac_luma,
                ac_chroma: *ac_chroma,
                mcu_rows: mcu_rows as int,
                mcu_cols: mcu_cols as int,
                h_samp: h_samp as int,
                v_samp: v_samp as int,
                width: actual_width as int,
                height: actual_height as int,
                chroma_width: chroma_width as int,
                chroma_height: chroma_height as int,
            }),
            all_fresh(r.states(), r.ctx()),
    {
        let r = ScanTrialEncoder {
            y_blocks,
            cb_blocks,
            cr_blocks,
            y_state: fresh_states(y_blocks.len()),
            cb_state: fresh_states(cb_blocks.len()),
            cr_state: fresh_states(cr_blocks.len()),
            dc_luma,
            dc_chroma,
            ac_luma,
            ac_chroma,
            mcu_rows,
            mcu_cols,
            h_samp,
            v_samp,
            actual_width,
            actual_height,
            chroma_width,
            chroma_height,
            scan_buffers: Vec::new(),
        };
        proof {
            r.lemma_fresh_after_fill();
        }
        r
    }

    proof fn lemma_fresh_after_fill(&self)
        requires
            self.y_state@.len() == self.y_blocks@.len(),
            self.cb_state@.len() == self.cb_blocks@.len(),
            self.cr_state@.len() == self.cr_blocks@.len(),
            forall|i: int| 0 <= i < self.y_state@.len() ==> fresh_block(#[trigger] self.y_state@[i]),
            forall|i: int| 0 <= i < self.cb_state@.len() ==> fresh_block(#[trigger] self.cb_state@[i]),
            forall|i: int| 0 <= i < self.cr_state@.len() ==> fresh_block(#[trigger] self.cr_state@[i]),
        ensures
            all_fresh(self.states(), self.ctx()),
    {
        let st = self.states();
        assert forall|c: int, i: int| 0 <= c < 3 && 0 <= i < st[c].len() implies fresh_block(
            #[trigger] st[c][i],
        ) by {
            if c == 0 {
                assert(st[c] == self.y_state@);
            } else if c == 1 {
                assert(st[c] == self.cb_state@);
            } else {
                assert(st[c] == self.cr_state@);
            }
        }
    }

    /// Encode the scans in order, keeping block state between them, and
    /// return the byte size of each. Buffer `i` holds the bytes of scan `i`
    /// coded from the state that scans `0..i` left.
    pub fn encode_all_scans(&mut self, scans: &[ScanInfo]) -> (r: Result<Vec<usize>, Error>)
        requires
            old(self).wf(),
            forall|i: int| 0 <= i < scans@.len() ==> scan_ok(#[trigger] scans@[i]),
        ensures
            final(self).wf(),
            final(self).ctx() == old(self).ctx(),
            r.is_ok(),
            r.unwrap()@.len() == scans@.len(),
            final(self).buffers().len() == old(self).buffers().len() + scans@.len(),
            final(self).buffers().subrange(0, old(self).buffers().len() as int) == old(
                self,
            ).buffers(),
            ({
                let run = trial_run(old(self).ctx(), old(self).states(), scans@, scans@.len() as int);
                &&& final(self).states() == run.1
                &&& forall|i: int|
                    0 <= i < scans@.len() ==> (#[trigger] final(self).buffers()[old(self).buffers().len()
                        + i])@ == run.0[i] && r.unwrap()@[i] == run.0[i].len()
            }),
            forall|i: int|
                0 <= i < scans@.len() ==> ff_followed_by_zero(
                    (#[trigger] final(self).buffers()[old(self).buffers().len() + i])@,
                ),
    {
        let ghost ctx = self.ctx();
        let ghost st0 = self.states();
        let mut sizes: Vec<usize> = Vec::new();
        let mut i: usize = 0;
        while i < scans.len()
            invariant
                i <= scans@.len(),
                self.wf(),
                self.ctx() == ctx,
                ctx == old(self).ctx(),
                st0 == old(self).states(),
                forall|j: int| 0 <= j < scans@.len() ==> scan_ok(#[trigger] scans@[j]),
                sizes@.len() == i,
                self.buffers().len() == old(self).buffers().len() + i,
                self.buffers().subrange(0, old(self).buffers().len() as int) == old(self).buffers(),
                self.states() == trial_run(ctx, st0, scans@, i as int).1,
                forall|j: int|
                    0 <= j < i ==> (#[trigger] self.buffers()[old(self).buffers().len() + j])@
                        == trial_run(ctx, st0, scans@, i as int).0[j] && sizes@[j]
                        == self.buffers()[old(self).buffers().len() + j]@.len(),
                forall|j: int|
                    0 <= j < i ==> ff_followed_by_zero(
                        (#[trigger] self.buffers()[old(self).buffers().len() + j])@,
                    ),
            decreases scans@.len() - i,
        {
            let ghost prev = self.buffers();
            let ghost before = trial_run(ctx, st0, scans@, i as int);
            let size = self.encode_scan(&scans[i])?;
            sizes.push(size);
            proof {
                lemma_trial_run_len(ctx, st0, scans@, i as int);
                let after = trial_run(ctx, st0, scans@, i + 1);
                assert(after.0 == before.0.push(scan_bytes(ctx, before.1, scans@[i as int])));
                assert(self.buffers().subrange(0, prev.len() as int) =~= prev);
                assert(self.buffers().subrange(0, old(self).buffers().len() as int) =~= prev.subrange(
                    0,
                    old(self).buffers().len() as int,
                ));
                assert forall|j: int| 0 <= j < i + 1 implies (#[trigger] self.buffers()[old(
                    self,
                ).buffers().len() + j])@ == after.0[j] && sizes@[j] == self.buffers()[old(
                    self,
                ).buffers().len() + j]@.len() && ff_followed_by_zero(
                    self.buffers()[old(self).buffers().len() + j]@,
                ) by {
                    if j < i {
                        assert(self.buffers()[old(self).buffers().len() + j] == prev[old(
                            self,
                        ).buffers().len() + j]);
                        assert(after.0[j] == before.0[j]);
                    }
                }
            }
            i = i + 1;
        }
        proof {
            lemma_trial_run_len(ctx, st0, scans@, scans@.len() as int);
            let run = trial_run(ctx, st0, scans@, scans@.len() as int);
            assert(i as int == scans@.len());
            assert(run == trial_run(ctx, st0, scans@, i as int));
            assert forall|j: int| 0 <= j < scans@.len() implies (#[trigger] self.buffers()[old(
                self,
            ).buffers().len() + j])@ == run.0[j] && sizes@[j] == run.0[j].len() by {
                assert(self.buffers()[old(self).buffers().len() + j]@ == trial_run(
                    ctx,
                    st0,
                    scans@,
                    i as int,
                ).0[j]);
            }
        }
        Ok(sizes)
    }

    /// Encode one scan into a new buffer and return its size.
    fn encode_scan(&mut self, scan: &ScanInfo) -> (r: Result<usize, Error>)
        requires
            old(self).wf(),
            scan_ok(*scan),
        ensures
            final(self).wf(),
            final(self).ctx() == old(self).ctx(),
            r.is_ok(),
            final(self).buffers() == old(self).buffers().push(final(self).buffers().last()),
            final(self).buffers().last()@ == scan_bytes(old(self).ctx(), old(self).states(), *scan),
            final(self).states() == scan_result(old(self).ctx(), old(self).states(), *scan).1,
            r.unwrap() == final(self).buffers().last()@.len(),
            ff_followed_by_zero(final(self).buffers().last()@),
    {
        let ghost ctx = self.ctx();
        let ghost states0 = self.states();
        let mut encoder = ProgressiveEncoder::new();
        proof {
            assert(encoder.last_dc_val@ =~= seq![0i32, 0i32, 0i32, 0i32]);
            assert(encoder.be@ =~= Seq::<bool>::empty());
            assert(encoder.refine_start() == empty_refine());
        }
        let is_dc_scan = scan.ss == 0 && scan.se == 0;
        let is_refinement = scan.ah != 0;
        if is_dc_scan {
            self.encode_dc_scan(scan, is_refinement, &mut encoder)?;
        } else {
            self.encode_ac_scan(scan, is_refinement, &mut encoder)?;
        }
        let ac_table = if scan.ss > 0 {
            if scan.component_index[0] == 0 {
                Some(self.ac_luma)
            } else {
                Some(self.ac_chroma)
            }
        } else {
            None
        };
        encoder.finish_scan(ac_table)?;
        proof {
            lemma_writer_bytes_stuffed(encoder.writer);
            encoder.writer.lemma_wf_bytes();
        }
        let buffer = encoder.writer.into_bytes();
        let size = buffer.len();
        self.scan_buffers.push(buffer);
        Ok(size)
    }

    /// Record that a first DC scan at `al` coded block `idx` of a component.
    fn mark_dc_coded(&mut self, comp_idx: usize, idx: usize, al: u8)
        requires
            old(self).wf(),
            comp_idx < 3,
            idx < old(self).ctx().blocks[comp_idx as int].len(),
        ensures
            final(self).wf(),
            final(self).ctx() == old(self).ctx(),
            final(self).buffers() == old(self).buffers(),
            final(self).states() == old(self).states().update(
                comp_idx as int,
                old(self).states()[comp_idx as int].update(
                    idx as int,
                    mark_coded(old(self).states()[comp_idx as int][idx as int], al),
                ),
            ),
    {
        if comp_idx == 0 {
            let mut st = self.y_state[idx];
            st.dc_coded = true;
            st.dc_first_al = al;
            self.y_state.set(idx, st);
        } else if comp_idx == 1 {
            let mut st = self.cb_state[idx];
            st.dc_coded = true;
            st.dc_first_al = al;
            self.cb_state.set(idx, st);
        } else {
            let mut st = self.cr_state[idx];
            st.dc_coded = true;
            st.dc_first_al = al;
            self.cr_state.set(idx, st);
        }
        proof {
            assert(self.states() =~= old(self).states().update(
                comp_idx as int,
                old(self).states()[comp_idx as int].update(
                    idx as int,
                    mark_coded(old(self).states()[comp_idx as int][idx as int], al),
                ),
            ));
        }
    }

    /// Whether a first DC scan has coded block `idx` of a component.
    fn dc_coded(&self, comp_idx: usize, idx: usize) -> (r: bool)
        requires
            self.wf(),
            comp_idx < 3,
            idx < self.ctx().blocks[comp_idx as int].len(),
        ensures
            r == self.states()[comp_idx as int][idx as int].dc_coded,
    {
        if comp_idx == 0 {
            self.y_state[idx].dc_coded
        } else if comp_idx == 1 {
            self.cb_state[idx].dc_coded
        } else {
            self.cr_state[idx].dc_coded
        }
    }

    /// Encode a DC scan, MCU by MCU: the DC first or refinement bits of every
    /// visited block go to `encoder`, and a first scan marks each visited
    /// block coded.
    fn encode_dc_scan(
        &mut self,
        scan: &ScanInfo,
        is_refinement: bool,
        encoder: &mut ProgressiveEncoder,
    ) -> (r: Result<(), Error>)
        requires
            old(self).wf(),
            scan_ok(*scan),
            is_refinement == (scan.ah != 0),
            old(encoder).wf(),
            old(encoder).eobrun == 0,
        ensures
            r.is_ok(),
            final(self).wf(),
            final(self).ctx() == old(self).ctx(),
            final(self).buffers() == old(self).buffers(),
            final(encoder).wf(),
            final(encoder).eobrun == 0,
            final(encoder).be == old(encoder).be,
            dc_progress(*final(encoder), final(self).states()) == dc_rows(
                old(self).ctx(),
                *scan,
                dc_progress(*old(encoder), old(self).states()),
                old(self).ctx().mcu_rows,
            ),
    {
        let ghost ctx = self.ctx();
        let ghost p0 = dc_progress(*encoder, self.states());
        let al = scan.al;
        let mcu_rows = self.mcu_rows;
        let mcu_cols = self.mcu_cols;
        let h_samp = self.h_samp;
        let v_samp = self.v_samp;
        let y_blocks = self.y_blocks;
        let cb_blocks = self.cb_blocks;
        let cr_blocks = self.cr_blocks;
        let dc_luma = self.dc_luma;
        let dc_chroma = self.dc_chroma;
        let mut mcu_row: usize = 0;
        while mcu_row < mcu_rows
            invariant
                self.wf(),
                self.ctx() == ctx,
                scan_ok(*scan),
                is_refinement == (scan.ah != 0),
                al == scan.al,
                mcu_rows == ctx.mcu_rows,
                mcu_cols == ctx.mcu_cols,
                h_samp == ctx.h_samp,
                v_samp == ctx.v_samp,
                ctx.blocks == seq![y_blocks@, cb_blocks@, cr_blocks@],
                *dc_luma == ctx.dc_luma,
                *dc_chroma == ctx.dc_chroma,
                mcu_row <= mcu_rows <= 8192,
                mcu_cols <= 8192,
                1 <= h_samp <= 4,
                1 <= v_samp <= 4,
                encoder.wf(),
                encoder.eobrun == 0,
                encoder.be == old(encoder).be,
                self.buffers() == old(self).buffers(),
                dc_progress(*encoder, self.states()) == dc_rows(ctx, *scan, p0, mcu_row as int),
            decreases mcu_rows - mcu_row,
        {
            let ghost pr = dc_progress(*encoder, self.states());
            let mut mcu_col: usize = 0;
            while mcu_col < mcu_cols
                invariant
                    self.wf(),
                    self.ctx() == ctx,
                    scan_ok(*scan),
                    is_refinement == (scan.ah != 0),
                    al == scan.al,
                    mcu_rows == ctx.mcu_rows,
                    mcu_cols == ctx.mcu_cols,
                    h_samp == ctx.h_samp,
                    v_samp == ctx.v_samp,
                    ctx.blocks == seq![y_blocks@, cb_blocks@, cr_blocks@],
                    *dc_luma == ctx.dc_luma,
                    *dc_chroma == ctx.dc_chroma,
                    mcu_row < mcu_rows <= 8192,
                    mcu_col <= mcu_cols <= 8192,
                    1 <= h_samp <= 4,
                    1 <= v_samp <= 4,
                    encoder.wf(),
                    encoder.eobrun == 0,
                    encoder.be == old(encoder).be,
                    self.buffers() == old(self).buffers(),
                    dc_progress(*encoder, self.states()) == dc_cols(ctx, *scan, pr, mcu_row as int, mcu_col as int),
                decreases mcu_cols - mcu_col,
            {
                let ghost pc = dc_progress(*encoder, self.states());
                let mut i: usize = 0;
                while i < scan.comps_in_scan as usize
                    invariant
                        self.wf(),
                        self.ctx() == ctx,
                        scan_ok(*scan),
                        is_refinement == (scan.ah != 0),
                        al == scan.al,
                        mcu_rows == ctx.mcu_rows,
                        mcu_cols == ctx.mcu_cols,
                        h_samp == ctx.h_samp,
                        v_samp == ctx.v_samp,
                        ctx.blocks == seq![y_blocks@, cb_blocks@, cr_blocks@],
                        *dc_luma == ctx.dc_luma,
                        *dc_chroma == ctx.dc_chroma,
                        mcu_row < mcu_rows <= 8192,
                        mcu_col < mcu_cols <= 8192,
                        1 <= h_samp <= 4,
                        1 <= v_samp <= 4,
                        i <= scan.comps_in_scan,
                        encoder.wf(),
                        encoder.eobrun == 0,
                        encoder.be == old(encoder).be,
                        self.buffers() == old(self).buffers(),
                        dc_progress(*encoder, self.states()) == dc_comps(
                            ctx,
                            *scan,
                            pc,
                            mcu_row as int,
                            mcu_col as int,
                            i as int,
                        ),
                    decreases scan.comps_in_scan - i,
                {
                    let comp_idx = scan.component_index[i] as usize;
                    if comp_idx < 3 {
                        let ghost pv = dc_progress(*encoder, self.states());
                        let (h_blocks, v_blocks): (usize, usize) = if comp_idx == 0 {
                            (h_samp as usize, v_samp as usize)
                        } else {
                            (1, 1)
                        };
                        let mut v: usize = 0;
                        while v < v_blocks
                            invariant
                                self.wf(),
                                self.ctx() == ctx,
                                scan_ok(*scan),
                                is_refinement == (scan.ah != 0),
                                al == scan.al,
                                mcu_rows == ctx.mcu_rows,
                                mcu_cols == ctx.mcu_cols,
                                h_samp == ctx.h_samp,
                                v_samp == ctx.v_samp,
                                ctx.blocks == seq![y_blocks@, cb_blocks@, cr_blocks@],
                                *dc_luma == ctx.dc_luma,
                                *dc_chroma == ctx.dc_chroma,
                                comp_idx < 3,
                                mcu_row < mcu_rows <= 8192,
                                mcu_col < mcu_cols <= 8192,
                                h_blocks == mcu_h_blocks(ctx, comp_idx as int),
                                v_blocks == mcu_v_blocks(ctx, comp_idx as int),
                                1 <= h_blocks <= 4,
                                1 <= v_blocks <= 4,
                                v <= v_blocks,
                                encoder.wf(),
                                encoder.eobrun == 0,
                                encoder.be == old(encoder).be,
                                self.buffers() == old(self).buffers(),
                                dc_progress(*encoder, self.states()) == dc_vs(
                                    ctx,
                                    *scan,
                                    pv,
                                    comp_idx as int,
                                    mcu_row as int,
                                    mcu_col as int,
                                    v as int,
                                ),
                            decreases v_blocks - v,
                        {
                            let ghost ph = dc_progress(*encoder, self.states());
                            let mut h: usize = 0;
                            while h < h_blocks
                                invariant
                                    self.wf(),
                                    self.ctx() == ctx,
                                    scan_ok(*scan),
                                    is_refinement == (scan.ah != 0),
                                    al == scan.al,
                                    mcu_cols == ctx.mcu_cols,
                                    h_samp == ctx.h_samp,
                                    v_samp == ctx.v_samp,
                                    ctx.blocks == seq![y_blocks@, cb_blocks@, cr_blocks@],
                                    *dc_luma == ctx.dc_luma,
                                    *dc_chroma == ctx.dc_chroma,
                                    comp_idx < 3,
                                    mcu_row < 8192,
                                    mcu_col < mcu_cols <= 8192,
                                    h_blocks == mcu_h_blocks(ctx, comp_idx as int),
                                    v_blocks == mcu_v_blocks(ctx, comp_idx as int),
                                    1 <= h_blocks <= 4,
                                    1 <= v_blocks <= 4,
                                    v < v_blocks,
                                    h <= h_blocks,
                                    encoder.wf(),
                                    encoder.eobrun == 0,
                                    encoder.be == old(encoder).be,
                                    self.buffers() == old(self).buffers(),
                                    dc_progress(*encoder, self.states()) == dc_hs(
                                        ctx,
                                        *scan,
                                        ph,
                                        comp_idx as int,
                                        mcu_row as int,
                                        mcu_col as int,
                                        v as int,
                                        h as int,
                                    ),
                                decreases h_blocks - h,
                            {
                                let ghost p = dc_progress(*encoder, self.states());
                                proof {
                                    assert(mcu_cols * h_blocks <= 32768) by (nonlinear_arith)
                                        requires
                                            mcu_cols <= 8192,
                                            h_blocks <= 4,
                                    ;
                                }
                                let blocks_per_row = if comp_idx == 0 {
                                    mcu_cols * h_blocks
                                } else {
                                    mcu_cols
                                };
                                proof {
                                    assert(mcu_row * v_blocks + v < 32768) by (nonlinear_arith)
                                        requires
                                            mcu_row < 8192,
                                            v < v_blocks <= 4,
                                    ;
                                    assert(mcu_col * h_blocks + h < 32768) by (nonlinear_arith)
                                        requires
                                            mcu_col < 8192,
                                            h < h_blocks <= 4,
                                    ;
                                }
                                let block_row = mcu_row * v_blocks + v;
                                let block_col = mcu_col * h_blocks + h;
                                proof {
                                    assert(block_row < 32768) by (nonlinear_arith)
                                        requires
                                            block_row == mcu_row * v_blocks + v,
                                            mcu_row < 8192,
                                            v < v_blocks <= 4,
                                    ;
                                    assert(block_row * blocks_per_row <= 32768 * 32768) by (nonlinear_arith)
                                        requires
                                            block_row < 32768,
                                            blocks_per_row <= 32768,
                                    ;
                                    assert(block_col < 32768) by (nonlinear_arith)
                                        requires
                                            block_col == mcu_col * h_blocks + h,
                                            mcu_col < 8192,
                                            h < h_blocks <= 4,
                                    ;
                                }
                                let block_idx = block_row * blocks_per_row + block_col;
                                let ghost gidx = mcu_block_index(
                                    ctx,
                                    comp_idx as int,
                                    mcu_row as int,
                                    mcu_col as int,
                                    v as int,
                                    h as int,
                                );
                                proof {
                                    assert(blocks_per_row as int == row_stride(ctx, comp_idx as int));
                                    assert(block_idx as int == gidx);
                                }
                                let blocks: &[[i16; 64]] = if comp_idx == 0 {
                                    y_blocks
                                } else if comp_idx == 1 {
                                    cb_blocks
                                } else {
                                    cr_blocks
                                };
                                proof {
                                    assert(blocks@ == ctx.blocks[comp_idx as int]);
                                }
                                if block_idx < blocks.len() {
                                    let block = &blocks[block_idx];
                                    if is_refinement {
                                        if self.dc_coded(comp_idx, block_idx) {
                                            encoder.encode_dc_refine(block, al)?;
                                        }
                                        proof {
                                            assert(dc_progress(*encoder, self.states()) == dc_block(
                                                ctx,
                                                *scan,
                                                p,
                                                comp_idx as int,
                                                gidx,
                                            ));
                                        }
                                    } else {
                                        let dc_table = if comp_idx == 0 {
                                            dc_luma
                                        } else {
                                            dc_chroma
                                        };
                                        encoder.encode_dc_first(block, comp_idx, dc_table, al)?;
                                        self.mark_dc_coded(comp_idx, block_idx, al);
                                        proof {
                                            assert(dc_table_of(ctx, comp_idx as int) == *dc_table);
                                            assert(dc_progress(*encoder, self.states()) == dc_block(
                                                ctx,
                                                *scan,
                                                p,
                                                comp_idx as int,
                                                gidx,
                                            ));
                                        }
                                    }
                                }
                                h = h + 1;
                            }
                            v = v + 1;
                        }
                    }
                    i = i + 1;
                }
                mcu_col = mcu_col + 1;
            }
            mcu_row = mcu_row + 1;
        }
        Ok(())
    }

    /// Encode an AC scan of one component over its actual (not MCU-padded)
    /// blocks, row by row: each block's first-scan or refinement coding goes
    /// to `encoder`.
    fn encode_ac_scan(
        &self,
        scan: &ScanInfo,
        is_refinement: bool,
        encoder: &mut ProgressiveEncoder,
    ) -> (r: Result<(), Error>)
        requires
            self.wf(),
            scan_ok(*scan),
            scan.ss != 0,
            is_refinement == (scan.ah != 0),
            old(encoder).wf(),
        ensures
            r.is_ok(),
            final(encoder).wf(),
            scan.component_index[0] < 3 ==> final(encoder).refine_start() == ac_rows(
                self.ctx(),
                *scan,
                old(encoder).refine_start(),
                scan.component_index[0] as int,
                actual_block_rows(self.ctx(), scan.component_index[0] as int),
            ),
            scan.component_index[0] >= 3 ==> *final(encoder) == *old(encoder),
    {
        let ghost ctx = self.ctx();
        let ghost s0 = encoder.refine_start();
        let comp_idx = scan.component_index[0] as usize;
        if comp_idx > 2 {
            return Ok(());
        }
        let blocks: &[[i16; 64]] = if comp_idx == 0 {
            self.y_blocks
        } else if comp_idx == 1 {
            self.cb_blocks
        } else {
            self.cr_blocks
        };
        let ac_table: &DerivedTable = if comp_idx == 0 {
            self.ac_luma
        } else {
            self.ac_chroma
        };
        let ss = scan.ss;
        let se = scan.se;
        let al = scan.al;
        let (num_block_rows, num_block_cols) = if comp_idx == 0 {
            ((self.actual_height + 7) / 8, (self.actual_width + 7) / 8)
        } else {
            ((self.chroma_height + 7) / 8, (self.chroma_width + 7) / 8)
        };
        proof {
            assert(self.mcu_cols * self.h_samp <= 32768) by (nonlinear_arith)
                requires
                    self.h_samp <= 4,
                    self.mcu_cols <= 8192,
            ;
        }
        let blocks_per_row = if comp_idx == 0 {
            self.mcu_cols * self.h_samp as usize
        } else {
            self.mcu_cols
        };
        proof {
            assert(blocks@ == ctx.blocks[comp_idx as int]);
            assert(*ac_table == ac_table_of(ctx, comp_idx as int));
            assert(blocks_per_row as int == row_stride(ctx, comp_idx as int));
            assert(num_block_rows as int == actual_block_rows(ctx, comp_idx as int));
            assert(num_block_cols as int == actual_block_cols(ctx, comp_idx as int));
        }
        let mut block_row: usize = 0;
        while block_row < num_block_rows
            invariant
                encoder.wf(),
                1 <= ss <= se <= 63,
                ss == scan.ss,
                se == scan.se,
                al == scan.al,
                al < 14,
                is_refinement == (scan.ah != 0),
                comp_idx < 3,
                ac_table.wf(),
                ac_complete(*ac_table),
                *ac_table == ac_table_of(ctx, comp_idx as int),
                blocks@ == ctx.blocks[comp_idx as int],
                blocks_in_range(blocks@),
                num_block_rows <= 8192,
                num_block_cols <= 8192,
                num_block_cols as int == actual_block_cols(ctx, comp_idx as int),
                blocks_per_row <= 32768,
                blocks_per_row as int == row_stride(ctx, comp_idx as int),
                encoder.refine_start() == ac_rows(ctx, *scan, s0, comp_idx as int, block_row as int),
                ctx == self.ctx(),
                block_row <= num_block_rows,
                s0 == old(encoder).refine_start(),
                comp_idx as int == scan.component_index[0] as int,
                num_block_rows as int == actual_block_rows(ctx, comp_idx as int),
            decreases num_block_rows - block_row,
        {
            let ghost sr = encoder.refine_start();
            let mut block_col: usize = 0;
            while block_col < num_block_cols
                invariant
                    encoder.wf(),
                    1 <= ss <= se <= 63,
                    ss == scan.ss,
                    se == scan.se,
                    al == scan.al,
                    al < 14,
                    is_refinement == (scan.ah != 0),
                    comp_idx < 3,
                    ac_table.wf(),
                    ac_complete(*ac_table),
                    *ac_table == ac_table_of(ctx, comp_idx as int),
                    blocks@ == ctx.blocks[comp_idx as int],
                    blocks_in_range(blocks@),
                    block_row < num_block_rows <= 8192,
                    num_block_cols <= 8192,
                    block_col <= num_block_cols,
                    blocks_per_row <= 32768,
                    blocks_per_row as int == row_stride(ctx, comp_idx as int),
                    num_block_cols as int == actual_block_cols(ctx, comp_idx as int),
                    encoder.refine_start() == ac_cols(
                        ctx,
                        *scan,
                        sr,
                        comp_idx as int,
                        block_row as int,
                        block_col as int,
                    ),
                decreases num_block_cols - block_col,
            {
                let ghost p = encoder.refine_start();
                proof {
                    assert(block_row * blocks_per_row <= 8192 * 32768) by (nonlinear_arith)
                        requires
                            block_row < 8192,
                            blocks_per_row <= 32768,
                    ;
                }
                let block_idx = block_row * blocks_per_row + block_col;
                if block_idx < blocks.len() {
                    let block = &blocks[block_idx];
                    proof {
                        assert forall|i: int| 0 <= i < 64 implies block[i] != i16::MIN by {
                            assert(blocks@[block_idx as int][i] != i16::MIN);
                        }
                    }
                    if is_refinement {
                        encoder.encode_ac_refine(block, ss, se, scan.ah, al, ac_table)?;
                    } else {
                        encoder.encode_ac_first(block, ss, se, al, ac_table)?;
                    }
                }
                proof {
                    assert(encoder.refine_start() == ac_block(
                        ctx,
                        *scan,
                        p,
                        comp_idx as int,
                        block_row * row_stride(ctx, comp_idx as int) + block_col,
                    ));
                }
                block_col = block_col + 1;
            }
            block_row = block_row + 1;
        }
        Ok(())
    }

    /// The stored scan buffers.
    pub fn get_scan_buffers(&self) -> (r: &[Vec<u8>])
        ensures
            r@ == self.buffers(),
    {
        self.scan_buffers.as_slice()
    }

    /// Forget all coded state and buffers, for a new trial sequence: every
    /// block is fresh again, exactly as after `new`.
    pub fn reset(&mut self)
        requires
            old(self).wf(),
        ensures
            final(self).wf(),
            final(self).ctx() == old(self).ctx(),
            final(self).buffers().len() == 0,
            all_fresh(final(self).states(), final(self).ctx()),
    {
        self.y_state = fresh_states(self.y_blocks.len());
        self.cb_state = fresh_states(self.cb_blocks.len());
        self.cr_state = fresh_states(self.cr_blocks.len());
        self.scan_buffers = Vec::new();
        proof {
            self.lemma_fresh_after_fill();
        }
    }
}

} // verus!
