//! Candidate scan scripts for progressive scan optimization: the 64 scans
//! (23 for grayscale) that mozjpeg's `jpeg_search_progression` lists, in
//! its order.
use vstd::prelude::*;

use crate::scan_trial::scan_ok;
use crate::types::ScanInfo;

verus! {

/// Highest successive-approximation bit tried for luma.
pub const AL_MAX_LUMA: u8 = 3;

/// Highest successive-approximation bit tried for chroma.
pub const AL_MAX_CHROMA: u8 = 2;

/// Frequency split points tried, in order.
pub const FREQUENCY_SPLIT: [u8; 5] = [2, 8, 5, 12, 18];

/// A scan of one component.
pub open spec fn one(ci: u8, ss: u8, se: u8, ah: u8, al: u8) -> ScanInfo {
    ScanInfo { comps_in_scan: 1, component_index: [ci, 0, 0, 0], ss, se, ah, al }
}

/// The interleaved DC scan of the first `n` components.
pub open spec fn dc_all(n: u8) -> ScanInfo {
    ScanInfo {
        comps_in_scan: n,
        component_index: [0, if n > 1 { 1 } else { 0 }, if n > 2 { 2 } else { 0 }, 0],
        ss: 0,
        se: 0,
        ah: 0,
        al: 0,
    }
}

/// Successive-approximation trials of luma for bits below `k`.
pub open spec fn luma_sa(k: int) -> Seq<ScanInfo>
    decreases k,
{
    if k <= 0 {
        Seq::empty()
    } else {
        luma_sa(k - 1) + seq![
            one(0, 1, 63, k as u8, (k - 1) as u8),
            one(0, 1, 8, 0, k as u8),
            one(0, 9, 63, 0, k as u8),
        ]
    }
}

/// Frequency-split trials of luma for the first `k` split points.
pub open spec fn luma_splits(k: int) -> Seq<ScanInfo>
    decreases k,
{
    if k <= 0 {
        Seq::empty()
    } else {
        let s = FREQUENCY_SPLIT@[k - 1];
        luma_splits(k - 1) + seq![one(0, 1, s, 0, 0), one(0, (s + 1) as u8, 63, 0, 0)]
    }
}

/// Successive-approximation trials of both chroma components for bits
/// below `k`.
pub open spec fn chroma_sa(k: int) -> Seq<ScanInfo>
    decreases k,
{
    if k <= 0 {
        Seq::empty()
    } else {
        chroma_sa(k - 1) + seq![
            one(1, 1, 63, k as u8, (k - 1) as u8),
            one(2, 1, 63, k as u8, (k - 1) as u8),
            one(1, 1, 8, 0, k as u8),
            one(1, 9, 63, 0, k as u8),
            one(2, 1, 8, 0, k as u8),
            one(2, 9, 63, 0, k as u8),
        ]
    }
}

/// Frequency-split trials of both chroma components for the first `k`
/// split points.
pub open spec fn chroma_splits(k: int) -> Seq<ScanInfo>
    decreases k,
{
    if k <= 0 {
        Seq::empty()
    } else {
        let s = FREQUENCY_SPLIT@[k - 1];
        chroma_splits(k - 1) + seq![
            one(1, 1, s, 0, 0),
            one(1, (s + 1) as u8, 63, 0, 0),
            one(2, 1, s, 0, 0),
            one(2, (s + 1) as u8, 63, 0, 0),
        ]
    }
}

/// The 23 luma trials: the DC scan of all `n` components, the base AC
/// split, successive approximation, the full AC scan, frequency splits.
pub open spec fn luma_script(n: u8) -> Seq<ScanInfo> {
    seq![dc_all(n), one(0, 1, 8, 0, 0), one(0, 9, 63, 0, 0)] + luma_sa(3) + seq![
        one(0, 1, 63, 0, 0),
    ] + luma_splits(5)
}

/// The 41 chroma trials: combined and separate DC scans, base AC splits,
/// successive approximation, full AC scans, frequency splits.
pub open spec fn chroma_script() -> Seq<ScanInfo> {
    seq![
        ScanInfo { comps_in_scan: 2, component_index: [1, 2, 0, 0], ss: 0, se: 0, ah: 0, al: 0 },
        one(1, 0, 0, 0, 0),
        one(2, 0, 0, 0, 0),
        one(1, 1, 8, 0, 0),
        one(1, 9, 63, 0, 0),
        one(2, 1, 8, 0, 0),
        one(2, 9, 63, 0, 0),
    ] + chroma_sa(2) + seq![one(1, 1, 63, 0, 0), one(2, 1, 63, 0, 0)] + chroma_splits(5)
}

/// The candidate script for `n` components: luma trials, then chroma
/// trials when there are three components.
pub open spec fn search_script(n: u8) -> Seq<ScanInfo> {
    if n == 3 {
        luma_script(3) + chroma_script()
    } else {
        luma_script(1)
    }
}

fn push_one(out: &mut Vec<ScanInfo>, ci: u8, ss: u8, se: u8, ah: u8, al: u8)
    ensures
        final(out)@ == old(out)@.push(one(ci, ss, se, ah, al)),
{
    out.push(ScanInfo { comps_in_scan: 1, component_index: [ci, 0, 0, 0], ss, se, ah, al });
}

/// The candidate scans that scan optimization trial-encodes: 64 for a
/// three-component YCbCr image, 23 for grayscale, none otherwise.
pub fn generate_search_scans(num_components: u8) -> (r: Option<Vec<ScanInfo>>)
    ensures
        r.is_some() <==> (num_components == 1 || num_components == 3),
        r.is_some() ==> r.unwrap()@ == search_script(num_components),
{
    if num_components != 1 && num_components != 3 {
        return None;
    }
    let n = num_components;
    let mut out: Vec<ScanInfo> = Vec::new();
    out.push(
        ScanInfo {
            comps_in_scan: n,
            component_index: [0, if n > 1 { 1 } else { 0 }, if n > 2 { 2 } else { 0 }, 0],
            ss: 0,
            se: 0,
            ah: 0,
            al: 0,
        },
    );
    push_one(&mut out, 0, 1, 8, 0, 0);
    push_one(&mut out, 0, 9, 63, 0, 0);
    let ghost head = out@;
    let mut al: u8 = 0;
    while al < AL_MAX_LUMA
        invariant
            al <= 3,
            out@ == head + luma_sa(al as int),
        decreases 3 - al,
    {
        push_one(&mut out, 0, 1, 63, al + 1, al);
        push_one(&mut out, 0, 1, 8, 0, al + 1);
        push_one(&mut out, 0, 9, 63, 0, al + 1);
        proof {
            assert(out@ =~= head + luma_sa(al + 1));
        }
        al = al + 1;
    }
    push_one(&mut out, 0, 1, 63, 0, 0);
    let ghost head2 = out@;
    let mut i: usize = 0;
    while i < 5
        invariant
            i <= 5,
            out@ == head2 + luma_splits(i as int),
        decreases 5 - i,
    {
        let s = FREQUENCY_SPLIT[i];
        push_one(&mut out, 0, 1, s, 0, 0);
        push_one(&mut out, 0, s + 1, 63, 0, 0);
        proof {
            assert(out@ =~= head2 + luma_splits(i + 1));
        }
        i = i + 1;
    }
    proof {
        assert(out@ =~= luma_script(n));
    }
    if n == 1 {
        return Some(out);
    }
    let ghost luma = out@;
    out.push(ScanInfo { comps_in_scan: 2, component_index: [1, 2, 0, 0], ss: 0, se: 0, ah: 0, al: 0 });
    push_one(&mut out, 1, 0, 0, 0, 0);
    push_one(&mut out, 2, 0, 0, 0, 0);
    push_one(&mut out, 1, 1, 8, 0, 0);
    push_one(&mut out, 1, 9, 63, 0, 0);
    push_one(&mut out, 2, 1, 8, 0, 0);
    push_one(&mut out, 2, 9, 63, 0, 0);
    let ghost head3 = out@;
    let mut al: u8 = 0;
    while al < AL_MAX_CHROMA
        invariant
            al <= 2,
            out@ == head3 + chroma_sa(al as int),
        decreases 2 - al,
    {
        push_one(&mut out, 1, 1, 63, al + 1, al);
        push_one(&mut out, 2, 1, 63, al + 1, al);
        push_one(&mut out, 1, 1, 8, 0, al + 1);
        push_one(&mut out, 1, 9, 63, 0, al + 1);
        push_one(&mut out, 2, 1, 8, 0, al + 1);
        push_one(&mut out, 2, 9, 63, 0, al + 1);
        proof {
            assert(out@ =~= head3 + chroma_sa(al + 1));
        }
        al = al + 1;
    }
    push_one(&mut out, 1, 1, 63, 0, 0);
    push_one(&mut out, 2, 1, 63, 0, 0);
    let ghost head4 = out@;
    let mut i: usize = 0;
    while i < 5
        invariant
            i <= 5,
            out@ == head4 + chroma_splits(i as int),
        decreases 5 - i,
    {
        let s = FREQUENCY_SPLIT[i];
        push_one(&mut out, 1, 1, s, 0, 0);
        push_one(&mut out, 1, s + 1, 63, 0, 0);
        push_one(&mut out, 2, 1, s, 0, 0);
        push_one(&mut out, 2, s + 1, 63, 0, 0);
        proof {
            assert(out@ =~= head4 + chroma_splits(i + 1));
        }
        i = i + 1;
    }
    proof {
        assert(out@ =~= luma + chroma_script());
    }
    Some(out)
}

/// Every scan of `s` can be trial-encoded.
pub open spec fn all_ok(s: Seq<ScanInfo>) -> bool {
    forall|i: int| 0 <= i < s.len() ==> scan_ok(#[trigger] s[i])
}

proof fn lemma_concat_ok(a: Seq<ScanInfo>, b: Seq<ScanInfo>)
    requires
        all_ok(a),
        all_ok(b),
    ensures
        all_ok(a + b),
{
    assert forall|i: int| 0 <= i < (a + b).len() implies scan_ok(#[trigger] (a + b)[i]) by {
        if i < a.len() {
            assert((a + b)[i] == a[i]);
        } else {
            assert((a + b)[i] == b[i - a.len()]);
        }
    }
}

proof fn lemma_luma_sa(k: int)
    requires
        0 <= k <= 13,
    ensures
        all_ok(luma_sa(k)),
        luma_sa(k).len() == 3 * k,
    decreases k,
{
    if k > 0 {
        lemma_luma_sa(k - 1);
        lemma_concat_ok(
            luma_sa(k - 1),
            seq![one(0, 1, 63, k as u8, (k - 1) as u8), one(0, 1, 8, 0, k as u8), one(0, 9, 63, 0, k as u8)],
        );
    }
}

proof fn lemma_chroma_sa(k: int)
    requires
        0 <= k <= 13,
    ensures
        all_ok(chroma_sa(k)),
        chroma_sa(k).len() == 6 * k,
    decreases k,
{
    if k > 0 {
        lemma_chroma_sa(k - 1);
        lemma_concat_ok(
            chroma_sa(k - 1),
            seq![
                one(1, 1, 63, k as u8, (k - 1) as u8),
                one(2, 1, 63, k as u8, (k - 1) as u8),
                one(1, 1, 8, 0, k as u8),
                one(1, 9, 63, 0, k as u8),
                one(2, 1, 8, 0, k as u8),
                one(2, 9, 63, 0, k as u8),
            ],
        );
    }
}

proof fn lemma_splits(k: int)
    requires
        0 <= k <= 5,
    ensures
        all_ok(luma_splits(k)),
        luma_splits(k).len() == 2 * k,
        all_ok(chroma_splits(k)),
        chroma_splits(k).len() == 4 * k,
    decreases k,
{
    if k > 0 {
        lemma_splits(k - 1);
        let s = FREQUENCY_SPLIT@[k - 1];
        assert(2 <= s <= 18);
        lemma_concat_ok(luma_splits(k - 1), seq![one(0, 1, s, 0, 0), one(0, (s + 1) as u8, 63, 0, 0)]);
        lemma_concat_ok(
            chroma_splits(k - 1),
            seq![
                one(1, 1, s, 0, 0),
                one(1, (s + 1) as u8, 63, 0, 0),
                one(2, 1, s, 0, 0),
                one(2, (s + 1) as u8, 63, 0, 0),
            ],
        );
    }
}

/// The search script has 64 scans for three components and 23 for one, and
/// every scan in it is well formed, so the trial encoder accepts it whole.
pub proof fn lemma_search_script_valid(n: u8)
    requires
        n == 1 || n == 3,
    ensures
        search_script(n).len() == if n == 3 {
            64int
        } else {
            23int
        },
        all_ok(search_script(n)),
{
    lemma_luma_sa(3);
    lemma_chroma_sa(2);
    lemma_splits(5);
    let head = seq![dc_all(n), one(0, 1, 8, 0, 0), one(0, 9, 63, 0, 0)];
    lemma_concat_ok(head, luma_sa(3));
    lemma_concat_ok(head + luma_sa(3), seq![one(0, 1, 63, 0, 0)]);
    lemma_concat_ok(head + luma_sa(3) + seq![one(0, 1, 63, 0, 0)], luma_splits(5));
    if n == 3 {
        let chead = seq![
            ScanInfo { comps_in_scan: 2, component_index: [1, 2, 0, 0], ss: 0, se: 0, ah: 0, al: 0 },
            one(1, 0, 0, 0, 0),
            one(2, 0, 0, 0, 0),
            one(1, 1, 8, 0, 0),
            one(1, 9, 63, 0, 0),
            one(2, 1, 8, 0, 0),
            one(2, 9, 63, 0, 0),
        ];
        lemma_concat_ok(chead, chroma_sa(2));
        lemma_concat_ok(chead + chroma_sa(2), seq![one(1, 1, 63, 0, 0), one(2, 1, 63, 0, 0)]);
        lemma_concat_ok(
            chead + chroma_sa(2) + seq![one(1, 1, 63, 0, 0), one(2, 1, 63, 0, 0)],
            chroma_splits(5),
        );
        lemma_concat_ok(luma_script(3), chroma_script());
    }
}

} // verus!
