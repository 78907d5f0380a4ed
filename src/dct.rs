//! Forward 8x8 DCT: the Loeffler-Ligtenberg-Moschytz integer algorithm with
//! 13-bit multipliers, as in jfdctint.c. The output is scaled by 8.
use vstd::arithmetic::power2::*;
use vstd::prelude::*;

use crate::consts::{DCTSIZE, DCTSIZE2};
use crate::deringing::{dering_spec, preprocess_deringing};

verus! {

/// Right shift by `n` with rounding: `(x + 2^(n-1)) >> n`, i.e. floor division.
pub open spec fn descale_spec(x: int, n: nat) -> int {
    (x + pow2((n - 1) as nat) as int) / (pow2(n) as int)
}

/// Even-part numerators (outputs 0, 2, 4, 6) of the 1-D LLM DCT.
#[verifier::opaque]
pub open spec fn fdct_even(d: Seq<int>, k: int) -> int {
    let tmp0 = d[0] + d[7];
    let tmp1 = d[1] + d[6];
    let tmp2 = d[2] + d[5];
    let tmp3 = d[3] + d[4];
    let tmp10 = tmp0 + tmp3;
    let tmp13 = tmp0 - tmp3;
    let tmp11 = tmp1 + tmp2;
    let tmp12 = tmp1 - tmp2;
    let z1 = (tmp12 + tmp13) * 4433;
    if k == 0 {
        tmp10 + tmp11
    } else if k == 4 {
        tmp10 - tmp11
    } else if k == 2 {
        z1 + tmp13 * 6270
    } else {
        z1 - tmp12 * 15137
    }
}

/// Odd-part numerators (outputs 1, 3, 5, 7) of the 1-D LLM DCT: fixed-point
/// rotations with 13-bit multipliers.
#[verifier::opaque]
pub open spec fn fdct_odd(d: Seq<int>, k: int) -> int {
    let tmp7 = d[0] - d[7];
    let tmp6 = d[1] - d[6];
    let tmp5 = d[2] - d[5];
    let tmp4 = d[3] - d[4];
    let z5 = (tmp4 + tmp6 + tmp5 + tmp7) * 9633;
    let y1 = -((tmp4 + tmp7) * 7373);
    let y2 = -((tmp5 + tmp6) * 20995);
    let y3 = z5 - (tmp4 + tmp6) * 16069;
    let y4 = z5 - (tmp5 + tmp7) * 3196;
    if k == 1 {
        tmp7 * 12299 + y1 + y4
    } else if k == 3 {
        tmp6 * 25172 + y2 + y3
    } else if k == 5 {
        tmp5 * 16819 + y2 + y4
    } else {
        tmp4 * 2446 + y1 + y3
    }
}

/// Numerator of output `k` of the one-dimensional LLM DCT of 8 values.
pub open spec fn fdct_num(d: Seq<int>, k: int) -> int {
    if k % 2 == 0 {
        fdct_even(d, k)
    } else {
        fdct_odd(d, k)
    }
}

/// Output `k` of the one-dimensional LLM DCT of 8 values. The first pass
/// keeps two bits of extra precision; the second pass removes them.
pub open spec fn fdct_1d(d: Seq<int>, first: bool, k: int) -> int {
    let n = fdct_num(d, k);
    if k == 0 || k == 4 {
        if first {
            n * 4
        } else {
            (n + 2) / 4
        }
    } else if first {
        (n + 1024) / 2048
    } else {
        (n + 16384) / 32768
    }
}

/// Row `r` of a 64-entry block.
pub open spec fn block_row(s: Seq<int>, r: int) -> Seq<int> {
    s.subrange(8 * r, 8 * r + 8)
}

/// Column `c` of a 64-entry block.
pub open spec fn block_col(s: Seq<int>, c: int) -> Seq<int> {
    Seq::new(8, |r: int| s[8 * r + c])
}

/// First pass: the 1-D DCT of every row.
pub open spec fn row_pass(s: Seq<int>) -> Seq<int> {
    Seq::new(64, |i: int| fdct_1d(block_row(s, i / 8), true, i % 8))
}

/// Second pass: the 1-D DCT of every column.
pub open spec fn col_pass(s: Seq<int>) -> Seq<int> {
    Seq::new(64, |i: int| fdct_1d(block_col(s, i % 8), false, i / 8))
}

/// The exact integer coefficients of a block, before narrowing to `i16`.
pub open spec fn dct_8x8(s: Seq<int>) -> Seq<int> {
    col_pass(row_pass(s))
}

/// The values of an `i16` block as integers.
pub open spec fn block_ints(b: [i16; 64]) -> Seq<int> {
    Seq::new(64, |i: int| b[i] as int)
}

/// A level-shifted block: each sample minus 128.
pub open spec fn level_shift_spec(b: [u8; 64]) -> Seq<int> {
    Seq::new(64, |i: int| b[i] as int - 128)
}

/// Rounding right shift, `(x + (1 << (n - 1))) >> n`.
pub fn descale(x: i32, n: i32) -> (r: i32)
    requires
        1 <= n <= 30,
        x as int + pow2((n - 1) as nat) <= i32::MAX,
    ensures
        r as int == descale_spec(x as int, n as nat),
{
    proof {
        lemma2_to64();
        lemma_pow2_strictly_increases(n as nat, 31);
        lemma_pow2_strictly_increases((n - 1) as nat, 31);
        lemma_pow2_pos(n as nat);
        lemma_pow2_pos((n - 1) as nat);
        vstd::bits::lemma_u64_shl_is_mul(1, n as u64);
        vstd::bits::lemma_u64_shl_is_mul(1, (n - 1) as u64);
    }
    let d: u64 = 1u64 << (n as u64);
    let half: u64 = 1u64 << ((n - 1) as u64);
    assert(d as int == pow2(n as nat));
    assert(half as int == pow2((n - 1) as nat));
    let t: i64 = x as i64 + half as i64;
    let q = floor_div(t, d as i64);
    proof {
        let r = t as int % d as int;
        vstd::arithmetic::div_mod::lemma_fundamental_div_mod(t as int, d as int);
        assert(i32::MIN <= q <= i32::MAX) by (nonlinear_arith)
            requires
                t as int == d as int * q as int + r,
                0 <= r < d,
                d >= 2,
                i32::MIN <= t <= i32::MAX,
        ;
    }
    q as i32
}

/// Floor division by a positive divisor.
fn floor_div(t: i64, d: i64) -> (r: i64)
    requires
        0 < d <= 4294967296,
        -4611686018427387904 <= t <= 4611686018427387904,
    ensures
        r as int == t as int / d as int,
        d * r <= t < d * r + d,
{
    proof {
        vstd::arithmetic::div_mod::lemma_fundamental_div_mod(t as int, d as int);
    }
    if t >= 0 {
        t / d
    } else {
        let m: i64 = -t;
        let q: i64 = (m + d - 1) / d;
        proof {
            assert(m as int + d as int - 1 <= i64::MAX);
            lemma_floor_neg(t as int, d as int);
        }
        -q
    }
}

/// Floor division of a negative value through division of its negation.
pub proof fn lemma_floor_neg(t: int, d: int)
    requires
        d > 0,
        t < 0,
    ensures
        t / d == -((-t + d - 1) / d),
{
    let q = (-t + d - 1) / d;
    let r = (-t + d - 1) % d;
    vstd::arithmetic::div_mod::lemma_fundamental_div_mod(-t + d - 1, d);
    assert(-t + d - 1 == d * q + r);
    assert(-t + d - 1 == q * d + r) by (nonlinear_arith)
        requires
            -t + d - 1 == d * q + r,
    ;
    assert(t == (-q) * d + (d - 1 - r)) by (nonlinear_arith)
        requires
            -t + d - 1 == q * d + r,
    ;
    vstd::arithmetic::div_mod::lemma_fundamental_div_mod_converse(t, d, -q, d - 1 - r);
}

/// Index of row `r`, column `c` in a 64-entry block.
pub open spec fn rc(r: int, c: int) -> int {
    8 * r + c
}

proof fn lemma_block_index(r: int, c: int)
    requires
        0 <= r < 8,
        0 <= c < 8,
    ensures
        rc(r, c) / 8 == r,
        rc(r, c) % 8 == c,
{
}

/// Even-part numerators of a 1-D pass: outputs 0, 2, 4 and 6.
fn fdct_even_exec(d: [i64; 8], Ghost(b): Ghost<int>) -> (n: [i64; 4])
    requires
        0 <= b <= 8388608,
        forall|k: int| 0 <= k < 8 ==> -b <= #[trigger] d[k] <= b,
    ensures
        forall|k: int|
            0 <= k < 4 ==> n[k] as int == fdct_even(Seq::new(8, |j: int| d[j] as int), 2 * k),
        forall|k: int| 0 <= k < 4 ==> -300000 * b <= #[trigger] n[k] <= 300000 * b,
        -8 * b <= n[0] <= 8 * b,
        -8 * b <= n[2] <= 8 * b,
{
    let d0 = d[0];
    let d1 = d[1];
    let d2 = d[2];
    let d3 = d[3];
    let d4 = d[4];
    let d5 = d[5];
    let d6 = d[6];
    let d7 = d[7];
    assert(-b <= d0 <= b && -b <= d1 <= b && -b <= d2 <= b && -b <= d3 <= b);
    assert(-b <= d4 <= b && -b <= d5 <= b && -b <= d6 <= b && -b <= d7 <= b);
    let tmp0 = d0 + d7;
    let tmp1 = d1 + d6;
    let tmp2 = d2 + d5;
    let tmp3 = d3 + d4;
    let tmp10 = tmp0 + tmp3;
    let tmp13 = tmp0 - tmp3;
    let tmp11 = tmp1 + tmp2;
    let tmp12 = tmp1 - tmp2;
    let z1 = (tmp12 + tmp13) * 4433;  // FIX(0.541196100)
    let e2 = z1 + tmp13 * 6270;  // FIX(0.765366865)
    let e6 = z1 - tmp12 * 15137;  // FIX(1.847759065)
    let n = [tmp10 + tmp11, e2, tmp10 - tmp11, e6];
    proof {
        let ds = Seq::new(8, |j: int| d[j] as int);
        assert(ds[0] == d0 && ds[1] == d1 && ds[2] == d2 && ds[3] == d3);
        assert(ds[4] == d4 && ds[5] == d5 && ds[6] == d6 && ds[7] == d7);
        reveal(fdct_even);
        assert(n[0] as int == fdct_even(ds, 0));
        assert(n[1] as int == fdct_even(ds, 2));
        assert(n[2] as int == fdct_even(ds, 4));
        assert(n[3] as int == fdct_even(ds, 6));
    }
    n
}

/// Odd-part numerators of a 1-D pass: outputs 1, 3, 5 and 7.
fn fdct_odd_exec(d: [i64; 8], Ghost(b): Ghost<int>) -> (n: [i64; 4])
    requires
        0 <= b <= 8388608,
        forall|k: int| 0 <= k < 8 ==> -b <= #[trigger] d[k] <= b,
    ensures
        forall|k: int|
            0 <= k < 4 ==> n[k] as int == fdct_odd(Seq::new(8, |j: int| d[j] as int), 2 * k + 1),
        forall|k: int| 0 <= k < 4 ==> -300000 * b <= #[trigger] n[k] <= 300000 * b,
{
    let d0 = d[0];
    let d1 = d[1];
    let d2 = d[2];
    let d3 = d[3];
    let d4 = d[4];
    let d5 = d[5];
    let d6 = d[6];
    let d7 = d[7];
    assert(-b <= d0 <= b && -b <= d1 <= b && -b <= d2 <= b && -b <= d3 <= b);
    assert(-b <= d4 <= b && -b <= d5 <= b && -b <= d6 <= b && -b <= d7 <= b);
    let tmp7 = d0 - d7;
    let tmp6 = d1 - d6;
    let tmp5 = d2 - d5;
    let tmp4 = d3 - d4;
    let z5 = (tmp4 + tmp6 + tmp5 + tmp7) * 9633;  // FIX(1.175875602)
    let y1 = -((tmp4 + tmp7) * 7373);  // FIX(0.899976223)
    let y2 = -((tmp5 + tmp6) * 20995);  // FIX(2.562915447)
    let y3 = z5 - (tmp4 + tmp6) * 16069;  // FIX(1.961570560)
    let y4 = z5 - (tmp5 + tmp7) * 3196;  // FIX(0.390180644)
    let o1 = tmp7 * 12299 + y1 + y4;  // FIX(1.501321110)
    let o3 = tmp6 * 25172 + y2 + y3;  // FIX(3.072711026)
    let o5 = tmp5 * 16819 + y2 + y4;  // FIX(2.053119869)
    let o7 = tmp4 * 2446 + y1 + y3;  // FIX(0.298631336)
    let n = [o1, o3, o5, o7];
    proof {
        let ds = Seq::new(8, |j: int| d[j] as int);
        assert(ds[0] == d0 && ds[1] == d1 && ds[2] == d2 && ds[3] == d3);
        assert(ds[4] == d4 && ds[5] == d5 && ds[6] == d6 && ds[7] == d7);
        reveal(fdct_odd);
        assert(n[0] as int == fdct_odd(ds, 1));
        assert(n[1] as int == fdct_odd(ds, 3));
        assert(n[2] as int == fdct_odd(ds, 5));
        assert(n[3] as int == fdct_odd(ds, 7));
    }
    n
}

/// The eight numerators of a 1-D pass, in natural output order.
fn fdct_nums(d: [i64; 8], Ghost(b): Ghost<int>) -> (n: [i64; 8])
    requires
        0 <= b <= 8388608,
        forall|k: int| 0 <= k < 8 ==> -b <= #[trigger] d[k] <= b,
    ensures
        forall|k: int|
            0 <= k < 8 ==> n[k] as int == fdct_num(Seq::new(8, |j: int| d[j] as int), k),
        forall|k: int| 0 <= k < 8 ==> -300000 * b <= #[trigger] n[k] <= 300000 * b,
        -8 * b <= n[0] <= 8 * b,
        -8 * b <= n[4] <= 8 * b,
{
    let e = fdct_even_exec(d, Ghost(b));
    let o = fdct_odd_exec(d, Ghost(b));
    let n = [e[0], o[0], e[1], o[1], e[2], o[2], e[3], o[3]];
    proof {
        assert forall|k: int| 0 <= k < 8 implies n[k] as int == fdct_num(
            Seq::new(8, |j: int| d[j] as int),
            k,
        ) && -300000 * b <= #[trigger] n[k] <= 300000 * b by {
            if k % 2 == 0 {
                assert(n[k] == e[k / 2]);
            } else {
                assert(n[k] == o[k / 2]);
            }
        }
    }
    n
}

/// The first (row) pass over 8 values held in `i64`.
fn fdct_1d_first(d: [i64; 8]) -> (r: [i64; 8])
    requires
        forall|k: int| 0 <= k < 8 ==> -32768 <= #[trigger] d[k] <= 32768,
    ensures
        forall|k: int|
            0 <= k < 8 ==> r[k] as int == fdct_1d(Seq::new(8, |j: int| d[j] as int), true, k),
        forall|k: int| 0 <= k < 8 ==> -8388608 <= #[trigger] r[k] <= 8388608,
{
    let n = fdct_nums(d, Ghost(32768));
    let r = [
        n[0] * 4,
        floor_div(n[1] + 1024, 2048),
        floor_div(n[2] + 1024, 2048),
        floor_div(n[3] + 1024, 2048),
        n[4] * 4,
        floor_div(n[5] + 1024, 2048),
        floor_div(n[6] + 1024, 2048),
        floor_div(n[7] + 1024, 2048),
    ];
    r
}

/// The second (column) pass over 8 values held in `i64`.
fn fdct_1d_second(d: [i64; 8]) -> (r: [i64; 8])
    requires
        forall|k: int| 0 <= k < 8 ==> -8388608 <= #[trigger] d[k] <= 8388608,
    ensures
        forall|k: int|
            0 <= k < 8 ==> r[k] as int == fdct_1d(Seq::new(8, |j: int| d[j] as int), false, k),
{
    let n = fdct_nums(d, Ghost(8388608));
    let r = [
        floor_div(n[0] + 2, 4),
        floor_div(n[1] + 16384, 32768),
        floor_div(n[2] + 16384, 32768),
        floor_div(n[3] + 16384, 32768),
        floor_div(n[4] + 2, 4),
        floor_div(n[5] + 16384, 32768),
        floor_div(n[6] + 16384, 32768),
        floor_div(n[7] + 16384, 32768),
    ];
    r
}

/// Forward DCT of one level-shifted 8x8 block. Coefficients come out in
/// natural order, scaled by 8, narrowed to `i16` as jfdctint.c does.
pub fn forward_dct_8x8(samples: &[i16; 64], coeffs: &mut [i16; 64])
    ensures
        forall|i: int|
            0 <= i < 64 ==> final(coeffs)[i] == (dct_8x8(block_ints(*samples))[i] as i16),
        (forall|i: int| 0 <= i < 64 ==> -128 <= #[trigger] samples[i] <= 127) ==> forall|i: int|
            0 <= i < 64 ==> final(coeffs)[i] as int == #[trigger] dct_8x8(block_ints(*samples))[i],
{
    proof {
        if forall|i: int| 0 <= i < 64 ==> -128 <= #[trigger] samples[i] <= 127 {
            lemma_dct_fits_i16(block_ints(*samples));
        }
    }
    let ghost s = block_ints(*samples);
    let ghost rp = row_pass(s);
    let ghost cp = col_pass(rp);
    // Pass 1: rows, keeping PASS1_BITS of extra precision.
    let mut rows = [0i64; 64];
    let mut row: usize = 0;
    while row < DCTSIZE
        invariant
            row <= 8,
            s == block_ints(*samples),
            rp == row_pass(s),
            forall|r: int, c: int|
                0 <= r < row && 0 <= c < 8 ==> rows[#[trigger] rc(r, c)] as int == rp[rc(r, c)],
            forall|r: int, c: int|
                0 <= r < row && 0 <= c < 8 ==> -8388608 <= rows[#[trigger] rc(r, c)] <= 8388608,
        decreases 8 - row,
    {
        let base = row * DCTSIZE;
        let d = [
            samples[base] as i64,
            samples[base + 1] as i64,
            samples[base + 2] as i64,
            samples[base + 3] as i64,
            samples[base + 4] as i64,
            samples[base + 5] as i64,
            samples[base + 6] as i64,
            samples[base + 7] as i64,
        ];
        proof {
            assert(Seq::new(8, |j: int| d[j] as int) =~= block_row(s, row as int));
        }
        let res = fdct_1d_first(d);
        let mut k: usize = 0;
        while k < DCTSIZE
            invariant
                k <= 8,
                row < 8,
                base == 8 * row,
                rp == row_pass(s),
                forall|c: int|
                    0 <= c < 8 ==> res[c] as int == fdct_1d(block_row(s, row as int), true, c),
                forall|c: int| 0 <= c < 8 ==> -8388608 <= #[trigger] res[c] <= 8388608,
                forall|r: int, c: int|
                    0 <= r < row && 0 <= c < 8 ==> rows[#[trigger] rc(r, c)] as int == rp[rc(r, c)],
                forall|r: int, c: int|
                    0 <= r < row && 0 <= c < 8 ==> -8388608 <= rows[#[trigger] rc(r, c)] <= 8388608,
                forall|c: int| 0 <= c < k ==> rows[#[trigger] rc(row as int, c)] as int == rp[rc(row as int, c)],
                forall|c: int| 0 <= c < k ==> -8388608 <= rows[#[trigger] rc(row as int, c)] <= 8388608,
            decreases 8 - k,
        {
            rows[base + k] = res[k];
            proof {
                lemma_block_index(row as int, k as int);
                assert(base + k == rc(row as int, k as int));
            }
            k = k + 1;
        }
        row = row + 1;
    }
    // Pass 2: columns, removing the extra precision.
    let mut out = [0i64; 64];
    let mut col: usize = 0;
    while col < DCTSIZE
        invariant
            col <= 8,
            rp == row_pass(s),
            cp == col_pass(rp),
            forall|r: int, c: int|
                0 <= r < 8 && 0 <= c < 8 ==> rows[#[trigger] rc(r, c)] as int == rp[rc(r, c)],
            forall|r: int, c: int|
                0 <= r < 8 && 0 <= c < 8 ==> -8388608 <= rows[#[trigger] rc(r, c)] <= 8388608,
            forall|r: int, c: int|
                0 <= r < 8 && 0 <= c < col ==> out[#[trigger] rc(r, c)] as int == cp[rc(r, c)],
        decreases 8 - col,
    {
        let d = [
            rows[col],
            rows[DCTSIZE + col],
            rows[DCTSIZE * 2 + col],
            rows[DCTSIZE * 3 + col],
            rows[DCTSIZE * 4 + col],
            rows[DCTSIZE * 5 + col],
            rows[DCTSIZE * 6 + col],
            rows[DCTSIZE * 7 + col],
        ];
        proof {
            assert forall|k: int| 0 <= k < 8 implies d[k] == rows[rc(k, col as int)] by {}
            assert(Seq::new(8, |j: int| d[j] as int) =~= block_col(rp, col as int));
        }
        let res = fdct_1d_second(d);
        let mut k: usize = 0;
        while k < DCTSIZE
            invariant
                k <= 8,
                col < 8,
                rp == row_pass(s),
                cp == col_pass(rp),
                forall|r: int|
                    0 <= r < 8 ==> res[r] as int == fdct_1d(block_col(rp, col as int), false, r),
                forall|r: int, c: int|
                    0 <= r < 8 && 0 <= c < col ==> out[#[trigger] rc(r, c)] as int == cp[rc(r, c)],
                forall|r: int| 0 <= r < k ==> out[#[trigger] rc(r, col as int)] as int == cp[rc(r, col as int)],
            decreases 8 - k,
        {
            out[DCTSIZE * k + col] = res[k];
            proof {
                lemma_block_index(k as int, col as int);
                assert(DCTSIZE * k + col == rc(k as int, col as int));
            }
            k = k + 1;
        }
        col = col + 1;
    }
    proof {
        assert forall|j: int| 0 <= j < 64 implies out[j] as int == cp[j] by {
            lemma_block_index(j / 8, j % 8);
            assert(j == rc(j / 8, j % 8));
        }
    }
    let mut i: usize = 0;
    while i < DCTSIZE2
        invariant
            i <= 64,
            cp == dct_8x8(block_ints(*samples)),
            forall|j: int| 0 <= j < 64 ==> out[j] as int == cp[j],
            forall|j: int| 0 <= j < i ==> coeffs[j] == (cp[j] as i16),
        decreases 64 - i,
    {
        coeffs[i] = out[i] as i16;
        i = i + 1;
    }
}

/// Subtract 128 from every sample.
pub fn level_shift(samples: &[u8; 64], output: &mut [i16; 64])
    ensures
        forall|i: int| 0 <= i < 64 ==> final(output)[i] as int == samples[i] as int - 128,
{
    let mut i: usize = 0;
    while i < DCTSIZE2
        invariant
            i <= 64,
            forall|j: int| 0 <= j < i ==> output[j] as int == samples[j] as int - 128,
        decreases 64 - i,
    {
        output[i] = (samples[i] as i16) - 128;
        i = i + 1;
    }
}

/// Level shift followed by the forward DCT.
pub fn forward_dct(samples: &[u8; 64], coeffs: &mut [i16; 64])
    ensures
        forall|i: int|
            0 <= i < 64 ==> final(coeffs)[i] as int == #[trigger] dct_8x8(level_shift_spec(*samples))[i],
{
    let mut shifted = [0i16; 64];
    level_shift(samples, &mut shifted);
    assert(block_ints(shifted) =~= level_shift_spec(*samples));
    forward_dct_8x8(&shifted, coeffs);
}

/// Level shift, overshoot deringing, then the forward DCT.
pub fn forward_dct_with_deringing(samples: &[u8; 64], coeffs: &mut [i16; 64], dc_quant: u16)
    ensures
        forall|i: int|
            0 <= i < 64 ==> final(coeffs)[i] == (dct_8x8(
                dering_spec(level_shift_spec(*samples), dc_quant as int),
            )[i] as i16),
{
    let mut shifted = [0i16; 64];
    level_shift(samples, &mut shifted);
    assert(block_ints(shifted) =~= level_shift_spec(*samples));
    preprocess_deringing(&mut shifted, dc_quant);
    assert(block_ints(shifted) =~= dering_spec(level_shift_spec(*samples), dc_quant as int));
    forward_dct_8x8(&shifted, coeffs);
}

/// A block whose 64 samples all equal `v`.
pub open spec fn flat_block(v: int) -> Seq<int> {
    Seq::new(64, |j: int| v)
}

proof fn lemma_num_const(d: Seq<int>, v: int, k: int)
    requires
        d.len() == 8,
        forall|j: int| 0 <= j < 8 ==> d[j] == v,
        0 <= k < 8,
    ensures
        fdct_num(d, k) == if k == 0 {
            8 * v
        } else {
            0
        },
{
    reveal(fdct_even);
    reveal(fdct_odd);
    assert(d[0] == v && d[1] == v && d[2] == v && d[3] == v);
    assert(d[4] == v && d[5] == v && d[6] == v && d[7] == v);
}

/// The DCT of a flat block of value `v` has DC coefficient `64 * v` and
/// every AC coefficient 0, with no rounding error; in particular the zero
/// block maps to the zero block.
pub proof fn lemma_flat_block(v: int)
    requires
        -511 <= v <= 511,
    ensures
        forall|i: int|
            0 <= i < 64 ==> #[trigger] dct_8x8(flat_block(v))[i] == if i == 0 {
                64 * v
            } else {
                0
            },
{
    let s = flat_block(v);
    let rp = row_pass(s);
    assert forall|i: int| 0 <= i < 64 implies rp[i] == if i % 8 == 0 {
        32 * v
    } else {
        0
    } by {
        let row = block_row(s, i / 8);
        lemma_num_const(row, v, i % 8);
    }
    assert forall|i: int| 0 <= i < 64 implies dct_8x8(s)[i] == if i == 0 {
        64 * v
    } else {
        0
    } by {
        let c = i % 8;
        let column = block_col(rp, c);
        if c == 0 {
            assert forall|j: int| 0 <= j < 8 implies column[j] == 32 * v by {
                assert((8 * j + c) % 8 == 0);
            }
            lemma_num_const(column, 32 * v, i / 8);
        } else {
            assert forall|j: int| 0 <= j < 8 implies column[j] == 0 by {
                assert((8 * j + c) % 8 == c);
            }
            lemma_num_const(column, 0, i / 8);
        }
    }
}

/// The flat-block law for the executable transform: a flat block of value
/// `v` (|v| < 512) yields `64 * v` at DC and 0 elsewhere.
pub proof fn lemma_forward_dct_flat(samples: [i16; 64], coeffs: [i16; 64], v: int)
    requires
        -511 <= v <= 511,
        forall|i: int| 0 <= i < 64 ==> samples[i] as int == v,
        forall|i: int| 0 <= i < 64 ==> coeffs[i] == (dct_8x8(block_ints(samples))[i] as i16),
    ensures
        coeffs[0] as int == 64 * v,
        forall|i: int| 1 <= i < 64 ==> coeffs[i] == 0,
{
    assert(block_ints(samples) =~= flat_block(v));
    lemma_flat_block(v);
}

proof fn lemma_num_bound(d: Seq<int>, b: int, k: int)
    requires
        d.len() == 8,
        0 <= b,
        forall|j: int| 0 <= j < 8 ==> -b <= #[trigger] d[j] <= b,
        0 <= k < 8,
    ensures
        -60548 * b <= fdct_num(d, k) <= 60548 * b,
        k == 0 || k == 4 ==> -8 * b <= fdct_num(d, k) <= 8 * b,
{
    reveal(fdct_even);
    reveal(fdct_odd);
    assert(-b <= d[0] <= b && -b <= d[1] <= b && -b <= d[2] <= b && -b <= d[3] <= b);
    assert(-b <= d[4] <= b && -b <= d[5] <= b && -b <= d[6] <= b && -b <= d[7] <= b);
}

/// For level-shifted 8-bit samples (-128..=127) every coefficient lies in
/// -8192..=8192, so narrowing to `i16` loses nothing.
pub proof fn lemma_dct_fits_i16(s: Seq<int>)
    requires
        s.len() == 64,
        forall|i: int| 0 <= i < 64 ==> -128 <= #[trigger] s[i] <= 127,
    ensures
        forall|i: int| 0 <= i < 64 ==> -8192 <= #[trigger] dct_8x8(s)[i] <= 8192,
{
    let rp = row_pass(s);
    assert forall|i: int| 0 <= i < 64 implies -4096 <= #[trigger] rp[i] <= 4096 by {
        let row = block_row(s, i / 8);
        assert forall|j: int| 0 <= j < 8 implies -128 <= #[trigger] row[j] <= 128 by {
            assert(row[j] == s[8 * (i / 8) + j]);
        }
        lemma_num_bound(row, 128, i % 8);
    }
    assert forall|i: int| 0 <= i < 64 implies -8192 <= #[trigger] dct_8x8(s)[i] <= 8192 by {
        let column = block_col(rp, i % 8);
        assert forall|j: int| 0 <= j < 8 implies -4096 <= #[trigger] column[j] <= 4096 by {
            assert(column[j] == rp[8 * j + i % 8]);
        }
        lemma_num_bound(column, 4096, i / 8);
    }
}

} // verus!
