//! Huffman tables: the `bits`/`huffval` form of a DHT segment, and the
//! per-symbol code/length table that the entropy coder reads.
use vstd::arithmetic::power2::*;
use vstd::prelude::*;

use crate::error::Error;

verus! {

/// A Huffman table as stored in a DHT segment: `bits[l]` codes of length
/// `l` for `l` in 1..=16 (`bits[0]` is unused), then the symbols in code
/// order.
#[derive(Clone, Copy, Debug)]
pub struct HuffTable {
    pub bits: [u8; 17],
    pub huffval: [u8; 256],
}

impl Default for HuffTable {
    fn default() -> (r: Self)
        ensures
            forall|i: int| 0 <= i < 17 ==> r.bits[i] == 0,
            forall|i: int| 0 <= i < 256 ==> r.huffval[i] == 0,
    {
        HuffTable { bits: [0u8; 17], huffval: [0u8; 256] }
    }
}

/// Number of codes shorter than `l` bits.
pub open spec fn count_below(bits: Seq<u8>, l: int) -> int
    decreases l,
{
    if l <= 1 {
        0
    } else {
        count_below(bits, l - 1) + bits[l - 1] as int
    }
}

/// The first code of length `l` in canonical order: codes of one length are
/// consecutive, and moving to the next length appends a zero bit.
pub open spec fn code_start(bits: Seq<u8>, l: int) -> int
    decreases l,
{
    if l <= 1 {
        0
    } else {
        (code_start(bits, l - 1) + bits[l - 1] as int) * 2
    }
}

/// The code counts describe a legal code: at most 256 codes, and at every
/// length the codes fit without using the all-ones code.
pub open spec fn valid_counts(bits: Seq<u8>) -> bool {
    &&& count_below(bits, 17) <= 256
    &&& forall|l: int| 1 <= l <= 16 ==> code_start(bits, l) + (bits[l] as int) < pow2(l as nat)
}

/// The listed symbols are distinct and at most `max_symbol`.
pub open spec fn valid_symbols(huffval: Seq<u8>, total: int, max_symbol: int) -> bool {
    &&& forall|p: int| 0 <= p < total ==> huffval[p] as int <= max_symbol
    &&& forall|p: int, q: int| 0 <= p < q < total ==> huffval[p] != huffval[q]
}

/// Largest symbol a table may hold: 15 for DC tables, 255 for AC tables.
pub open spec fn max_symbol(is_dc: bool) -> int {
    if is_dc {
        15
    } else {
        255
    }
}

/// A table from which codes can be derived.
pub open spec fn valid_table(t: HuffTable, is_dc: bool) -> bool {
    valid_counts(t.bits@) && valid_symbols(t.huffval@, count_below(t.bits@, 17), max_symbol(is_dc))
}

/// Code and code length of every symbol 0..=255; length 0 marks a symbol
/// that has no code.
#[derive(Clone, Copy, Debug)]
pub struct DerivedTable {
    ehufco: [u32; 256],
    ehufsi: [u8; 256],
}

impl DerivedTable {
    /// Code of `s`.
    pub closed spec fn code_of(&self, s: int) -> int {
        self.ehufco[s] as int
    }

    /// Code length of `s` (0 when `s` has no code).
    pub closed spec fn size_of(&self, s: int) -> int {
        self.ehufsi[s] as int
    }

    /// Every length is at most 16 and every code fits in its length.
    pub open spec fn wf(&self) -> bool {
        forall|s: int|
            0 <= s < 256 ==> #[trigger] self.size_of(s) <= 16 && 0 <= self.code_of(s) < pow2(
                self.size_of(s) as nat,
            )
    }

    /// The table derived from `h`: symbol `h.huffval[p]`, the `p`-th in code
    /// order, gets the canonical code of its position; unlisted symbols get
    /// length 0.
    pub open spec fn derived_from(&self, h: HuffTable) -> bool {
        let total = count_below(h.bits@, 17);
        &&& forall|l: int, p: int|
            #![trigger h.huffval[p], count_below(h.bits@, l)]
            1 <= l <= 16 && count_below(h.bits@, l) <= p < count_below(h.bits@, l + 1) ==> {
                &&& self.size_of(h.huffval[p] as int) == l
                &&& self.code_of(h.huffval[p] as int) == code_start(h.bits@, l) + p - count_below(
                    h.bits@,
                    l,
                )
            }
        &&& forall|s: int|
            0 <= s < 256 && (forall|p: int| 0 <= p < total ==> h.huffval[p] as int != s)
                ==> #[trigger] self.size_of(s) == 0
    }

    /// Code and length of a symbol.
    pub fn get_code(&self, symbol: u8) -> (r: (u32, u8))
        ensures
            r.0 as int == self.code_of(symbol as int),
            r.1 as int == self.size_of(symbol as int),
    {
        (self.ehufco[symbol as usize], self.ehufsi[symbol as usize])
    }

    /// Derive per-symbol codes from a DHT-form table (JPEG Annex C), with the
    /// checks of libjpeg: at most 256 codes, no all-ones code, symbols
    /// distinct and at most 15 in a DC table.
    pub fn from_huff_table(htbl: &HuffTable, is_dc: bool) -> (r: Result<DerivedTable, Error>)
        ensures
            r.is_ok() <==> valid_table(*htbl, is_dc),
            r.is_ok() ==> r.unwrap().wf() && r.unwrap().derived_from(*htbl),
            r.is_err() ==> r == Err::<DerivedTable, Error>(Error::InvalidHuffmanTable),
    {
        let ghost bits = htbl.bits@;
        let ghost hv = htbl.huffval@;
        let max_sym: u8 = if is_dc {
            15
        } else {
            255
        };
        let mut ehufco = [0u32; 256];
        let mut ehufsi = [0u8; 256];
        let mut p: usize = 0;
        let mut code: u32 = 0;
        let mut limit: u32 = 2;
        let mut l: usize = 1;
        proof {
            lemma2_to64();
        }
        while l <= 16
            invariant
                1 <= l <= 17,
                bits == htbl.bits@,
                hv == htbl.huffval@,
                max_sym as int == max_symbol(is_dc),
                p as int == count_below(bits, l as int),
                p <= 256,
                code as int == code_start(bits, l as int),
                limit as int == pow2(l as nat),
                code < limit,
                l <= 16 ==> limit <= 65536,
                forall|m: int| 1 <= m < l ==> code_start(bits, m) + (bits[m] as int) < pow2(m as nat),
                valid_symbols(hv, p as int, max_symbol(is_dc)),
                forall|s: int|
                    0 <= s < 256 ==> (ehufsi[s] != 0 <==> exists|q: int|
                        0 <= q < p && #[trigger] hv[q] as int == s),
                forall|s: int|
                    0 <= s < 256 ==> ehufsi[s] <= 16 && ehufco[s] < pow2(ehufsi[s] as nat),
                forall|m: int, q: int|
                    #![trigger hv[q], count_below(bits, m)]
                    1 <= m < l && count_below(bits, m) <= q < count_below(bits, m + 1) ==> {
                        &&& ehufsi[hv[q] as int] == m
                        &&& ehufco[hv[q] as int] == code_start(bits, m) + q - count_below(bits, m)
                    },
            decreases 17 - l,
        {
            let cnt = htbl.bits[l] as usize;
            if p + cnt > 256 {
                proof {
                    lemma_count_mono(bits, l as int + 1, 17);
                }
                return Err(Error::InvalidHuffmanTable);
            }
            if code as usize + cnt >= limit as usize {
                return Err(Error::InvalidHuffmanTable);
            }
            let ghost p0 = p;
            let ghost code0 = code;
            let mut i: usize = 0;
            while i < cnt
                invariant
                    1 <= l <= 16,
                    bits == htbl.bits@,
                    hv == htbl.huffval@,
                    max_sym as int == max_symbol(is_dc),
                    cnt == bits[l as int],
                    p0 as int == count_below(bits, l as int),
                    p0 + cnt <= 256,
                    code0 as int == code_start(bits, l as int),
                    code0 + cnt < limit,
                    limit as int == pow2(l as nat),
                    limit <= 65536,
                    i <= cnt,
                    p == p0 + i,
                    code == code0 + i,
                    valid_symbols(hv, p as int, max_symbol(is_dc)),
                    forall|s: int|
                        0 <= s < 256 ==> (ehufsi[s] != 0 <==> exists|q: int|
                            0 <= q < p && #[trigger] hv[q] as int == s),
                    forall|s: int|
                        0 <= s < 256 ==> ehufsi[s] <= 16 && ehufco[s] < pow2(ehufsi[s] as nat),
                    forall|m: int, q: int|
                        #![trigger hv[q], count_below(bits, m)]
                        1 <= m < l && count_below(bits, m) <= q < count_below(bits, m + 1) ==> {
                            &&& ehufsi[hv[q] as int] == m
                            &&& ehufco[hv[q] as int] == code_start(bits, m) + q - count_below(
                                bits,
                                m,
                            )
                        },
                    forall|q: int|
                        p0 <= q < p ==> {
                            &&& ehufsi[#[trigger] hv[q] as int] == l
                            &&& ehufco[hv[q] as int] == code_start(bits, l as int) + q - p0
                        },
                decreases cnt - i,
            {
                let sym = htbl.huffval[p];
                if sym > max_sym || ehufsi[sym as usize] != 0 {
                    proof {
                        lemma_count_mono(bits, l as int + 1, 17);
                        assert(count_below(bits, l as int + 1) == p0 + cnt);
                        if sym <= max_sym {
                            let q = choose|q: int| 0 <= q < p && #[trigger] hv[q] as int == sym as int;
                            assert(hv[q] == hv[p as int]);
                        }
                    }
                    return Err(Error::InvalidHuffmanTable);
                }
                proof {
                    assert forall|q: int| 0 <= q < p implies hv[q] != hv[p as int] by {
                        if hv[q] == hv[p as int] {
                            assert(ehufsi[sym as int] != 0);
                        }
                    }
                }
                ehufco[sym as usize] = code;
                ehufsi[sym as usize] = l as u8;
                proof {
                    let sp = sym as int;
                    assert forall|s: int|
                        0 <= s < 256 implies (ehufsi[s] != 0 <==> exists|q: int|
                        0 <= q < p + 1 && #[trigger] hv[q] as int == s) by {
                        if s == sp {
                            assert(hv[p as int] as int == s);
                        } else if ehufsi[s] != 0 {
                            let q = choose|q: int| 0 <= q < p && #[trigger] hv[q] as int == s;
                            assert(0 <= q < p + 1 && hv[q] as int == s);
                        } else {
                            assert forall|q: int| 0 <= q < p + 1 implies #[trigger] hv[q] as int != s by {
                                if q == p as int {
                                } else {
                                }
                            }
                        }
                    }
                    assert forall|m: int, q: int|
                        #![trigger hv[q], count_below(bits, m)]
                        1 <= m < l && count_below(bits, m) <= q < count_below(bits, m + 1) implies {
                            &&& ehufsi[hv[q] as int] == m
                            &&& ehufco[hv[q] as int] == code_start(bits, m) + q - count_below(
                                bits,
                                m,
                            )
                        } by {
                        lemma_count_mono(bits, m + 1, l as int);
                        assert(hv[q] != hv[p as int]);
                    }
                    assert forall|q: int| p0 <= q < p + 1 implies {
                        &&& ehufsi[#[trigger] hv[q] as int] == l
                        &&& ehufco[hv[q] as int] == code_start(bits, l as int) + q - p0
                    } by {
                        if q < p {
                            assert(hv[q] != hv[p as int]);
                        }
                    }
                    lemma_pow2_strictly_increases(l as nat, 17);
                }
                code = code + 1;
                p = p + 1;
                i = i + 1;
            }
            proof {
                assert(count_below(bits, l as int + 1) == p);
                assert(code_start(bits, l as int + 1) == code as int * 2);
                lemma_pow2_unfold(l as nat + 1);
            }
            proof {
                lemma2_to64();
                if l + 1 < 16 {
                    lemma_pow2_strictly_increases(l as nat + 1, 16);
                }
            }
            code = code * 2;
            limit = limit * 2;
            l = l + 1;
        }
        let t = DerivedTable { ehufco, ehufsi };
        proof {
            assert(t.derived_from(*htbl)) by {
                assert forall|s: int|
                    0 <= s < 256 && (forall|q: int| 0 <= q < p ==> htbl.huffval[q] as int != s)
                    implies #[trigger] t.size_of(s) == 0 by {
                    if ehufsi[s] != 0 {
                        let q = choose|q: int| 0 <= q < p && #[trigger] hv[q] as int == s;
                    }
                }
            }
        }
        Ok(t)
    }
}

proof fn lemma_count_mono(bits: Seq<u8>, a: int, b: int)
    requires
        a <= b,
    ensures
        count_below(bits, a) <= count_below(bits, b),
    decreases b - a,
{
    if a < b {
        lemma_count_mono(bits, a, b - 1);
    }
}

} // verus!
