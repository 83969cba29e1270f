use vstd::prelude::*;
use vstd::arithmetic::power2::{pow2, lemma_pow2_unfold, lemma_pow2_pos};
use vstd::arithmetic::div_mod::{lemma_mod_breakdown, lemma_fundamental_div_mod};

verus! {

/// The number of one bits in `m`.
pub open spec fn popcount(m: u32) -> nat
    decreases m,
{
    if m == 0 {
        0
    } else {
        (m % 2) as nat + popcount(m / 2)
    }
}

/// Bit extraction: the bits of `v` at the positions where `m` has a one,
/// packed, in order, into the low bits of the result.
pub open spec fn pext(v: u32, m: u32) -> nat
    decreases m,
{
    if m == 0 {
        0
    } else if m % 2 == 1 {
        (v % 2) as nat + 2 * pext(v / 2, m / 2)
    } else {
        pext(v / 2, m / 2)
    }
}

/// Bit deposit: the low bits of `v`, in order, placed at the positions where
/// `m` has a one; every other bit is zero.
pub open spec fn pdep(v: u32, m: u32) -> nat
    decreases m,
{
    if m == 0 {
        0
    } else if m % 2 == 1 {
        (v % 2) as nat + 2 * pdep(v / 2, m / 2)
    } else {
        2 * pdep(v, m / 2)
    }
}

proof fn lemma_and_split(x: u32, y: u32)
    ensures
        x & y == ((x / 2) & (y / 2)) * 2 + ((x % 2) & (y % 2)),
        (x % 2) & (y % 2) == if x % 2 == 1 && y % 2 == 1 { 1u32 } else { 0u32 },
        x & y <= y,
{
    assert(x & y == ((x / 2) & (y / 2)) * 2 + ((x % 2) & (y % 2))) by (bit_vector);
    assert((x % 2) & (y % 2) == if x % 2 == 1 && y % 2 == 1 { 1u32 } else { 0u32 }) by (bit_vector);
    assert(x & y <= y) by (bit_vector);
}

/// Extraction yields fewer bits than the mask has ones.
pub proof fn lemma_pext_bound(v: u32, m: u32)
    ensures
        pext(v, m) < pow2(popcount(m)),
        pext(v, m) <= m,
    decreases m,
{
    if m == 0 {
        vstd::arithmetic::power2::lemma2_to64();
    } else {
        lemma_pext_bound(v / 2, m / 2);
        if m % 2 == 1 {
            lemma_pow2_unfold(popcount(m));
        }
    }
}

/// Deposit sets no bit outside the mask.
pub proof fn lemma_pdep_bound(v: u32, m: u32)
    ensures
        pdep(v, m) <= m,
    decreases m,
{
    if m != 0 {
        if m % 2 == 1 {
            lemma_pdep_bound(v / 2, m / 2);
        } else {
            lemma_pdep_bound(v, m / 2);
        }
    }
}

/// Only the bits of `v` under the mask matter to extraction.
pub proof fn lemma_pext_and(v: u32, m: u32)
    ensures
        pext(v, m) == pext(v & m, m),
    decreases m,
{
    if m != 0 {
        lemma_and_split(v, m);
        lemma_pext_and(v / 2, m / 2);
        assert((v & m) / 2 == (v / 2) & (m / 2)) by (bit_vector);
        assert((v & m) % 2 == (v % 2) & (m % 2)) by (bit_vector);
        lemma_pext_and((v & m) / 2, m / 2);
        assert(((v / 2) & (m / 2)) & (m / 2) == (v / 2) & (m / 2)) by (bit_vector);
    }
}

/// Depositing all bits of the mask back gives the bits of `v` under the mask.
pub proof fn lemma_pdep_pext(v: u32, m: u32)
    ensures
        pdep(pext(v, m) as u32, m) == (v & m),
    decreases m,
{
    lemma_pext_bound(v, m);
    if m == 0 {
        assert(v & 0 == 0) by (bit_vector);
    } else {
        lemma_and_split(v, m);
        lemma_pdep_pext(v / 2, m / 2);
        lemma_pext_bound(v / 2, m / 2);
        let e = pext(v, m) as u32;
        if m % 2 == 1 {
            assert(e % 2 == v % 2);
            assert(e / 2 == pext(v / 2, m / 2));
        } else {
            assert(e == pext(v / 2, m / 2));
        }
    }
}

/// Extracting what was deposited gives back the low bits of `v`, as many as
/// the mask has ones.
pub proof fn lemma_pext_pdep(v: u32, m: u32)
    ensures
        pdep(v, m) <= u32::MAX,
        pext(pdep(v, m) as u32, m) == v as nat % pow2(popcount(m)),
    decreases m,
{
    lemma_pdep_bound(v, m);
    lemma_pow2_pos(popcount(m));
    if m == 0 {
        vstd::arithmetic::power2::lemma2_to64();
    } else {
        let d = pdep(v, m) as u32;
        if m % 2 == 1 {
            lemma_pext_pdep(v / 2, m / 2);
            lemma_pdep_bound(v / 2, m / 2);
            assert(d % 2 == v % 2);
            assert(d / 2 == pdep(v / 2, m / 2));
            lemma_pow2_unfold(popcount(m));
            lemma_pow2_pos(popcount(m / 2));
            lemma_mod_breakdown(v as int, 2, pow2(popcount(m / 2)) as int);
            lemma_fundamental_div_mod(v as int, 2);
        } else {
            lemma_pext_pdep(v, m / 2);
            lemma_pdep_bound(v, m / 2);
            assert(d % 2 == 0);
            assert(d / 2 == pdep(v, m / 2));
        }
    }
}

/// Deposit uses only as many low bits of `v` as the mask has ones.
pub proof fn lemma_pdep_low_bits(v: u32, m: u32)
    ensures
        pdep(v, m) == pdep((v as nat % pow2(popcount(m))) as u32, m),
    decreases m,
{
    lemma_pow2_pos(popcount(m));
    vstd::arithmetic::div_mod::lemma_mod_decreases(v as nat, pow2(popcount(m)));
    if m != 0 {
        let w = (v as nat % pow2(popcount(m))) as u32;
        assert(w as nat == v as nat % pow2(popcount(m)));
        if m % 2 == 1 {
            let p = pow2(popcount(m / 2));
            lemma_pow2_unfold(popcount(m));
            lemma_pow2_pos(popcount(m / 2));
            assert(pow2(popcount(m)) == 2 * p);
            lemma_mod_breakdown(v as int, 2, p as int);
            assert(w as int == 2 * (((v as int) / 2) % (p as int)) + (v as int) % 2);
            assert(w % 2 == v % 2);
            assert(w / 2 == (v / 2) as nat % p);
            lemma_pdep_low_bits(v / 2, m / 2);
        } else {
            lemma_pdep_low_bits(v, m / 2);
        }
    }
}

/// The result of a deposit lies under its mask.
pub proof fn lemma_pdep_within(v: u32, m: u32)
    ensures
        pdep(v, m) <= u32::MAX,
        (pdep(v, m) as u32) & m == pdep(v, m) as u32,
    decreases m,
{
    lemma_pdep_bound(v, m);
    if m == 0 {
        assert(0u32 & 0 == 0) by (bit_vector);
    } else {
        let d = pdep(v, m) as u32;
        lemma_and_split(d, m);
        if m % 2 == 1 {
            lemma_pdep_within(v / 2, m / 2);
            assert(d / 2 == pdep(v / 2, m / 2));
        } else {
            lemma_pdep_within(v, m / 2);
            assert(d / 2 == pdep(v, m / 2));
            assert(d % 2 == 0);
        }
    }
}

/// Bit extraction: packs the bits of `value` selected by `mask` into the low
/// bits of the result.
pub fn pext_u32(value: u32, mask: u32) -> (r: u32)
    ensures
        r == pext(value, mask),
{
    proof {
        lemma_pext_bound(value, mask);
    }
    let mut res: u64 = 0;
    let mut bit: u64 = 1;
    let mut v = value;
    let mut m = mask;
    while m != 0
        invariant
            res + bit * pext(v, m) == pext(value, mask),
            res < bit,
            1 <= bit,
            bit * m <= u32::MAX,
        decreases m,
    {
        let ghost old_bit = bit;
        let ghost old_res = res;
        proof {
            assert(bit <= bit * m) by (nonlinear_arith)
                requires m >= 1, bit >= 1;
        }
        if m % 2 == 1 {
            let ghost rest = pext(v / 2, m / 2);
            assert(pext(v, m) == (v % 2) as nat + 2 * rest);
            if v % 2 == 1 {
                res = res + bit;
                assert(old_bit * pext(v, m) == old_bit + (old_bit * 2) * rest) by (nonlinear_arith)
                    requires pext(v, m) == 1 + 2 * rest;
            } else {
                assert(old_bit * pext(v, m) == (old_bit * 2) * rest) by (nonlinear_arith)
                    requires pext(v, m) == 2 * rest;
            }
            bit = bit * 2;
            proof {
                assert(bit * (m / 2) <= old_bit * m) by (nonlinear_arith)
                    requires bit == old_bit * 2, m >= 1;
            }
        } else {
            proof {
                assert(bit * (m / 2) <= bit * m) by (nonlinear_arith)
                    requires bit >= 1;
            }
        }
        v = v / 2;
        m = m / 2;
    }
    res as u32
}

/// Bit deposit: spreads the low bits of `value` over the positions selected
/// by `mask`.
pub fn pdep_u32(value: u32, mask: u32) -> (r: u32)
    ensures
        r == pdep(value, mask),
{
    proof {
        lemma_pdep_bound(value, mask);
    }
    let mut res: u64 = 0;
    let mut pos: u64 = 1;
    let mut v = value;
    let mut m = mask;
    while m != 0
        invariant
            res + pos * pdep(v, m) == pdep(value, mask),
            res < pos,
            1 <= pos,
            pos * m <= u32::MAX,
        decreases m,
    {
        let ghost old_pos = pos;
        let ghost old_res = res;
        proof {
            assert(pos <= pos * m) by (nonlinear_arith)
                requires m >= 1, pos >= 1;
        }
        if m % 2 == 1 {
            let ghost rest = pdep(v / 2, m / 2);
            assert(pdep(v, m) == (v % 2) as nat + 2 * rest);
            if v % 2 == 1 {
                res = res + pos;
                assert(old_pos * pdep(v, m) == old_pos + (old_pos * 2) * rest) by (nonlinear_arith)
                    requires pdep(v, m) == 1 + 2 * rest;
            } else {
                assert(old_pos * pdep(v, m) == (old_pos * 2) * rest) by (nonlinear_arith)
                    requires pdep(v, m) == 2 * rest;
            }
            pos = pos * 2;
            v = v / 2;
        } else {
            pos = pos * 2;
            proof {
                assert(old_pos * pdep(v, m) == pos * pdep(v, m / 2)) by (nonlinear_arith)
                    requires
                        pdep(v, m) == 2 * pdep(v, m / 2),
                        pos == old_pos * 2;
            }
        }
        proof {
            assert(pos * (m / 2) <= old_pos * m) by (nonlinear_arith)
                requires pos == old_pos * 2, m >= 1;
        }
        m = m / 2;
    }
    res as u32
}

/// Reports whether bit number `bit` of `value` is one.
pub fn set(value: u8, bit: u8) -> (r: bool)
    requires
        bit < 8,
    ensures
        r == ((value as nat / pow2(bit as nat)) % 2 == 1),
{
    proof {
        vstd::bits::lemma_u8_shr_is_div(value, bit);
        assert(((value >> bit) & 1 != 0) == ((value >> bit) % 2 == 1)) by (bit_vector);
    }
    (value >> bit) & 1 != 0
}

} // verus!
