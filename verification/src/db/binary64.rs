//! Usage weights as binary64 numbers. The store counts uses in whole numbers;
//! the file holds each weight as the 64 bits of the binary64 number of the
//! same value, so that a weight takes the eight bytes a floating-point field
//! takes.

use vstd::prelude::*;
use vstd::arithmetic::div_mod::{
    lemma_fundamental_div_mod, lemma_fundamental_div_mod_converse, lemma_mod_multiples_basic,
};
use vstd::arithmetic::mul::{
    lemma_mul_inequality, lemma_mul_is_commutative, lemma_mul_strict_inequality,
};
use vstd::arithmetic::power2::{
    lemma2_to64, lemma_pow2_adds, lemma_pow2_pos, lemma_pow2_strictly_increases,
    lemma_pow2_unfold, pow2,
};
use crate::db::repo::{Rank, MAX_RANK};

verus! {

/// The exponent of the largest power of two that is at most `n`, for `n` of
/// at least 1.
pub open spec fn binade(n: nat) -> nat
    decreases n,
{
    if n < 2 {
        0
    } else {
        1 + binade(n / 2)
    }
}

/// The bits of the binary64 number whose value is the whole number `n`, for
/// `n` up to `MAX_RANK`: all zero for 0; otherwise sign 0, exponent field
/// `1023 + e` and fraction field `(n - 2^e) * 2^(52 - e)`, where `2^e` is the
/// largest power of two at most `n`.
pub open spec fn rank_bits(n: Rank) -> u64 {
    if n == 0 {
        0
    } else {
        let e = binade(n as nat);
        ((1023 + e) * pow2(52) + (n - pow2(e)) * pow2((52 - e) as nat)) as u64
    }
}

/// `binade(n)` is the one exponent `e` with `2^e <= n < 2^(e+1)`.
pub proof fn lemma_binade(n: nat)
    requires
        n >= 1,
    ensures
        pow2(binade(n)) <= n < 2 * pow2(binade(n)),
    decreases n,
{
    lemma2_to64();
    if n >= 2 {
        lemma_binade(n / 2);
        lemma_pow2_unfold(binade(n));
    }
}

/// No second exponent brackets `n`.
pub proof fn lemma_binade_unique(n: nat, e: nat)
    requires
        pow2(e) <= n < 2 * pow2(e),
    ensures
        binade(n) == e,
{
    lemma_pow2_pos(e);
    lemma_binade(n);
    let b = binade(n);
    if b < e {
        lemma_pow2_unfold(b + 1);
        if b + 1 < e {
            lemma_pow2_strictly_increases(b + 1, e);
        }
    } else if e < b {
        lemma_pow2_unfold(e + 1);
        if e + 1 < b {
            lemma_pow2_strictly_increases(e + 1, b);
        }
    }
}

/// A power of two with an exponent of at most 52 lies between 1 and `2^52`.
pub proof fn lemma_pow2_upto_52(k: nat)
    requires
        k <= 52,
    ensures
        1 <= pow2(k) <= 0x10_0000_0000_0000,
        k == 52 ==> pow2(k) == 0x10_0000_0000_0000,
        pow2(k + 1) == 2 * pow2(k),
{
    lemma2_to64();
    vstd::arithmetic::power2::lemma2_to64_rest();
    lemma_pow2_pos(k);
    lemma_pow2_unfold(k + 1);
    if k < 52 {
        lemma_pow2_strictly_increases(k, 52);
    }
}

/// The fields of `rank_bits(n)` for a weight of at least 1: the exponent is
/// at most 53, the fraction is below `2^52`, and the bits are the exponent
/// field times `2^52` plus the fraction.
pub proof fn lemma_rank_bits_fields(n: Rank)
    requires
        1 <= n <= MAX_RANK,
    ensures
        binade(n as nat) <= 53,
        pow2(binade(n as nat)) <= n < 2 * pow2(binade(n as nat)),
        0 <= (n - pow2(binade(n as nat))) * pow2((52 - binade(n as nat)) as nat)
            < 0x10_0000_0000_0000,
        rank_bits(n) == (1023 + binade(n as nat)) * 0x10_0000_0000_0000 + (n - pow2(
            binade(n as nat),
        )) * pow2((52 - binade(n as nat)) as nat),
        rank_bits(n) / 0x10_0000_0000_0000 == 1023 + binade(n as nat),
        rank_bits(n) % 0x10_0000_0000_0000 == (n - pow2(binade(n as nat))) * pow2(
            (52 - binade(n as nat)) as nat,
        ),
{
    lemma2_to64();
    vstd::arithmetic::power2::lemma2_to64_rest();
    let e = binade(n as nat);
    lemma_binade(n as nat);
    lemma_pow2_pos(e);
    if e > 53 {
        if e > 54 {
            lemma_pow2_strictly_increases(54, e);
        }
        assert(false);
    }
    let p = pow2(e) as int;
    let d = n - p;
    let fraction: int;
    if e == 53 {
        assert(d == 0);
        fraction = d * pow2((52 - e) as nat);
        assert(fraction == 0) by (nonlinear_arith)
            requires
                fraction == d * pow2((52 - e) as nat),
                d == 0,
        ;
    } else {
        let scale = pow2((52 - e) as nat) as int;
        lemma_pow2_pos((52 - e) as nat);
        lemma_pow2_adds(e, (52 - e) as nat);
        assert(p * scale == 0x10_0000_0000_0000);
        fraction = d * scale;
        lemma_mul_strict_inequality(d, p, scale);
        lemma_mul_inequality(0, d, scale);
        assert(0 * scale == 0);
    }
    let bits = (1023 + e) * 0x10_0000_0000_0000 + fraction;
    assert(bits < 0x1_0000_0000_0000_0000);
    assert(rank_bits(n) == bits);
    lemma_fundamental_div_mod_converse(bits, 0x10_0000_0000_0000, (1023 + e) as int, fraction);
}

/// The binary64 bits of a weight.
pub fn rank_to_bits(n: Rank) -> (bits: u64)
    requires
        n <= MAX_RANK,
    ensures
        bits == rank_bits(n),
{
    if n == 0 {
        return 0;
    }
    proof {
        lemma2_to64();
        vstd::arithmetic::power2::lemma2_to64_rest();
        lemma_rank_bits_fields(n);
    }
    if n == MAX_RANK {
        proof {
            lemma_binade_unique(n as nat, 53);
            assert((n - pow2(53)) * pow2((52 - 53) as nat) == 0) by (nonlinear_arith)
                requires
                    n - pow2(53) == 0,
            ;
        }
        return 0x4340_0000_0000_0000;
    }
    let mut e: u64 = 0;
    let mut p: u64 = 1;
    while p <= n / 2
        invariant
            p == pow2(e as nat),
            1 <= p <= n < MAX_RANK,
            e <= 52,
        decreases n - p,
    {
        proof {
            lemma_pow2_upto_52(e as nat);
        }
        p = p * 2;
        e = e + 1;
    }
    proof {
        lemma_binade_unique(n as nat, e as nat);
    }
    let mut scale: u64 = 1;
    let mut k: u64 = e;
    while k < 52
        invariant
            e <= k <= 52,
            scale == pow2((k - e) as nat),
            1 <= scale <= 0x10_0000_0000_0000,
        decreases 52 - k,
    {
        proof {
            lemma_pow2_upto_52((k - e) as nat);
            lemma_pow2_upto_52((k + 1 - e) as nat);
        }
        scale = scale * 2;
        k = k + 1;
    }
    (1023 + e) * 0x10_0000_0000_0000 + (n - p) * scale
}

/// The weight whose binary64 bits are `bits`, where they are those of a whole
/// number up to `MAX_RANK`.
pub fn rank_from_bits(bits: u64) -> (r: Option<Rank>)
    ensures
        match r {
            Some(n) => n <= MAX_RANK && rank_bits(n) == bits,
            None => forall|n: Rank| n <= MAX_RANK ==> rank_bits(n) != bits,
        },
{
    if bits == 0 {
        return Some(0);
    }
    let exponent: u64 = bits / 0x10_0000_0000_0000;
    let fraction: u64 = bits % 0x10_0000_0000_0000;
    proof {
        lemma2_to64();
        vstd::arithmetic::power2::lemma2_to64_rest();
    }
    if exponent < 1023 || exponent > 1076 {
        assert forall|n: Rank| n <= MAX_RANK implies rank_bits(n) != bits by {
            if n >= 1 {
                lemma_rank_bits_fields(n);
            }
        }
        return None;
    }
    let e: u64 = exponent - 1023;
    if e == 53 {
        if fraction == 0 {
            proof {
                lemma_binade_unique(MAX_RANK as nat, 53);
                lemma_rank_bits_fields(MAX_RANK);
                assert((MAX_RANK - pow2(53)) * pow2((52 - 53) as nat) == 0) by (nonlinear_arith)
                    requires
                        MAX_RANK - pow2(53) == 0,
                ;
            }
            return Some(MAX_RANK);
        }
        assert forall|n: Rank| n <= MAX_RANK implies rank_bits(n) != bits by {
            if n >= 1 {
                lemma_rank_bits_fields(n);
                if rank_bits(n) == bits {
                    assert(binade(n as nat) == 53);
                    assert(n == MAX_RANK);
                    assert((n - pow2(53)) * pow2((52 - 53) as nat) == 0) by (nonlinear_arith)
                        requires
                            n - pow2(53) == 0,
                    ;
                }
            }
        }
        return None;
    }
    let mut p: u64 = 1;
    let mut i: u64 = 0;
    while i < e
        invariant
            i <= e <= 52,
            p == pow2(i as nat),
            1 <= p <= 0x10_0000_0000_0000,
        decreases e - i,
    {
        proof {
            lemma_pow2_upto_52(i as nat);
            lemma_pow2_upto_52((i + 1) as nat);
        }
        p = p * 2;
        i = i + 1;
    }
    let mut scale: u64 = 1;
    let mut k: u64 = e;
    while k < 52
        invariant
            e <= k <= 52,
            scale == pow2((k - e) as nat),
            1 <= scale <= 0x10_0000_0000_0000,
        decreases 52 - k,
    {
        proof {
            lemma_pow2_upto_52((k - e) as nat);
            lemma_pow2_upto_52((k + 1 - e) as nat);
        }
        scale = scale * 2;
        k = k + 1;
    }
    proof {
        lemma_pow2_adds(e as nat, (52 - e) as nat);
        assert(p * scale == 0x10_0000_0000_0000);
    }
    if fraction % scale != 0 {
        assert forall|n: Rank| n <= MAX_RANK implies rank_bits(n) != bits by {
            if n >= 1 {
                lemma_rank_bits_fields(n);
                if rank_bits(n) == bits {
                    assert(binade(n as nat) == e);
                    lemma_mod_multiples_basic(n - p, scale as int);
                }
            }
        }
        return None;
    }
    let d: u64 = fraction / scale;
    proof {
        lemma_fundamental_div_mod(fraction as int, scale as int);
        lemma_mul_is_commutative(scale as int, d as int);
        assert(fraction == d * scale);
        assert(d < p) by (nonlinear_arith)
            requires
                d * scale < 0x10_0000_0000_0000,
                p * scale == 0x10_0000_0000_0000,
                scale >= 1,
        ;
    }
    let n: u64 = p + d;
    proof {
        lemma_binade_unique(n as nat, e as nat);
        lemma_rank_bits_fields(n);
    }
    Some(n)
}

} // verus!
