//! Entropy bookkeeping for the wave.  The cell-selection heuristic only
//! ever compares entropies, so the cache stores them in fixed point with
//! `LOG2_SCALE` as the unit, keeping the whole library in integers.  The
//! cached sums are exact integers; the logarithm is a deterministic
//! fixed-point approximation whose accuracy is exercised by tests.

use vstd::prelude::*;

verus! {

/// Fixed-point unit: one in the entropy scale (24 fractional bits).
pub const LOG2_SCALE: u64 = 0x1000000;

/// Cached entropy of a collapsed cell: never selected by the heuristic.
pub const ENTROPY_INF: u64 = u64::MAX;

/// Per-cell cache of the weight sums and the entropy they give.
/// `entropy == ENTROPY_INF` marks a collapsed cell.
#[derive(Clone, Copy, Debug)]
pub struct SlotEntropyCache {
    pub sum_weights: u64,
    pub sum_weights_log_weights: u64,
    pub entropy: u64,
}

/// Sum of `w[p]` over the members `p < n` of `s`.
pub open spec fn set_weight_sum(s: Set<u32>, w: Seq<u32>, n: int) -> int
    decreases n,
{
    if n <= 0 {
        0
    } else {
        set_weight_sum(s, w, n - 1) + if s.contains((n - 1) as u32) {
            w[n - 1] as int
        } else {
            0
        }
    }
}

/// Sum of `t[p]` over the members `p < n` of `s`.
pub open spec fn set_table_sum(s: Set<u32>, t: Seq<u64>, n: int) -> int
    decreases n,
{
    if n <= 0 {
        0
    } else {
        set_table_sum(s, t, n - 1) + if s.contains((n - 1) as u32) {
            t[n - 1] as int
        } else {
            0
        }
    }
}

pub proof fn lemma_set_weight_sum_nonneg(s: Set<u32>, w: Seq<u32>, n: int)
    ensures
        set_weight_sum(s, w, n) >= 0,
    decreases n,
{
    if n > 0 {
        lemma_set_weight_sum_nonneg(s, w, n - 1);
    }
}

pub proof fn lemma_set_table_sum_nonneg(s: Set<u32>, t: Seq<u64>, n: int)
    ensures
        set_table_sum(s, t, n) >= 0,
    decreases n,
{
    if n > 0 {
        lemma_set_table_sum_nonneg(s, t, n - 1);
    }
}

/// Removing a member below `n` lowers the weight sum by exactly its
/// weight.
pub proof fn lemma_set_weight_sum_remove(s: Set<u32>, w: Seq<u32>, n: int, p: u32)
    requires
        s.contains(p),
        0 <= p < n <= 0x100000000,
    ensures
        set_weight_sum(s.remove(p), w, n) == set_weight_sum(s, w, n) - w[p as int],
    decreases n,
{
    if p == n - 1 {
        lemma_set_weight_sum_agree(s.remove(p), s, w, n - 1);
    } else {
        lemma_set_weight_sum_remove(s, w, n - 1, p);
    }
}

pub proof fn lemma_set_table_sum_remove(s: Set<u32>, t: Seq<u64>, n: int, p: u32)
    requires
        s.contains(p),
        0 <= p < n <= 0x100000000,
    ensures
        set_table_sum(s.remove(p), t, n) == set_table_sum(s, t, n) - t[p as int],
    decreases n,
{
    if p == n - 1 {
        lemma_set_table_sum_agree(s.remove(p), s, t, n - 1);
    } else {
        lemma_set_table_sum_remove(s, t, n - 1, p);
    }
}

/// Two sets with the same members below `n` have the same sums there.
pub proof fn lemma_set_weight_sum_agree(s1: Set<u32>, s2: Set<u32>, w: Seq<u32>, n: int)
    requires
        forall|x: u32| x < n ==> (s1.contains(x) <==> s2.contains(x)),
    ensures
        set_weight_sum(s1, w, n) == set_weight_sum(s2, w, n),
    decreases n,
{
    if n > 0 {
        lemma_set_weight_sum_agree(s1, s2, w, n - 1);
    }
}

pub proof fn lemma_set_table_sum_agree(s1: Set<u32>, s2: Set<u32>, t: Seq<u64>, n: int)
    requires
        forall|x: u32| x < n ==> (s1.contains(x) <==> s2.contains(x)),
    ensures
        set_table_sum(s1, t, n) == set_table_sum(s2, t, n),
    decreases n,
{
    if n > 0 {
        lemma_set_table_sum_agree(s1, s2, t, n - 1);
    }
}

/// The weight sum of a subset is no larger.
pub proof fn lemma_set_weight_sum_subset(s1: Set<u32>, s2: Set<u32>, w: Seq<u32>, n: int)
    requires
        forall|x: u32| s1.contains(x) ==> s2.contains(x),
    ensures
        set_weight_sum(s1, w, n) <= set_weight_sum(s2, w, n),
    decreases n,
{
    if n > 0 {
        lemma_set_weight_sum_subset(s1, s2, w, n - 1);
    }
}

/// A member's weight is no more than the whole sum.
pub proof fn lemma_set_weight_sum_member(s: Set<u32>, w: Seq<u32>, n: int, p: u32)
    requires
        s.contains(p),
        0 <= p < n <= 0x100000000,
    ensures
        set_weight_sum(s, w, n) >= w[p as int],
    decreases n,
{
    lemma_set_weight_sum_remove(s, w, n, p);
    lemma_set_weight_sum_nonneg(s.remove(p), w, n);
}

/// Number of members of `s` below `n`.
pub open spec fn set_count_below(s: Set<u32>, n: int) -> int
    decreases n,
{
    if n <= 0 {
        0
    } else {
        set_count_below(s, n - 1) + if s.contains((n - 1) as u32) {
            1int
        } else {
            0int
        }
    }
}

/// Two sets with the same members below `n` have the same count there.
pub proof fn lemma_set_count_agree(s1: Set<u32>, s2: Set<u32>, n: int)
    requires
        forall|x: u32| x < n ==> (s1.contains(x) <==> s2.contains(x)),
    ensures
        set_count_below(s1, n) == set_count_below(s2, n),
    decreases n,
{
    if n > 0 {
        lemma_set_count_agree(s1, s2, n - 1);
    }
}

/// For a finite set whose members all lie below `n`, the count below `n`
/// is the cardinality.
pub proof fn lemma_set_count_is_len(s: Set<u32>, n: int)
    requires
        s.finite(),
        0 <= n <= 0x100000000,
        forall|x: u32| s.contains(x) ==> (x as int) < n,
    ensures
        set_count_below(s, n) == s.len(),
    decreases n,
{
    if n == 0 {
        assert(s =~= Set::<u32>::empty());
    } else if s.contains((n - 1) as u32) {
        let s2 = s.remove((n - 1) as u32);
        lemma_set_count_agree(s2, s, n - 1);
        lemma_set_count_is_len(s2, n - 1);
    } else {
        lemma_set_count_is_len(s, n - 1);
    }
}

/// Floor of the base-2 logarithm of a positive integer.
pub open spec fn spec_log2_floor(w: int) -> int
    decreases w,
{
    if w < 2 {
        0
    } else {
        spec_log2_floor(w / 2) + 1
    }
}

/// The mantissa doubled up into `[2^63, 2^64)`.
pub open spec fn spec_normalized(m: int) -> int
    decreases 0x10000000000000000 - m,
{
    if m < 1 {
        0
    } else if m >= 0x8000000000000000 {
        m
    } else {
        spec_normalized(2 * m)
    }
}

/// The `j` fraction bits that repeated truncating squaring of the
/// mantissa `m` yields, most significant first.
pub open spec fn spec_frac_bits(m: int, j: nat) -> int
    decreases j,
{
    if j == 0 {
        0
    } else {
        let m2 = (m * m) / 0x8000000000000000;
        if m2 >= 0x10000000000000000 {
            vstd::arithmetic::power2::pow2((j - 1) as nat) + spec_frac_bits(
                m2 / 2,
                (j - 1) as nat,
            )
        } else {
            spec_frac_bits(m2, (j - 1) as nat)
        }
    }
}

/// The value `log2_fixed` computes: the exact integer part of the
/// logarithm in the high bits, and the 24 mantissa-squaring fraction
/// bits below.
pub open spec fn spec_log2_fixed(w: u64) -> int {
    spec_log2_floor(w as int) * 0x1000000 + spec_frac_bits(spec_normalized(w as int), 24)
}

/// The cached entropy of a cell with the given weight sums:
/// `log2(sum_w) - sum_wlw / sum_w` in fixed point, clamped at zero.
pub open spec fn spec_entropy_from(sum_weights: u64, sum_weights_log_weights: u64) -> int {
    let l = spec_log2_fixed(sum_weights);
    let q = (sum_weights_log_weights as int) / (sum_weights as int);
    if l >= q {
        l - q
    } else {
        0
    }
}

/// Base-2 logarithm in fixed point: the integer part is exact, the 24
/// fractional bits come from repeated squaring of the mantissa.  The
/// result is a deterministic function of `w` alone.
pub fn log2_fixed(w: u64) -> (r: u64)
    requires
        w >= 1,
    ensures
        r == spec_log2_fixed(w),
        r < 64 * LOG2_SCALE,
        w == 1 ==> r == 0,
        w >= 2 ==> r >= LOG2_SCALE,
        w < 0x100000000 ==> r < 32 * LOG2_SCALE,
{
    let mut k: u64 = 0;
    let mut t: u64 = w;
    proof {
        vstd::arithmetic::power2::lemma2_to64();
    }
    while t >= 2
        invariant
            1 <= t,
            w >= 1,
            t as int == w as int / vstd::arithmetic::power2::pow2(k as nat) as int,
            k <= 63,
            k == 0 ==> t == w,
            vstd::arithmetic::power2::pow2(k as nat) <= w,
            spec_log2_floor(w as int) == k + spec_log2_floor(t as int),
        decreases t,
    {
        proof {
            let p = vstd::arithmetic::power2::pow2(k as nat);
            vstd::arithmetic::power2::lemma_pow2_pos(k as nat);
            vstd::arithmetic::power2::lemma_pow2_unfold((k + 1) as nat);
            vstd::arithmetic::div_mod::lemma_div_denominator(w as int, p as int, 2);
            // pow2(k + 1) <= w because t >= 2
            assert(2 * p <= w && w as int / (p as int * 2) == w as int / (2 * p) as int)
                by (nonlinear_arith)
                requires
                    t as int == w as int / p as int,
                    t >= 2,
                    p >= 1,
                    w >= 1,
            ;
            if k + 1 == 64 {
                vstd::arithmetic::power2::lemma2_to64_rest();
                assert(false);
            }
        }
        t = t / 2;
        k = k + 1;
    }
    proof {
        if w < 0x100000000 && k >= 32 {
            if k > 32 {
                vstd::arithmetic::power2::lemma_pow2_strictly_increases(32, k as nat);
            }
            vstd::arithmetic::power2::lemma2_to64();
            assert(false);
        }
    }
    // Normalise the mantissa into [2^63, 2^64).
    let mut m: u64 = w;
    let ghost mut a: nat = 0nat;
    proof {
        vstd::arithmetic::power2::lemma2_to64();
    }
    while m < 0x8000000000000000
        invariant
            m >= 1,
            w == 1 ==> m == vstd::arithmetic::power2::pow2(a) && a <= 63,
            spec_normalized(w as int) == spec_normalized(m as int),
        decreases 0x10000000000000000 - m as int,
    {
        proof {
            if w == 1 {
                if a >= 63 {
                    vstd::arithmetic::power2::lemma2_to64_rest();
                    assert(false);
                }
                vstd::arithmetic::power2::lemma_pow2_unfold(a + 1);
                a = a + 1;
            }
        }
        m = m * 2;
    }
    proof {
        if w == 1 {
            if a < 63 {
                vstd::arithmetic::power2::lemma_pow2_strictly_increases(a, 63);
            }
            vstd::arithmetic::power2::lemma2_to64_rest();
            assert(m == 0x8000000000000000);
        }
    }
    // Extract 24 fractional bits by repeated squaring.
    let ghost m0 = m as int;
    proof {
        assert(spec_normalized(m as int) == m as int);
        assert(m0 == spec_normalized(w as int));
    }
    let mut frac: u64 = 0;
    let mut j: u64 = 0;
    while j < 24
        invariant
            j <= 24,
            0x8000000000000000 <= m,
            frac < vstd::arithmetic::power2::pow2(j as nat),
            w == 1 ==> frac == 0 && m == 0x8000000000000000,
            spec_frac_bits(m0, 24) == frac * vstd::arithmetic::power2::pow2((24 - j) as nat)
                + spec_frac_bits(m as int, (24 - j) as nat),
        decreases 24 - j,
    {
        proof {
            vstd::arithmetic::power2::lemma_pow2_unfold((j + 1) as nat);
            vstd::arithmetic::power2::lemma_pow2_strictly_increases(j as nat, 24);
            vstd::arithmetic::power2::lemma2_to64();
            assert((m as u128) * (m as u128) <= 0xffffffffffffffffffffffffffffffffu128)
                by (nonlinear_arith)
                requires
                    (m as u128) < 0x10000000000000000u128,
            ;
        }
        let big: u128 = (m as u128) * (m as u128);
        proof {
            assert(big >= 0x40000000000000000000000000000000u128) by (nonlinear_arith)
                requires
                    big == (m as u128) * (m as u128),
                    0x8000000000000000u128 <= m as u128,
            ;
        }
        let m2: u128 = big / 0x8000000000000000;
        proof {
            if w == 1 {
                assert(big == 0x40000000000000000000000000000000u128) by (nonlinear_arith)
                    requires
                        big == (m as u128) * (m as u128),
                        m == 0x8000000000000000u64,
                ;
                assert(m2 == 0x8000000000000000u128);
            }
            assert(m2 >= 0x8000000000000000u128 && m2 < 0x20000000000000000u128)
                by (nonlinear_arith)
                requires
                    m2 == big / 0x8000000000000000u128,
                    0x40000000000000000000000000000000u128 <= big
                        <= 0xffffffffffffffffffffffffffffffffu128,
            ;
        }
        let ghost frac0 = frac as int;
        let ghost mold = m as int;
        if m2 >= 0x10000000000000000 {
            frac = frac * 2 + 1;
            m = (m2 / 2) as u64;
        } else {
            frac = frac * 2;
            m = m2 as u64;
        }
        proof {
            let jr = (24 - j) as nat;
            assert(jr >= 1);
            let p1 = vstd::arithmetic::power2::pow2((jr - 1) as nat);
            assert(vstd::arithmetic::power2::pow2(jr) == 2 * p1);
            assert(spec_frac_bits(mold, jr) == (if m2 >= 0x10000000000000000 {
                p1 + spec_frac_bits(m2 as int / 2, (jr - 1) as nat)
            } else {
                spec_frac_bits(m2 as int, (jr - 1) as nat)
            }));
            assert(frac0 * (2 * p1) == (2 * frac0) * p1) by (nonlinear_arith);
            assert((2 * frac0 + 1) * p1 == (2 * frac0) * p1 + p1) by (nonlinear_arith);
            assert(spec_frac_bits(m0, 24) == (frac as int) * (p1 as int) + spec_frac_bits(
                m as int,
                (jr - 1) as nat,
            ));
        }
        j = j + 1;
    }
    proof {
        vstd::arithmetic::power2::lemma2_to64();
        assert(vstd::arithmetic::power2::pow2((24 - j) as nat) == 1);
        assert(spec_frac_bits(m as int, (24 - j) as nat) == 0);
        assert(spec_frac_bits(m0, 24) == frac * 1);
        assert(spec_frac_bits(m0, 24) == frac);
        assert(k * LOG2_SCALE + frac == spec_log2_fixed(w));
    }
    k * LOG2_SCALE + frac
}

/// The cached entropy of an uncollapsed cell, from its weight sums:
/// `log2(sum_w) - sum_wlw / sum_w` in fixed point, clamped at zero.
pub fn entropy_from(sum_weights: u64, sum_weights_log_weights: u64) -> (r: u64)
    requires
        1 <= sum_weights < 0x100000000,
    ensures
        r == spec_entropy_from(sum_weights, sum_weights_log_weights),
        r < 32 * LOG2_SCALE,
{
    let l = log2_fixed(sum_weights);
    let q = sum_weights_log_weights / sum_weights;
    if l >= q {
        l - q
    } else {
        0
    }
}

} // verus!
