//! Derivation of the filter's structural parameters: the bit-array length `m`
//! and the hash-function count `k`, from the expected element count `n` and
//! the target false-positive rate `f`.
//!
//! The rate is carried as an exact fraction and the classic formulas
//! `m = n * ln(1/f) / (ln 2)^2` and `k = m * ln 2 / n` are evaluated in
//! 32-bit fixed-point integer arithmetic: `log2(1/f)` is extracted bit by bit
//! by repeated squaring, and the identity `ln(1/f) / (ln 2)^2 = log2(1/f) / ln 2`
//! removes one constant. Both results truncate toward zero and are clamped to
//! at least one, so a constructed filter always has at least one bit and one
//! hash function.

use vstd::prelude::*;
use vstd::arithmetic::power2::{
    pow2, lemma_pow2_unfold, lemma_pow2_strictly_increases, lemma2_to64, lemma2_to64_rest,
};
use vstd::arithmetic::div_mod::{lemma_fundamental_div_mod, lemma_mod_bound};
use vstd::arithmetic::mul::lemma_mul_upper_bound;

verus! {

/// A false-positive rate, given as the exact fraction `num / den`.
#[derive(Clone, Copy, PartialEq, Eq, Structural, Debug)]
pub struct Rate {
    pub num: u64,
    pub den: u64,
}

impl Rate {
    /// The fraction lies strictly between zero and one.
    pub open spec fn valid(self) -> bool {
        0 < self.num < self.den
    }

    /// Whether the fraction is a usable false-positive rate.
    pub fn is_valid(&self) -> (r: bool)
        ensures
            r == self.valid(),
    {
        0 < self.num && self.num < self.den
    }
}

/// `ln 2` in 32-bit fixed point: the nearest integer to `2^32 * ln 2`.
pub const LN2_Q32: u64 = 2977044472;

/// Number of doublings that take `scaled` up to, but not past, `den`:
/// the integer part of `log2(den / scaled)`.
pub open spec fn exp_search(scaled: int, den: int) -> nat
    decreases den - scaled when 1 <= scaled
{
    if 1 <= scaled && 2 * scaled <= den {
        (1 + exp_search(2 * scaled, den)) as nat
    } else {
        0
    }
}

/// One squaring step on a Q63 fixed-point mantissa.
pub open spec fn sq_shift(y: int) -> int {
    (y * y) / 0x8000000000000000
}

/// The mantissa after one bit-extraction step.
pub open spec fn y_step(y: int) -> int {
    if sq_shift(y) >= 0x10000000000000000 {
        sq_shift(y) / 2
    } else {
        sq_shift(y)
    }
}

/// The fraction bit produced by one extraction step.
pub open spec fn bit_step(y: int) -> int {
    if sq_shift(y) >= 0x10000000000000000 {
        1
    } else {
        0
    }
}

/// The mantissa after `i` extraction steps.
pub open spec fn y_iter(y0: int, i: nat) -> int
    decreases i,
{
    if i == 0 {
        y0
    } else {
        y_step(y_iter(y0, (i - 1) as nat))
    }
}

/// The accumulated fraction bits after `i` extraction steps.
pub open spec fn frac_iter(y0: int, i: nat) -> int
    decreases i,
{
    if i == 0 {
        0
    } else {
        2 * frac_iter(y0, (i - 1) as nat) + bit_step(y_iter(y0, (i - 1) as nat))
    }
}

/// `log2(den / num)` in 32-bit fixed point, for `1 <= num < den`:
/// integer part from doubling, 32 fraction bits from repeated squaring.
pub open spec fn spec_log2_q32(num: int, den: int) -> int {
    let e = exp_search(num, den);
    let y0 = (den * 0x8000000000000000) / (num * pow2(e));
    e * 0x100000000 + frac_iter(y0, 32)
}

/// The bit count before clamping: `n * log2(den/num) / ln 2`, truncated.
pub open spec fn spec_raw_m(n: int, num: int, den: int) -> int {
    (n * spec_log2_q32(num, den)) / (LN2_Q32 as int)
}

/// The bit-array length: the raw count saturated at `usize::MAX` and
/// clamped to at least one bit.
pub open spec fn spec_calc_m(n: int, num: int, den: int) -> int {
    let raw = spec_raw_m(n, num, den);
    if raw > usize::MAX as int {
        usize::MAX as int
    } else if raw < 1 {
        1
    } else {
        raw
    }
}

/// The hash-function count: `m * ln 2 / n`, truncated, clamped to at least one.
pub open spec fn spec_calc_k(n: int, m: int) -> int {
    let raw = (m * (LN2_Q32 as int)) / (n * 0x100000000);
    if raw < 1 {
        1
    } else {
        raw
    }
}

/// Quotient bounds from bounds on the dividend.
proof fn lemma_div_bounds(x: int, d: int, lo: int, hi: int)
    requires
        d >= 1,
        x >= 0,
        lo * d <= x,
        x < hi * d,
    ensures
        lo <= x / d < hi,
{
    lemma_fundamental_div_mod(x, d);
    lemma_mod_bound(x, d);
    let q = x / d;
    let r = x % d;
    assert(lo <= q && q < hi) by (nonlinear_arith)
        requires
            d >= 1,
            lo * d <= x,
            x < hi * d,
            x == d * q + r,
            0 <= r < d,
    ;
}

/// Computes the bit-array length for `n` expected elements at rate `f`.
///
/// The result is exactly `spec_calc_m`: `n * log2(1/f) / ln 2` in 32-bit
/// fixed point, truncated, saturated at `usize::MAX`, and at least one.
pub fn calc_m(n: usize, f: Rate) -> (m: usize)
    requires
        n >= 1,
        f.valid(),
    ensures
        m as int == spec_calc_m(n as int, f.num as int, f.den as int),
        m >= 1,
{
    let num = f.num;
    let den = f.den;
    let mut e: u32 = 0;
    let mut scaled: u128 = num as u128;
    proof {
        assert(pow2(0) == 1) by {
            lemma2_to64();
        }
    }
    while scaled * 2 <= den as u128
        invariant
            1 <= num,
            num < den,
            1 <= scaled,
            scaled as int == num as int * pow2(e as nat),
            pow2(e as nat) <= scaled as int,
            scaled <= den as u128,
            e <= 63,
            exp_search(num as int, den as int) == e + exp_search(scaled as int, den as int),
        decreases den as int - scaled as int,
    {
        proof {
            assert(e < 63) by {
                if e >= 63 {
                    assert(pow2(63) == 0x8000000000000000) by {
                        lemma2_to64_rest();
                    }
                    if e > 63 {
                        lemma_pow2_strictly_increases(63, e as nat);
                    }
                    assert(scaled as int >= 0x8000000000000000);
                    assert(false);
                }
            }
            lemma_pow2_unfold((e + 1) as nat);
            assert(num as int * pow2((e + 1) as nat) == 2 * (num as int * pow2(e as nat)))
                by (nonlinear_arith)
                requires
                    pow2((e + 1) as nat) == 2 * pow2(e as nat),
            ;
            assert(exp_search(scaled as int, den as int) == 1 + exp_search(
                2 * (scaled as int),
                den as int,
            ));
        }
        scaled = scaled * 2;
        e = e + 1;
    }
    proof {
        assert(exp_search(scaled as int, den as int) == 0);
    }
    let ghost ge: nat = e as nat;
    let y0: u128 = {
        proof {
            lemma_mul_upper_bound(den as int, 0xffffffffffffffff, 0x8000000000000000, 0x8000000000000000);
        }
        ((den as u128) * 0x8000000000000000u128) / scaled
    };
    proof {
        assert((den as int) * 0x8000000000000000 >= 0x8000000000000000 * (scaled as int)
            && (den as int) * 0x8000000000000000 < 0x10000000000000000 * (scaled as int))
            by (nonlinear_arith)
            requires
                scaled as int <= den as int,
                (den as int) < 2 * (scaled as int),
                scaled as int >= 1,
        ;
        lemma_div_bounds(
            (den as int) * 0x8000000000000000,
            scaled as int,
            0x8000000000000000,
            0x10000000000000000,
        );
    }
    let ghost gy0 = y0 as int;
    let mut y: u128 = y0;
    let mut frac: u64 = 0;
    let mut j: u32 = 0;
    proof {
        assert(pow2(0) == 1 && pow2(32) == 0x100000000) by {
            lemma2_to64();
        }
    }
    while j < 32
        invariant
            y as int == y_iter(gy0, j as nat),
            frac as int == frac_iter(gy0, j as nat),
            0x8000000000000000 <= y < 0x10000000000000000,
            (frac as int) < pow2(j as nat),
            j <= 32,
        decreases 32 - j,
    {
        proof {
            assert(pow2(32) == 0x100000000) by {
                lemma2_to64();
            }
            lemma_pow2_strictly_increases(j as nat, 32);
            lemma_mul_upper_bound(y as int, 0xffffffffffffffff, y as int, 0xffffffffffffffff);
            assert((y as int) * (y as int) >= 0x8000000000000000 * 0x8000000000000000)
                by (nonlinear_arith)
                requires
                    y as int >= 0x8000000000000000,
            ;
            lemma_div_bounds(
                (y as int) * (y as int),
                0x8000000000000000,
                0x8000000000000000,
                0x20000000000000000,
            );
        }
        let y2: u128 = (y * y) / 0x8000000000000000u128;
        if y2 >= 0x10000000000000000u128 {
            frac = frac * 2 + 1;
            y = y2 / 2;
        } else {
            frac = frac * 2;
            y = y2;
        }
        proof {
            lemma_pow2_unfold((j + 1) as nat);
        }
        j = j + 1;
    }
    let l: u64 = (e as u64) * 0x100000000u64 + frac;
    proof {
        assert(l as int == spec_log2_q32(num as int, den as int));
    }
    let m128: u128 = {
        proof {
            lemma_mul_upper_bound(n as int, 0xffffffffffffffff, l as int, 0xffffffffffffffff);
        }
        ((n as u128) * (l as u128)) / (LN2_Q32 as u128)
    };
    proof {
        assert(m128 as int == spec_raw_m(n as int, num as int, den as int));
    }
    let m_sat: usize = if m128 > usize::MAX as u128 {
        usize::MAX
    } else {
        m128 as usize
    };
    if m_sat == 0 {
        1
    } else {
        m_sat
    }
}

/// Computes the hash-function count for `n` expected elements and a bit
/// array of length `m` (the already-materialized integer length).
///
/// The result is exactly `spec_calc_k`: `m * ln 2 / n` in 32-bit fixed
/// point, truncated, and at least one.
pub fn calc_k(n: usize, m: usize) -> (k: usize)
    requires
        n >= 1,
    ensures
        k as int == spec_calc_k(n as int, m as int),
        k >= 1,
{
    let denom: u128 = (n as u128) * 0x100000000u128;
    let k128: u128 = {
        proof {
            lemma_mul_upper_bound(m as int, 0xffffffffffffffff, LN2_Q32 as int, 0xffffffffffffffff);
        }
        ((m as u128) * (LN2_Q32 as u128)) / denom
    };
    proof {
        assert((m as int) * (LN2_Q32 as int) < ((m as int) + 1) * ((n as int) * 0x100000000))
            by (nonlinear_arith)
            requires
                n as int >= 1,
                m as int >= 0,
                LN2_Q32 < 0x100000000,
        ;
        lemma_div_bounds(
            (m as int) * (LN2_Q32 as int),
            (n as int) * 0x100000000,
            0,
            m as int + 1,
        );
    }
    let k_raw: usize = k128 as usize;
    if k_raw == 0 {
        1
    } else {
        k_raw
    }
}

} // verus!
