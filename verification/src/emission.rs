use vstd::prelude::*;

use vstd::arithmetic::div_mod::{
    lemma_div_denominator, lemma_div_is_ordered, lemma_div_multiples_vanish,
    lemma_div_nonincreasing, lemma_div_pos_is_pos, lemma_fundamental_div_mod,
    lemma_mod_division_less_than_divisor, lemma_multiply_divide_lt,
};
use vstd::arithmetic::mul::{
    lemma_mul_inequality, lemma_mul_is_commutative, lemma_mul_nonnegative,
    lemma_mul_strictly_positive, lemma_mul_upper_bound,
};
use vstd::arithmetic::power2::{
    lemma2_to64, lemma2_to64_rest, lemma_pow2_pos, lemma_pow2_strictly_increases,
    lemma_pow2_unfold, pow2,
};

use crate::errors::LedgerError;

verus! {

/// Fixed decimal scaling of every token quantity: one whole unit of locked
/// liquidity or reward is this many scaled units.
pub const DECIMAL_FACTOR: u64 = 1_000_000_000;

/// Base coefficient of the emission curve: one whole locked unit earns this
/// many whole reward units before any bonus.
pub const BASE_COEFFICIENT: u64 = 10;

/// Bonus weight already multiplied by the base coefficient: the curve is
/// `base * locked * (1 + 0.2 * log10(locked))`, and `base * 0.2 == 2`.
pub const BONUS_PER_LOG10: u64 = 2;

/// One in the Q32 fixed-point format used for the logarithm: 2^32.
pub const FIXED_ONE: u128 = 0x1_0000_0000;

/// `FIXED_ONE` squared: the divisor of the quadratic mantissa correction.
pub const FIXED_SQUARE: u128 = 0x1_0000_0000_0000_0000;

/// `log10(2)` in Q32 fixed point, rounded down.
pub const LOG10_TWO_Q32: u128 = 1_292_913_986;

/// Coefficient of the quadratic correction `x + C * x * (1 - x)` that
/// approximates `log2(1 + x)` on `[0, 1)`, in Q32 fixed point: about
/// 0.34662, placed to minimize the largest error of the approximation.
pub const LOG_CURVE_Q32: u128 = 1_488_706_709;

/// The binary exponent of `a / DECIMAL_FACTOR`: the largest `e` with
/// `DECIMAL_FACTOR * pow2(e) <= a`, for `a >= DECIMAL_FACTOR`.
pub open spec fn spec_exponent(a: int) -> nat
    decreases a,
{
    if a < 2 * DECIMAL_FACTOR {
        0
    } else {
        1 + spec_exponent(a / 2)
    }
}

/// The binary mantissa of `a / DECIMAL_FACTOR` in Q32 fixed point: a value
/// in `[FIXED_ONE, 2 * FIXED_ONE)` for `a >= DECIMAL_FACTOR`.
pub open spec fn spec_mantissa_q(a: int) -> int {
    (a * FIXED_ONE) / (DECIMAL_FACTOR * pow2(spec_exponent(a)))
}

/// The fractional part of the binary logarithm in Q32 fixed point: with
/// `x` the mantissa fraction in `[0, 1)`, the standard quadratic
/// approximation `x + C * x * (1 - x)` of `log2(1 + x)`, evaluated over a
/// common denominator and truncated once.
pub open spec fn spec_frac_q(a: int) -> int {
    let f = spec_mantissa_q(a) - FIXED_ONE;
    (f * FIXED_SQUARE + LOG_CURVE_Q32 * f * (FIXED_ONE - f)) / (FIXED_SQUARE as int)
}

/// `log2(a / DECIMAL_FACTOR)` in Q32 fixed point: the binary exponent plus
/// the corrected mantissa fraction.
pub open spec fn spec_log2_q(a: int) -> int {
    spec_exponent(a) * FIXED_ONE + spec_frac_q(a)
}

/// `log10(a / DECIMAL_FACTOR)` in Q32 fixed point: the binary logarithm
/// rescaled by `log10(2)`.
pub open spec fn spec_log10_q(a: int) -> int {
    (spec_log2_q(a) * LOG10_TWO_Q32) / (FIXED_ONE as int)
}

/// The cumulative reward emission for a locked-liquidity amount `a` (both in
/// scaled units): `base * a` below one whole unit, and above it
/// `base * a * (1 + 0.2 * log10(a / DECIMAL_FACTOR))` evaluated in fixed
/// point, truncated toward zero.
pub open spec fn spec_cumulative_emission(a: int) -> int {
    if a < DECIMAL_FACTOR {
        BASE_COEFFICIENT * a
    } else {
        BASE_COEFFICIENT * a + (BONUS_PER_LOG10 * a * spec_log10_q(a)) / (FIXED_ONE as int)
    }
}

/// The incremental reward for a position change from `prev_amount` to
/// `new_amount` locked units.
pub open spec fn spec_emission_delta(new_amount: int, prev_amount: int) -> int {
    spec_cumulative_emission(new_amount) - spec_cumulative_emission(prev_amount)
}

proof fn lemma_exponent_bounds(a: int)
    requires
        a >= DECIMAL_FACTOR,
    ensures
        DECIMAL_FACTOR * pow2(spec_exponent(a)) <= a,
        a < DECIMAL_FACTOR * pow2(spec_exponent(a) + 1),
    decreases a,
{
    lemma2_to64();
    if a < 2 * DECIMAL_FACTOR {
        assert(spec_exponent(a) == 0);
        assert(pow2(0) == 1 && pow2(1) == 2);
    } else {
        let h = a / 2;
        assert(h >= DECIMAL_FACTOR) by {
            lemma_div_multiples_vanish(DECIMAL_FACTOR as int, 2);
            lemma_div_is_ordered(2 * DECIMAL_FACTOR, a, 2);
        }
        lemma_exponent_bounds(h);
        let e1 = spec_exponent(h);
        assert(spec_exponent(a) == e1 + 1);
        lemma_fundamental_div_mod(a, 2);
        lemma_pow2_unfold(e1 + 1);
        lemma_pow2_unfold(e1 + 2);
        assert(DECIMAL_FACTOR * pow2(e1 + 1) == 2 * (DECIMAL_FACTOR * pow2(e1)))
            by (nonlinear_arith)
            requires
                pow2(e1 + 1) == 2 * pow2(e1),
        ;
        assert(DECIMAL_FACTOR * pow2(e1 + 2) == 2 * (DECIMAL_FACTOR * pow2(e1 + 1)))
            by (nonlinear_arith)
            requires
                pow2(e1 + 2) == 2 * pow2(e1 + 1),
        ;
    }
}

proof fn lemma_exponent_in_range(a: int, e: nat)
    requires
        a >= DECIMAL_FACTOR,
        DECIMAL_FACTOR * pow2(e) <= a,
        a < DECIMAL_FACTOR * pow2(e + 1),
    ensures
        spec_exponent(a) == e,
{
    let ea = spec_exponent(a);
    lemma_exponent_bounds(a);
    if ea < e {
        assert(pow2(ea + 1) <= pow2(e)) by {
            if ea + 1 < e {
                lemma_pow2_strictly_increases(ea + 1, e);
            }
        }
        assert(DECIMAL_FACTOR * pow2(ea + 1) <= DECIMAL_FACTOR * pow2(e));
        assert(false);
    } else if ea > e {
        assert(pow2(e + 1) <= pow2(ea)) by {
            if e + 1 < ea {
                lemma_pow2_strictly_increases(e + 1, ea);
            }
        }
        assert(DECIMAL_FACTOR * pow2(e + 1) <= DECIMAL_FACTOR * pow2(ea));
        assert(false);
    }
}

proof fn lemma_exponent_monotone(a1: int, a2: int)
    requires
        DECIMAL_FACTOR <= a1 <= a2,
    ensures
        spec_exponent(a1) <= spec_exponent(a2),
{
    let e1 = spec_exponent(a1);
    let e2 = spec_exponent(a2);
    lemma_exponent_bounds(a1);
    lemma_exponent_bounds(a2);
    if e1 > e2 {
        assert(pow2(e2 + 1) <= pow2(e1)) by {
            if e2 + 1 < e1 {
                lemma_pow2_strictly_increases(e2 + 1, e1);
            }
        }
        assert(DECIMAL_FACTOR * pow2(e2 + 1) <= DECIMAL_FACTOR * pow2(e1));
        assert(false);
    }
}

proof fn lemma_exponent_at_most_34(a: int)
    requires
        DECIMAL_FACTOR <= a <= u64::MAX,
    ensures
        spec_exponent(a) <= 34,
{
    let e = spec_exponent(a);
    lemma_exponent_bounds(a);
    if e > 34 {
        lemma2_to64_rest();
        assert(pow2(35) <= pow2(e)) by {
            if 35 < e {
                lemma_pow2_strictly_increases(35, e);
            }
        }
        assert(DECIMAL_FACTOR * pow2(35) <= DECIMAL_FACTOR * pow2(e));
        assert(false);
    }
}

proof fn lemma_mantissa_bounds(a: int)
    requires
        a >= DECIMAL_FACTOR,
    ensures
        FIXED_ONE <= spec_mantissa_q(a) < 2 * FIXED_ONE,
{
    let e = spec_exponent(a);
    let d = DECIMAL_FACTOR * pow2(e);
    lemma_exponent_bounds(a);
    lemma_pow2_pos(e);
    lemma_mul_strictly_positive(DECIMAL_FACTOR as int, pow2(e) as int);
    assert(a * FIXED_ONE >= d * FIXED_ONE) by {
        lemma_mul_inequality(d, a, FIXED_ONE as int);
    }
    assert((d * (FIXED_ONE as int)) / d == FIXED_ONE) by {
        lemma_div_multiples_vanish(FIXED_ONE as int, d);
    }
    lemma_div_is_ordered(d * FIXED_ONE, a * FIXED_ONE, d);
    lemma_pow2_unfold(e + 1);
    assert(DECIMAL_FACTOR * pow2(e + 1) == 2 * d) by (nonlinear_arith)
        requires
            pow2(e + 1) == 2 * pow2(e),
            d == DECIMAL_FACTOR * pow2(e),
    ;
    assert(a * FIXED_ONE < (2 * d) * FIXED_ONE) by {
        lemma_mul_inequality(a, 2 * d - 1, FIXED_ONE as int);
    }
    assert(a * FIXED_ONE < d * (2 * FIXED_ONE)) by (nonlinear_arith)
        requires
            a * FIXED_ONE < (2 * d) * FIXED_ONE,
    ;
    lemma_multiply_divide_lt(a * FIXED_ONE, d, 2 * FIXED_ONE);
}

proof fn lemma_frac_numerator_ordered(f1: int, f2: int)
    requires
        0 <= f1 <= f2 < FIXED_ONE,
    ensures
        f1 * FIXED_SQUARE + LOG_CURVE_Q32 * f1 * (FIXED_ONE - f1) <= f2 * FIXED_SQUARE
            + LOG_CURVE_Q32 * f2 * (FIXED_ONE - f2),
{
    assert(f1 * FIXED_SQUARE + LOG_CURVE_Q32 * f1 * (FIXED_ONE - f1) <= f2 * FIXED_SQUARE
        + LOG_CURVE_Q32 * f2 * (FIXED_ONE - f2)) by (nonlinear_arith)
        requires
            0 <= f1 <= f2 < FIXED_ONE,
            0 < LOG_CURVE_Q32 < FIXED_ONE,
            FIXED_SQUARE == FIXED_ONE * FIXED_ONE,
    ;
}

proof fn lemma_frac_bounds(a: int)
    requires
        a >= DECIMAL_FACTOR,
    ensures
        0 <= spec_frac_q(a) < FIXED_ONE,
{
    lemma_mantissa_bounds(a);
    let f = spec_mantissa_q(a) - FIXED_ONE;
    let numerator = f * FIXED_SQUARE + LOG_CURVE_Q32 * f * (FIXED_ONE - f);
    assert(f * FIXED_SQUARE + LOG_CURVE_Q32 * f * (FIXED_ONE - f) >= 0) by (nonlinear_arith)
        requires
            0 <= f < FIXED_ONE,
            0 < LOG_CURVE_Q32,
            FIXED_SQUARE > 0,
    ;
    lemma_div_pos_is_pos(numerator, FIXED_SQUARE as int);
    lemma_frac_numerator_ordered(f, FIXED_ONE - 1);
    assert(numerator < (FIXED_SQUARE as int) * (FIXED_ONE as int));
    lemma_multiply_divide_lt(numerator, FIXED_SQUARE as int, FIXED_ONE as int);
}

proof fn lemma_log2_bounds(a: int)
    requires
        DECIMAL_FACTOR <= a <= u64::MAX,
    ensures
        0 <= spec_log2_q(a),
        spec_log2_q(a) < 35 * FIXED_ONE,
{
    lemma_exponent_at_most_34(a);
    lemma_frac_bounds(a);
}

proof fn lemma_log2_monotone(a1: int, a2: int)
    requires
        DECIMAL_FACTOR <= a1 <= a2,
    ensures
        spec_log2_q(a1) <= spec_log2_q(a2),
{
    let e1 = spec_exponent(a1);
    let e2 = spec_exponent(a2);
    lemma_exponent_monotone(a1, a2);
    lemma_mantissa_bounds(a1);
    lemma_mantissa_bounds(a2);
    lemma_frac_bounds(a1);
    lemma_frac_bounds(a2);
    if e1 == e2 {
        let d = DECIMAL_FACTOR * pow2(e1);
        lemma_pow2_pos(e1);
        lemma_mul_strictly_positive(DECIMAL_FACTOR as int, pow2(e1) as int);
        assert(a1 * FIXED_ONE <= a2 * FIXED_ONE) by {
            lemma_mul_inequality(a1, a2, FIXED_ONE as int);
        }
        lemma_div_is_ordered(a1 * FIXED_ONE, a2 * FIXED_ONE, d);
        let f1 = spec_mantissa_q(a1) - FIXED_ONE;
        let f2 = spec_mantissa_q(a2) - FIXED_ONE;
        lemma_frac_numerator_ordered(f1, f2);
        lemma_div_is_ordered(
            f1 * FIXED_SQUARE + LOG_CURVE_Q32 * f1 * (FIXED_ONE - f1),
            f2 * FIXED_SQUARE + LOG_CURVE_Q32 * f2 * (FIXED_ONE - f2),
            FIXED_SQUARE as int,
        );
    }
}

/// The fixed-point logarithm is non-negative at and above one whole unit.
proof fn lemma_log10_nonneg(a: int)
    requires
        a >= DECIMAL_FACTOR,
    ensures
        spec_log10_q(a) >= 0,
{
    lemma_frac_bounds(a);
    assert(spec_log2_q(a) >= 0);
    assert(spec_log2_q(a) * LOG10_TWO_Q32 >= 0) by (nonlinear_arith)
        requires
            spec_log2_q(a) >= 0,
    ;
    lemma_div_pos_is_pos(spec_log2_q(a) * LOG10_TWO_Q32, FIXED_ONE as int);
}

proof fn lemma_log10_bounds(a: int)
    requires
        DECIMAL_FACTOR <= a <= u64::MAX,
    ensures
        0 <= spec_log10_q(a),
        spec_log10_q(a) <= 35 * LOG10_TWO_Q32,
{
    lemma_log10_nonneg(a);
    lemma_log2_bounds(a);
    assert(spec_log2_q(a) * LOG10_TWO_Q32 <= (35 * FIXED_ONE) * LOG10_TWO_Q32) by {
        lemma_mul_inequality(spec_log2_q(a), 35 * FIXED_ONE, LOG10_TWO_Q32 as int);
    }
    assert((35 * FIXED_ONE) * LOG10_TWO_Q32 == (FIXED_ONE as int) * (35 * LOG10_TWO_Q32))
        by (nonlinear_arith);
    lemma_div_is_ordered(
        spec_log2_q(a) * LOG10_TWO_Q32,
        (FIXED_ONE as int) * (35 * LOG10_TWO_Q32),
        FIXED_ONE as int,
    );
    lemma_div_multiples_vanish(35 * LOG10_TWO_Q32, FIXED_ONE as int);
}

proof fn lemma_log10_monotone(a1: int, a2: int)
    requires
        DECIMAL_FACTOR <= a1 <= a2,
    ensures
        spec_log10_q(a1) <= spec_log10_q(a2),
{
    lemma_log2_monotone(a1, a2);
    assert(spec_log2_q(a1) * LOG10_TWO_Q32 <= spec_log2_q(a2) * LOG10_TWO_Q32) by {
        lemma_mul_inequality(spec_log2_q(a1), spec_log2_q(a2), LOG10_TWO_Q32 as int);
    }
    lemma_div_is_ordered(
        spec_log2_q(a1) * LOG10_TWO_Q32,
        spec_log2_q(a2) * LOG10_TWO_Q32,
        FIXED_ONE as int,
    );
}

/// The cumulative emission is a monotonically non-decreasing function of the
/// locked amount: for any `a2 >= a1 >= 0`, it emits at least as much at `a2`
/// as at `a1`.
pub proof fn lemma_cumulative_emission_monotone(a1: int, a2: int)
    requires
        0 <= a1 <= a2,
    ensures
        spec_cumulative_emission(a1) <= spec_cumulative_emission(a2),
{
    if a2 < DECIMAL_FACTOR {
        // both sides are linear
    } else if a1 < DECIMAL_FACTOR {
        lemma_log10_nonneg(a2);
        assert(BONUS_PER_LOG10 * a2 * spec_log10_q(a2) >= 0) by (nonlinear_arith)
            requires
                a2 >= 0,
                spec_log10_q(a2) >= 0,
        ;
        lemma_div_pos_is_pos(BONUS_PER_LOG10 * a2 * spec_log10_q(a2), FIXED_ONE as int);
    } else {
        lemma_log10_nonneg(a1);
        lemma_log10_monotone(a1, a2);
        assert(BONUS_PER_LOG10 * a1 * spec_log10_q(a1) <= BONUS_PER_LOG10 * a2 * spec_log10_q(a2))
            by (nonlinear_arith)
            requires
                0 <= a1 <= a2,
                0 <= spec_log10_q(a1) <= spec_log10_q(a2),
        ;
        lemma_div_is_ordered(
            BONUS_PER_LOG10 * a1 * spec_log10_q(a1),
            BONUS_PER_LOG10 * a2 * spec_log10_q(a2),
            FIXED_ONE as int,
        );
    }
}

/// Computes `spec_log2_q` of the scaled amount: the binary exponent in the
/// high bits and the corrected mantissa fraction in the low 32 bits.
fn log2_fixed(a: u64) -> (r: u128)
    requires
        a >= DECIMAL_FACTOR,
    ensures
        r == spec_log2_q(a as int),
{
    let mut x: u64 = a;
    let mut e: u64 = 0;
    let mut p: u64 = 1;
    proof {
        lemma2_to64();
    }
    while x >= 2 * DECIMAL_FACTOR
        invariant
            DECIMAL_FACTOR <= a,
            e <= 34,
            p == pow2(e as nat),
            x == a as int / p as int,
            DECIMAL_FACTOR <= x,
            p * DECIMAL_FACTOR <= a,
        decreases x,
    {
        proof {
            lemma_pow2_pos(e as nat);
            // the halved cursor is still the quotient of `a` by the doubled power
            lemma_div_denominator(a as int, p as int, 2);
            // it stays at or above one whole unit
            lemma_div_multiples_vanish(DECIMAL_FACTOR as int, 2);
            lemma_div_is_ordered(2 * DECIMAL_FACTOR, x as int, 2);
            lemma_pow2_unfold(e as nat + 1);
            // the doubled power still scales into `a`
            lemma_fundamental_div_mod(a as int, p as int);
            assert((2 * p) * DECIMAL_FACTOR <= a) by (nonlinear_arith)
                requires
                    a as int >= p as int * (x as int),
                    x >= 2 * DECIMAL_FACTOR,
                    p > 0,
            ;
            // the doubled power still fits: 2^35 whole units would overflow u64
            lemma2_to64_rest();
            assert(e + 1 <= 34) by {
                if e + 1 > 34 {
                    assert(pow2(35) <= pow2(e as nat + 1)) by {
                        if 35 < e as nat + 1 {
                            lemma_pow2_strictly_increases(35, e as nat + 1);
                        }
                    }
                    assert(false);
                }
            }
            // halving strictly shrinks the cursor
            lemma_div_is_ordered(x as int, 2 * x as int, 2);
            lemma_div_multiples_vanish(x as int, 2);
        }
        x = x / 2;
        e = e + 1;
        p = p * 2;
    }
    proof {
        // the exit bounds pin the exponent
        lemma_pow2_pos(e as nat);
        lemma_fundamental_div_mod(a as int, p as int);
        assert(p * DECIMAL_FACTOR <= a);
        assert(a < DECIMAL_FACTOR * pow2(e as nat + 1)) by {
            assert(a as int == p as int * (x as int) + a as int % (p as int));
            assert(a as int % (p as int) < p) by {
                lemma_fundamental_div_mod(a as int, p as int);
                lemma_mod_division_less_than_divisor(a as int, p as int);
            }
            assert(p as int * (x as int) <= p as int * (2 * DECIMAL_FACTOR - 1))
                by (nonlinear_arith)
                requires
                    x <= 2 * DECIMAL_FACTOR - 1,
                    p > 0,
            ;
            lemma_pow2_unfold(e as nat + 1);
            assert(DECIMAL_FACTOR * pow2(e as nat + 1) == 2 * (p as int * DECIMAL_FACTOR))
                by (nonlinear_arith)
                requires
                    pow2(e as nat + 1) == 2 * pow2(e as nat),
                    p == pow2(e as nat),
            ;
        }
        assert(DECIMAL_FACTOR * pow2(e as nat) == p * DECIMAL_FACTOR) by (nonlinear_arith)
            requires
                p == pow2(e as nat),
        ;
        lemma_exponent_in_range(a as int, e as nat);
        lemma_exponent_at_most_34(a as int);
        lemma_mantissa_bounds(a as int);
        lemma2_to64_rest();
        assert(p < 0x8_0000_0000) by {
            if e >= 35 {
                assert(pow2(35) <= pow2(e as nat)) by {
                    if 35 < e as nat {
                        lemma_pow2_strictly_increases(35, e as nat);
                    }
                }
            }
        }
    }
    let num: u128 = (a as u128) * FIXED_ONE;
    let den: u128 = (DECIMAL_FACTOR as u128) * (p as u128);
    proof {
        assert(den == DECIMAL_FACTOR * pow2(spec_exponent(a as int))) by (nonlinear_arith)
            requires
                p == pow2(spec_exponent(a as int)),
                den == (DECIMAL_FACTOR as u128) * (p as u128),
        ;
    }
    let m: u128 = num / den;
    proof {
        lemma_frac_bounds(a as int);
        let f = spec_mantissa_q(a as int) - FIXED_ONE;
        lemma_mul_upper_bound(
            LOG_CURVE_Q32 * f,
            LOG_CURVE_Q32 * (FIXED_ONE - 1),
            FIXED_ONE - f,
            FIXED_ONE as int,
        );
        assert(LOG_CURVE_Q32 * f <= LOG_CURVE_Q32 * (FIXED_ONE - 1)) by {
            lemma_mul_inequality(f, FIXED_ONE - 1, LOG_CURVE_Q32 as int);
            lemma_mul_is_commutative(f, LOG_CURVE_Q32 as int);
            lemma_mul_is_commutative(FIXED_ONE - 1, LOG_CURVE_Q32 as int);
        }
        assert(LOG_CURVE_Q32 * f >= 0) by {
            lemma_mul_nonnegative(LOG_CURVE_Q32 as int, f);
        }
    }
    let f: u128 = m - FIXED_ONE;
    let numerator: u128 = f * FIXED_SQUARE + LOG_CURVE_Q32 * f * (FIXED_ONE - f);
    let frac: u128 = numerator / FIXED_SQUARE;
    (e as u128) * FIXED_ONE + frac
}

/// Computes the cumulative reward emission for a locked-liquidity amount, in
/// scaled units, as a pure, deterministic, input-to-output mapping: the same
/// input yields the same output on every platform, with no floating point
/// involved.
pub fn cumulative_emission(locked_amount: u64) -> (r: u128)
    ensures
        r == spec_cumulative_emission(locked_amount as int),
{
    if locked_amount < DECIMAL_FACTOR {
        (BASE_COEFFICIENT as u128) * (locked_amount as u128)
    } else {
        let log2q = log2_fixed(locked_amount);
        proof {
            lemma_log2_bounds(locked_amount as int);
            lemma_log10_bounds(locked_amount as int);
        }
        let log10q = (log2q * LOG10_TWO_Q32) / FIXED_ONE;
        proof {
            lemma_mul_upper_bound(
                BONUS_PER_LOG10 * (locked_amount as int),
                BONUS_PER_LOG10 * (u64::MAX as int),
                log10q as int,
                35 * LOG10_TWO_Q32,
            );
            let bonus_product = BONUS_PER_LOG10 * (locked_amount as int) * (log10q as int);
            lemma_div_pos_is_pos(bonus_product, FIXED_ONE as int);
            lemma_div_nonincreasing(bonus_product, FIXED_ONE as int);
            assert((BASE_COEFFICIENT as u128) * (locked_amount as u128) <= BASE_COEFFICIENT * (
            u64::MAX as int)) by (nonlinear_arith)
                requires
                    locked_amount <= u64::MAX,
            ;
        }
        (BASE_COEFFICIENT as u128) * (locked_amount as u128)
            + ((BONUS_PER_LOG10 as u128) * (locked_amount as u128) * log10q) / FIXED_ONE
    }
}

/// Derives the incremental reward for a position change from `prev_amount`
/// to `new_amount` locked units.
///
/// A decreasing locked amount is not a supported input: it fails with
/// `InvalidState` rather than silently returning a negative delta that could
/// be cast to an enormous unsigned value. A delta beyond the 64-bit counter
/// range fails with `MathOverflow`.
pub fn compute_delta(new_amount: u64, prev_amount: u64) -> (r: Result<u64, LedgerError>)
    ensures
        r is Ok <==> new_amount >= prev_amount
            && spec_emission_delta(new_amount as int, prev_amount as int) <= u64::MAX,
        r matches Ok(delta) ==> delta
            == spec_emission_delta(new_amount as int, prev_amount as int),
        r == Err::<u64, LedgerError>(LedgerError::InvalidState) <==> new_amount < prev_amount,
        r == Err::<u64, LedgerError>(LedgerError::MathOverflow) <==> new_amount >= prev_amount
            && spec_emission_delta(new_amount as int, prev_amount as int) > u64::MAX,
{
    if new_amount < prev_amount {
        return Err(LedgerError::InvalidState);
    }
    let cumulative_new = cumulative_emission(new_amount);
    let cumulative_prev = cumulative_emission(prev_amount);
    proof {
        lemma_cumulative_emission_monotone(prev_amount as int, new_amount as int);
    }
    let delta = cumulative_new - cumulative_prev;
    if delta > u64::MAX as u128 {
        Err(LedgerError::MathOverflow)
    } else {
        Ok(delta as u64)
    }
}

} // verus!
