use vstd::arithmetic::div_mod::lemma_div_is_ordered;
use vstd::arithmetic::div_mod::lemma_div_multiples_vanish;
use vstd::arithmetic::div_mod::lemma_fundamental_div_mod;
use vstd::arithmetic::div_mod::lemma_mod_bound;
use vstd::arithmetic::mul::lemma_mul_inequality;
use vstd::math::abs;
use vstd::prelude::*;

verus! {

/// Effective step of a progression: a step of zero means "no skipping",
/// the same as a step of one.
pub open spec fn eff_step(step: int) -> int {
    if step == 0 {
        1
    } else {
        step
    }
}

/// Number of values in the arithmetic progression that starts at `start`,
/// advances by `step`, and stays strictly below `end`.
pub open spec fn prog_len(start: int, end: int, step: int) -> int
    recommends
        step >= 1,
{
    if start >= end {
        0
    } else {
        (end - start - 1) / step + 1
    }
}

/// The value at position `k` of the progression.
pub open spec fn prog_val(start: int, step: int, k: int) -> int {
    start + k * step
}

/// Every value of the progression lies within the inclusive range
/// `lo ..= hi`.
pub open spec fn prog_fits(start: int, end: int, step: int, lo: int, hi: int) -> bool {
    forall|k: int|
        0 <= k < prog_len(start, end, step) ==> lo <= #[trigger] prog_val(start, step, k) <= hi
}

/// The parity-based size estimate for a progression over the half-open span
/// `start..end`: the span itself when the step is zero, otherwise the
/// quotient of span and step, plus one when span and step have the same
/// parity.
pub open spec fn spec_size_from_range(start: int, end: int, step: int) -> int {
    let span = abs(end - start) as int;
    if step == 0 {
        span
    } else if span % 2 == step % 2 {
        span / step + 1
    } else {
        span / step
    }
}

/// A value of the progression lies strictly below `end` exactly when its
/// position lies strictly below the progression's length.
pub proof fn lemma_prog_index(start: int, end: int, step: int, k: int)
    requires
        step >= 1,
        k >= 0,
    ensures
        prog_val(start, step, k) < end <==> k < prog_len(start, end, step),
{
    if start >= end {
        assert(k * step >= 0) by (nonlinear_arith)
            requires
                k >= 0,
                step >= 1,
        ;
    } else {
        let m = end - start - 1;
        if prog_val(start, step, k) < end {
            // k * step <= m, so k == (k * step) / step <= m / step
            lemma_div_multiples_vanish(k, step);
            lemma_div_is_ordered(step * k, m, step);
            assert(step * k == k * step);
        }
        if k < prog_len(start, end, step) {
            // k <= m / step, so k * step <= (m / step) * step <= m
            lemma_mul_inequality(k, m / step, step);
            lemma_fundamental_div_mod(m, step);
            lemma_mod_bound(m, step);
            assert((m / step) * step == step * (m / step));
        }
    }
}

} // verus!
