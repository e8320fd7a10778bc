//! Percentage arithmetic: withdrawal shares, loan fees, lender rewards and
//! reward rates, each exactly as the fixed-point operations compute it.

use crate::decimal::{div_spec, mul_spec, HUNDRED, ONE};
use vstd::arithmetic::div_mod::{
    lemma_div_denominator, lemma_div_is_ordered, lemma_div_multiples_vanish,
    lemma_fundamental_div_mod, lemma_hoist_over_denominator,
};
use vstd::prelude::*;

verus! {

/// `pct` percent of `amount`: `amount * pct / 100`.
pub open spec fn percent_of(amount: int, pct: int) -> int {
    div_spec(mul_spec(amount, pct), HUNDRED as int)
}

/// What a borrower owes on `principal` at fee `fee`:
/// `principal * (100 + fee) / 100`.
pub open spec fn repayment_due(principal: int, fee: int) -> int {
    percent_of(principal, HUNDRED + fee)
}

/// Dividing by a hundred whole units drops the scale as integer division by
/// one hundred would.
pub proof fn lemma_div_hundred(x: int)
    requires
        x >= 0,
    ensures
        div_spec(x, HUNDRED as int) == x / 100,
{
    lemma_div_denominator(x * ONE, ONE as int, 100);
    assert(x * ONE == ONE * x) by (nonlinear_arith);
    lemma_div_multiples_vanish(x, ONE as int);
}

/// A percentage of at most a hundred takes no more than the whole, and
/// exactly a hundred takes the whole.
pub proof fn lemma_percent_bounds(amount: int, pct: int)
    requires
        amount >= 0,
        0 <= pct <= HUNDRED,
    ensures
        0 <= percent_of(amount, pct) <= amount,
        mul_spec(amount, pct) <= 100 * amount,
        pct == HUNDRED ==> percent_of(amount, pct) == amount,
{
    assert(0 <= amount * pct <= amount * HUNDRED) by (nonlinear_arith)
        requires
            amount >= 0,
            0 <= pct <= HUNDRED,
    ;
    assert(amount * HUNDRED == ONE * (100 * amount)) by (nonlinear_arith);
    lemma_div_multiples_vanish(100 * amount, ONE as int);
    lemma_div_is_ordered(amount * pct, amount * HUNDRED, ONE as int);
    lemma_div_is_ordered(0, amount * pct, ONE as int);
    let m = mul_spec(amount, pct);
    lemma_div_hundred(m);
    lemma_div_is_ordered(m, 100 * amount, 100);
    lemma_div_is_ordered(0, m, 100);
    assert((100 * amount) / 100 == amount) by {
        assert(100 * amount == 100int * amount);
        lemma_div_multiples_vanish(amount, 100);
    }
}

/// The repayment due covers the principal plus the lenders' reward whenever
/// the reward rate does not exceed the fee.
pub proof fn lemma_due_covers_reward(principal: int, fee: int, reward: int)
    requires
        principal >= 0,
        0 <= reward <= fee,
    ensures
        repayment_due(principal, fee) >= principal + percent_of(principal, reward),
        percent_of(principal, reward) >= 0,
        mul_spec(principal, reward) <= mul_spec(principal, HUNDRED + fee),
{
    let f = principal * fee / ONE as int;
    let r = principal * reward / ONE as int;
    assert(principal * reward <= principal * fee) by (nonlinear_arith)
        requires
            principal >= 0,
            reward <= fee,
    ;
    assert(0 <= principal * reward) by (nonlinear_arith)
        requires
            principal >= 0,
            reward >= 0,
    ;
    lemma_div_is_ordered(principal * reward, principal * fee, ONE as int);
    lemma_div_is_ordered(0, principal * reward, ONE as int);
    assert(principal * (HUNDRED + fee) == principal * fee + (100 * principal) * ONE)
        by (nonlinear_arith);
    lemma_hoist_over_denominator(principal * fee, 100 * principal, ONE as nat);
    assert(mul_spec(principal, HUNDRED + fee) == 100 * principal + f);
    lemma_div_hundred(100 * principal + f);
    lemma_div_hundred(r);
    assert(100 * principal + f == f + principal * 100);
    lemma_hoist_over_denominator(f, principal, 100);
    lemma_div_is_ordered(r, f, 100);
    lemma_div_is_ordered(0, r, 100);
}

/// Scaling an amount of at most `total` by one plus `pending / total` adds
/// at most `pending`.
pub proof fn lemma_scaled_bound(c: int, total: int, pending: int)
    requires
        0 <= c <= total,
        total > 0,
        pending >= 0,
    ensures
        c <= mul_spec(c, ONE + div_spec(pending, total)) <= c + pending,
        mul_spec(c, ONE + div_spec(pending, total)) * ONE <= c * (ONE + div_spec(
            pending,
            total,
        )),
        0 <= div_spec(pending, total),
        total * div_spec(pending, total) <= pending * ONE,
{
    let rate = div_spec(pending, total);
    lemma_fundamental_div_mod(pending * ONE, total);
    assert(0 <= (pending * ONE) % total < total);
    assert(pending * ONE >= 0) by (nonlinear_arith)
        requires
            pending >= 0,
    ;
    lemma_div_is_ordered(0, pending * ONE, total);
    assert(total * rate <= pending * ONE);
    assert(c * rate <= total * rate) by (nonlinear_arith)
        requires
            0 <= c <= total,
            rate >= 0,
    ;
    assert(c * (ONE + rate) == c * rate + c * ONE) by (nonlinear_arith);
    lemma_hoist_over_denominator(c * rate, c, ONE as nat);
    assert(c * rate >= 0) by (nonlinear_arith)
        requires
            c >= 0,
            rate >= 0,
    ;
    lemma_div_is_ordered(c * rate, pending * ONE, ONE as int);
    lemma_div_is_ordered(0, c * rate, ONE as int);
    assert(pending * ONE == ONE * pending) by (nonlinear_arith);
    lemma_div_multiples_vanish(pending, ONE as int);
    let x = c * (ONE + rate);
    lemma_fundamental_div_mod(x, ONE as int);
}

} // verus!
