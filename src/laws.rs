//! Properties of the pool that relate several operations.

use crate::decimal::{Amount, HUNDRED};
use crate::fees::{lemma_due_covers_reward, lemma_percent_bounds, percent_of, repayment_due};
use crate::flash_loan::{reduced_by, share_total, FlashLoan, PoolState};
use crate::obligation::loan_amount;
use crate::registry::{claim_total, image_total, is_live, slot_amount, valid_ids, LenderData};
use vstd::prelude::*;

verus! {

/// A position withdrawn right after it was deposited pays out exactly what
/// was deposited: the new position's id is valid on its own, and the claims
/// it names add up to its amount.
pub proof fn law_withdraw_after_deposit(s: Seq<Option<LenderData>>, d: LenderData)
    requires
        s.len() + 1 <= u64::MAX,
    ensures
        valid_ids(s.push(Some(d)), seq![(s.len() + 1) as u64]),
        claim_total(s.push(Some(d)), seq![(s.len() + 1) as u64]) == d.current_amount@,
{
    let t = s.push(Some(d));
    let ids = seq![(s.len() + 1) as u64];
    assert(is_live(t, ids[0]));
    assert(ids.drop_last() =~= Seq::<u64>::empty());
    assert(claim_total(t, ids.drop_last()) == 0);
    assert(t[ids.last() - 1] == Some(d));
}

/// Withdrawing one hundred percent pays out what a full withdrawal pays and
/// leaves the positions with nothing.
pub proof fn law_full_partial_withdraw(s: Seq<Option<LenderData>>, ids: Seq<u64>)
    requires
        valid_ids(s, ids),
    ensures
        share_total(s, ids, HUNDRED as int) == claim_total(s, ids),
        image_total(s, ids, reduced_by(HUNDRED as int)) == 0,
    decreases ids.len(),
{
    if ids.len() > 0 {
        let p = ids.drop_last();
        assert(valid_ids(s, p)) by {
            assert forall|k: int| 0 <= k < p.len() implies is_live(s, #[trigger] p[k]) by {
                assert(p[k] == ids[k]);
            }
        }
        law_full_partial_withdraw(s, p);
        assert(is_live(s, ids[ids.len() - 1]));
        lemma_percent_bounds(slot_amount(s[ids.last() - 1]), HUNDRED as int);
    }
}

/// What a claim of `c` keeps after partial withdrawals of `pcts`, in turn.
pub open spec fn kept_after(c: int, pcts: Seq<int>) -> int
    decreases pcts.len(),
{
    if pcts.len() == 0 {
        c
    } else {
        let k = kept_after(c, pcts.drop_last());
        k - percent_of(k, pcts.last())
    }
}

/// What partial withdrawals of `pcts`, in turn, pay out of a claim of `c`.
pub open spec fn paid_after(c: int, pcts: Seq<int>) -> int
    decreases pcts.len(),
{
    if pcts.len() == 0 {
        0
    } else {
        paid_after(c, pcts.drop_last()) + percent_of(kept_after(c, pcts.drop_last()), pcts.last())
    }
}

/// However many partial withdrawals of valid percentages are made, the
/// claim never goes negative and the payouts together never exceed it:
/// what is paid and what is kept add up to the original claim.
pub proof fn law_repeated_partial_withdraw(c: int, pcts: Seq<int>)
    requires
        c >= 0,
        forall|i: int| 0 <= i < pcts.len() ==> 0 < #[trigger] pcts[i] <= HUNDRED,
    ensures
        0 <= kept_after(c, pcts) <= c,
        0 <= paid_after(c, pcts) <= c,
        paid_after(c, pcts) + kept_after(c, pcts) == c,
    decreases pcts.len(),
{
    if pcts.len() > 0 {
        let p = pcts.drop_last();
        assert forall|i: int| 0 <= i < p.len() implies 0 < #[trigger] p[i] <= HUNDRED by {
            assert(p[i] == pcts[i]);
        }
        law_repeated_partial_withdraw(c, p);
        assert(0 < pcts[pcts.len() - 1] <= HUNDRED);
        lemma_percent_bounds(kept_after(c, p), pcts.last());
    }
}

/// A loan just issued can be repaid with its marker, and repaying exactly
/// the amount due returns the principal to the treasury together with at
/// least the lenders' reward on it.
pub proof fn law_loan_round_trip(s: PoolState, amount: Amount)
    requires
        s.wf(),
    ensures
        FlashLoan::is_outstanding(
            PoolState { loans: s.loans.push(Some(amount)), ..s },
            ((s.loans.len() + 1) as u64, amount@),
        ),
        repayment_due(amount@ as int, s.fee as int) >= amount@ + percent_of(
            amount@ as int,
            s.reward as int,
        ),
        percent_of(amount@ as int, s.reward as int) >= 0,
{
    let l = s.loans.push(Some(amount));
    assert(l[s.loans.len() as int] == Some(amount));
    assert(loan_amount(l[s.loans.len() as int]) == amount@);
    lemma_due_covers_reward(amount@ as int, s.fee as int, s.reward as int);
}

} // verus!
