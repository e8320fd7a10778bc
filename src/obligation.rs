//! The obligation ledger: one slot per loan ever issued, holding the
//! principal while the loan is outstanding and emptied once it is repaid.

use crate::decimal::Amount;
use vstd::prelude::*;

verus! {

/// The marker handed to a borrower with the loan. It can neither be copied
/// nor built outside this crate, and is consumed by repayment.
#[derive(Debug)]
pub struct TransientNftData {
    pub(crate) id: u64,
    pub(crate) amount: Amount,
}

impl View for TransientNftData {
    /// The loan's id and its principal.
    type V = (u64, nat);

    closed spec fn view(&self) -> (u64, nat) {
        (self.id, self.amount@)
    }
}

impl TransientNftData {
    pub(crate) fn new(id: u64, amount: Amount) -> (r: TransientNftData)
        ensures
            r@ == (id, amount@),
    {
        TransientNftData { id, amount }
    }

    /// The principal of the loan this marker stands for.
    pub fn amount(&self) -> (r: Amount)
        ensures
            r@ == self@.1,
    {
        self.amount
    }

    /// The loan's id.
    pub fn id(&self) -> (r: u64)
        ensures
            r == self@.0,
    {
        self.id
    }
}

pub open spec fn loan_amount(o: Option<Amount>) -> int {
    match o {
        Some(a) => a@ as int,
        None => 0,
    }
}

/// Sum of the principals of all outstanding loans.
pub open spec fn owed_sum(s: Seq<Option<Amount>>) -> int
    decreases s.len(),
{
    if s.len() == 0 {
        0
    } else {
        owed_sum(s.drop_last()) + loan_amount(s.last())
    }
}

pub proof fn lemma_owed_sum_nonneg(s: Seq<Option<Amount>>)
    ensures
        owed_sum(s) >= 0,
    decreases s.len(),
{
    if s.len() > 0 {
        lemma_owed_sum_nonneg(s.drop_last());
    }
}

pub proof fn lemma_owed_sum_update(s: Seq<Option<Amount>>, i: int, v: Option<Amount>)
    requires
        0 <= i < s.len(),
    ensures
        owed_sum(s.update(i, v)) == owed_sum(s) - loan_amount(s[i]) + loan_amount(v),
    decreases s.len(),
{
    let t = s.update(i, v);
    if i == s.len() - 1 {
        assert(t.drop_last() =~= s.drop_last());
    } else {
        assert(t.drop_last() =~= s.drop_last().update(i, v));
        lemma_owed_sum_update(s.drop_last(), i, v);
    }
}

pub proof fn lemma_owed_sum_push(s: Seq<Option<Amount>>, v: Option<Amount>)
    ensures
        owed_sum(s.push(v)) == owed_sum(s) + loan_amount(v),
{
    assert(s.push(v).drop_last() =~= s);
}

} // verus!
