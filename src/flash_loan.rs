//! The accounting core: deposits, full and partial withdrawals, flash loans
//! and their repayment, fee and reward settings, reward distribution and the
//! operator's sweep of the protocol's spread.

use crate::decimal::{div_spec, mul_spec, Amount, HUNDRED, ONE};
use crate::fees::{
    lemma_div_hundred, lemma_due_covers_reward, lemma_percent_bounds, lemma_scaled_bound, percent_of, repayment_due,
};
use crate::obligation::{
    lemma_owed_sum_nonneg, lemma_owed_sum_push, lemma_owed_sum_update, loan_amount, owed_sum,
    TransientNftData,
};
use crate::registry::{
    claim_total, image_total, is_live, lemma_claim_total_le_live_sum,
    lemma_image_total_of_none, lemma_live_sum_nonneg, lemma_live_sum_push,
    lemma_slot_le_live_sum, lemma_update_each, lemma_valid_prefix, live_sum, slot_amount, update_each, valid_ids,
    LenderData,
};
use vstd::arithmetic::div_mod::{lemma_div_is_ordered, lemma_div_multiples_vanish};
use vstd::prelude::*;

verus! {

/// Why an operation was refused. A refused operation changes nothing.
#[derive(Clone, Copy, Debug, PartialEq, Eq, Structural)]
pub enum FlashLoanError {
    /// The treasury cannot cover a debit.
    InsufficientLiquidity,
    /// A certificate names no live position of this pool, or is presented twice.
    UnknownPosition,
    /// A loan marker matches no outstanding loan of this pool.
    UnknownObligation,
    /// A loan was returned with less than principal plus fee.
    InsufficientRepayment,
    /// A fee or reward setting would make the reward exceed the fee.
    MarginViolation,
    /// Rewards were distributed while no claims are outstanding.
    DivisionByZero,
    /// The treasury holds less than the claims and pending rewards.
    AccountingInconsistency,
    /// An amount is zero, or a percentage lies outside (0, 100].
    InvalidAmount,
    /// A result does not fit the fixed-point range, or ids are exhausted.
    ArithmeticOverflow,
}

/// The pool as a mathematical value.
pub ghost struct PoolState {
    /// Treasury balance.
    pub vault: nat,
    /// Borrower fee, in percent.
    pub fee: nat,
    /// Lender reward, in percent of each loan.
    pub reward: nat,
    /// Position registry: slot `id - 1` for lender id `id`.
    pub positions: Seq<Option<LenderData>>,
    /// The id the next position gets.
    pub next_id: nat,
    /// Total claims of the lenders.
    pub total: nat,
    /// Rewards accrued and not yet distributed.
    pub pending: nat,
    /// Obligation ledger: slot `id - 1` for loan id `id`.
    pub loans: Seq<Option<Amount>>,
}

impl PoolState {
    /// The state invariant.
    pub open spec fn wf(self) -> bool {
        &&& self.next_id == self.positions.len() + 1
        &&& self.next_id <= u64::MAX
        &&& self.loans.len() < u64::MAX
        &&& live_sum(self.positions) <= self.total
        &&& self.total + self.pending <= self.vault + owed_sum(self.loans)
        &&& self.total + self.pending <= u128::MAX
        &&& self.reward <= self.fee
    }

    /// Every unit of claim is accounted for by a live position.
    pub open spec fn balanced(self) -> bool {
        live_sum(self.positions) == self.total
    }

    /// Same state apart from treasury, positions, total and next id.
    pub open spec fn same_settings_and_loans(self, other: PoolState) -> bool {
        &&& self.fee == other.fee
        &&& self.reward == other.reward
        &&& self.pending == other.pending
        &&& self.loans == other.loans
    }
}

/// The emptied slot of a fully withdrawn position.
pub open spec fn emptied() -> spec_fn(Option<LenderData>) -> Option<LenderData> {
    |o: Option<LenderData>| None::<LenderData>
}

/// The slot after `pct` percent of its claim is paid out.
pub open spec fn reduced_by(pct: int) -> spec_fn(Option<LenderData>) -> Option<LenderData> {
    |o: Option<LenderData>|
        match o {
            Some(p) => Some(
                LenderData {
                    current_amount: Amount {
                        attos: (p.current_amount@ - percent_of(p.current_amount@ as int, pct)) as u128,
                    },
                    ..p
                },
            ),
            None => None,
        }
}

/// The slot after distribution at growth factor `factor`.
pub open spec fn scaled_by(o: Option<LenderData>, factor: int) -> Option<LenderData> {
    match o {
        Some(p) => Some(
            LenderData {
                current_amount: Amount {
                    attos: mul_spec(p.current_amount@ as int, factor) as u128,
                },
                ..p
            },
        ),
        None => None,
    }
}

/// Sum of `pct` percent of each claim named by `ids`.
pub open spec fn share_total(s: Seq<Option<LenderData>>, ids: Seq<u64>, pct: int) -> int
    decreases ids.len(),
{
    if ids.len() == 0 {
        0
    } else {
        share_total(s, ids.drop_last(), pct) + percent_of(slot_amount(s[ids.last() - 1]), pct)
    }
}

/// The singleton pool: treasury, position registry, obligation ledger and
/// the aggregates tying them together.
pub struct FlashLoan {
    coins_to_lend: Amount,
    borrower_fee: Amount,
    lender_rewards: Amount,
    lenders: Vec<Option<LenderData>>,
    next_lender_id: u64,
    total_deposited: Amount,
    pending_rewards: Amount,
    loans: Vec<Option<Amount>>,
}

impl View for FlashLoan {
    type V = PoolState;

    closed spec fn view(&self) -> PoolState {
        PoolState {
            vault: self.coins_to_lend@,
            fee: self.borrower_fee@,
            reward: self.lender_rewards@,
            positions: self.lenders@,
            next_id: self.next_lender_id as nat,
            total: self.total_deposited@,
            pending: self.pending_rewards@,
            loans: self.loans@,
        }
    }
}

impl FlashLoan {
    /// An empty pool with the given borrower fee and lender reward, both in
    /// percent. Refused with `MarginViolation` when the reward exceeds the fee.
    pub fn instantiate_flash_loan(
        borrower_percentage_fee: Amount,
        lender_percentage_rewards: Amount,
    ) -> (r: Result<FlashLoan, FlashLoanError>)
        ensures
            r is Ok <==> lender_percentage_rewards@ <= borrower_percentage_fee@,
            r is Err ==> r == Err::<FlashLoan, FlashLoanError>(FlashLoanError::MarginViolation),
            r matches Ok(p) ==> {
                &&& p.wf()
                &&& p@.balanced()
                &&& p@.vault == 0
                &&& p@.fee == borrower_percentage_fee@
                &&& p@.reward == lender_percentage_rewards@
                &&& p@.positions.len() == 0
                &&& p@.next_id == 1
                &&& p@.total == 0
                &&& p@.pending == 0
                &&& p@.loans.len() == 0
            },
    {
        if lender_percentage_rewards.attos > borrower_percentage_fee.attos {
            return Err(FlashLoanError::MarginViolation);
        }
        let p = FlashLoan {
            coins_to_lend: Amount::zero(),
            borrower_fee: borrower_percentage_fee,
            lender_rewards: lender_percentage_rewards,
            lenders: Vec::new(),
            next_lender_id: 1,
            total_deposited: Amount::zero(),
            pending_rewards: Amount::zero(),
            loans: Vec::new(),
        };
        proof {
            assert(p@.positions =~= Seq::<Option<LenderData>>::empty());
            assert(p@.loans =~= Seq::<Option<Amount>>::empty());
        }
        Ok(p)
    }

    /// The state invariant holds.
    pub open spec fn wf(&self) -> bool {
        self@.wf()
    }

    pub fn vault_balance(&self) -> (r: Amount)
        ensures
            r@ == self@.vault,
    {
        self.coins_to_lend
    }

    pub fn total_claims(&self) -> (r: Amount)
        ensures
            r@ == self@.total,
    {
        self.total_deposited
    }

    pub fn pending_rewards(&self) -> (r: Amount)
        ensures
            r@ == self@.pending,
    {
        self.pending_rewards
    }

    pub fn borrower_fee(&self) -> (r: Amount)
        ensures
            r@ == self@.fee,
    {
        self.borrower_fee
    }

    pub fn lender_rewards(&self) -> (r: Amount)
        ensures
            r@ == self@.reward,
    {
        self.lender_rewards
    }

    pub fn next_lender_id(&self) -> (r: u64)
        ensures
            r == self@.next_id,
    {
        self.next_lender_id
    }

    /// The position with the given id, if it is live.
    pub fn position(&self, id: u64) -> (r: Option<LenderData>)
        ensures
            r is Some <==> is_live(self@.positions, id),
            r matches Some(p) ==> p == self@.positions[id - 1]->Some_0,
    {
        if id == 0 || id > self.lenders.len() as u64 {
            None
        } else {
            self.lenders[self.slot_index(id)]
        }
    }

    /// Whether every loan issued has been repaid.
    pub fn all_loans_settled(&self) -> (r: bool)
        ensures
            r == forall|i: int| 0 <= i < self@.loans.len() ==> self@.loans[i] is None,
    {
        let mut i: usize = 0;
        while i < self.loans.len()
            invariant
                i <= self.loans@.len(),
                forall|j: int| 0 <= j < i ==> self.loans@[j] is None,
            decreases self.loans@.len() - i,
        {
            if self.loans[i].is_some() {
                return false;
            }
            i = i + 1;
        }
        true
    }

    /// Opens a position worth `funds`, dated `date` (minutes since the Unix
    /// epoch), and credits the treasury. Returns the new position's id.
    pub fn add_funds(&mut self, funds: Amount, date: u64) -> (r: Result<u64, FlashLoanError>)
        requires
            old(self).wf(),
        ensures
            final(self).wf(),
            r is Ok <==> funds@ > 0 && !Self::deposit_overflows(old(self)@, funds@),
            r == Err::<u64, FlashLoanError>(FlashLoanError::InvalidAmount) <==> funds@ == 0,
            r is Err ==> final(self)@ == old(self)@,
            r matches Ok(id) ==> {
                &&& id == old(self)@.next_id
                &&& final(self)@.positions == old(self)@.positions.push(
                    Some(LenderData { initial_deposit: funds, date, current_amount: funds }),
                )
                &&& final(self)@.next_id == old(self)@.next_id + 1
                &&& final(self)@.vault == old(self)@.vault + funds@
                &&& final(self)@.total == old(self)@.total + funds@
                &&& final(self)@.same_settings_and_loans(old(self)@)
            },
            old(self)@.balanced() ==> final(self)@.balanced(),
    {
        if funds.attos == 0 {
            return Err(FlashLoanError::InvalidAmount);
        }
        if self.next_lender_id == u64::MAX {
            return Err(FlashLoanError::ArithmeticOverflow);
        }
        let vault = match self.coins_to_lend.checked_add(funds) {
            Some(v) => v,
            None => return Err(FlashLoanError::ArithmeticOverflow),
        };
        let total = match self.total_deposited.checked_add(funds) {
            Some(t) => t,
            None => return Err(FlashLoanError::ArithmeticOverflow),
        };
        if total.checked_add(self.pending_rewards).is_none() {
            return Err(FlashLoanError::ArithmeticOverflow);
        }
        let id = self.next_lender_id;
        let data = LenderData { initial_deposit: funds, date, current_amount: funds };
        proof {
            lemma_live_sum_push(self.lenders@, Some(data));
        }
        self.lenders.push(Some(data));
        self.next_lender_id = id + 1;
        self.coins_to_lend = vault;
        self.total_deposited = total;
        Ok(id)
    }

    /// A deposit of `funds` would leave the fixed-point range or the ids.
    pub open spec fn deposit_overflows(s: PoolState, funds: nat) -> bool {
        s.next_id == u64::MAX || s.vault + funds > u128::MAX || s.total + s.pending + funds
            > u128::MAX
    }

    /// Sets the borrower fee, in percent. Refused with `MarginViolation`
    /// when it would fall below the lender reward.
    pub fn set_borrower_fee(&mut self, percentage_fee: Amount) -> (r: Result<(), FlashLoanError>)
        requires
            old(self).wf(),
        ensures
            final(self).wf(),
            r is Ok <==> percentage_fee@ >= old(self)@.reward,
            r is Err ==> r == Err::<(), FlashLoanError>(FlashLoanError::MarginViolation)
                && final(self)@ == old(self)@,
            r is Ok ==> final(self)@ == (PoolState { fee: percentage_fee@, ..old(self)@ }),
    {
        if percentage_fee.attos < self.lender_rewards.attos {
            return Err(FlashLoanError::MarginViolation);
        }
        self.borrower_fee = percentage_fee;
        Ok(())
    }

    /// Sets the lender reward, in percent of each loan. Refused with
    /// `MarginViolation` when it would exceed the borrower fee.
    pub fn set_lender_rewards(&mut self, percentage_rewards: Amount) -> (r: Result<
        (),
        FlashLoanError,
    >)
        requires
            old(self).wf(),
        ensures
            final(self).wf(),
            r is Ok <==> old(self)@.fee >= percentage_rewards@,
            r is Err ==> r == Err::<(), FlashLoanError>(FlashLoanError::MarginViolation)
                && final(self)@ == old(self)@,
            r is Ok ==> final(self)@ == (PoolState { reward: percentage_rewards@, ..old(self)@ }),
    {
        if self.borrower_fee.attos < percentage_rewards.attos {
            return Err(FlashLoanError::MarginViolation);
        }
        self.lender_rewards = percentage_rewards;
        Ok(())
    }

    /// Pays out the treasury's surplus over claims and pending rewards.
    /// Refused with `AccountingInconsistency` when there is no such surplus.
    pub fn withdraw_owner_rewards(&mut self) -> (r: Result<Amount, FlashLoanError>)
        requires
            old(self).wf(),
        ensures
            final(self).wf(),
            r is Ok <==> old(self)@.total + old(self)@.pending <= old(self)@.vault,
            r is Err ==> r == Err::<Amount, FlashLoanError>(
                FlashLoanError::AccountingInconsistency,
            ) && final(self)@ == old(self)@,
            r matches Ok(a) ==> {
                &&& a@ == old(self)@.vault - old(self)@.total - old(self)@.pending
                &&& final(self)@ == (PoolState {
                    vault: (old(self)@.total + old(self)@.pending) as nat,
                    ..old(self)@
                })
            },
    {
        let owed = match self.total_deposited.checked_add(self.pending_rewards) {
            Some(o) => o,
            None => return Err(FlashLoanError::AccountingInconsistency),
        };
        let surplus = match self.coins_to_lend.checked_sub(owed) {
            Some(s) => s,
            None => return Err(FlashLoanError::AccountingInconsistency),
        };
        proof {
            lemma_owed_sum_nonneg(self.loans@);
        }
        self.coins_to_lend = owed;
        Ok(surplus)
    }

    /// The registry slot of a lender id.
    fn slot_index(&self, id: u64) -> (r: usize)
        requires
            1 <= id <= self.lenders@.len(),
        ensures
            r == id - 1,
    {
        let n = self.lenders.len();
        assert(id - 1 < n);
        (id - 1) as usize
    }

    /// Whether the ids name live positions, each once.
    fn check_ids(&self, ids: &Vec<u64>) -> (r: bool)
        ensures
            r == valid_ids(self@.positions, ids@),
    {
        let n = self.lenders.len() as u64;
        let mut k: usize = 0;
        while k < ids.len()
            invariant
                k <= ids@.len(),
                n == self.lenders@.len(),
                valid_ids(self@.positions, ids@.take(k as int)),
            decreases ids@.len() - k,
        {
            let id = ids[k];
            if id == 0 || id > n || self.lenders[self.slot_index(id)].is_none() {
                proof {
                    assert(!is_live(self@.positions, ids@[k as int]));
                }
                return false;
            }
            let mut j: usize = 0;
            while j < k
                invariant
                    j <= k < ids@.len(),
                    id == ids@[k as int],
                    forall|i: int| 0 <= i < j ==> ids@[i] != ids@[k as int],
                decreases k - j,
            {
                if ids[j] == id {
                    return false;
                }
                j = j + 1;
            }
            proof {
                let t = ids@.take(k as int + 1);
                assert forall|i: int| 0 <= i < t.len() implies is_live(self@.positions, #[trigger] t[i]) by {
                    assert(t[i] == ids@[i]);
                    if i < k {
                        assert(ids@.take(k as int)[i] == ids@[i]);
                    }
                }
                assert forall|a: int, b: int| 0 <= a < b < t.len() implies t[a] != t[b] by {
                    assert(t[a] == ids@[a] && t[b] == ids@[b]);
                    if b < k {
                        assert(ids@.take(k as int)[a] == ids@[a]);
                        assert(ids@.take(k as int)[b] == ids@[b]);
                    }
                }
            }
            k = k + 1;
        }
        proof {
            assert(ids@.take(ids@.len() as int) =~= ids@);
        }
        true
    }

    /// Sum of the claims named by valid ids.
    fn sum_claims(&self, ids: &Vec<u64>) -> (r: Amount)
        requires
            self.wf(),
            valid_ids(self@.positions, ids@),
        ensures
            r@ == claim_total(self@.positions, ids@),
    {
        let ghost s = self@.positions;
        let mut amount: u128 = 0;
        let mut k: usize = 0;
        while k < ids.len()
            invariant
                self.wf(),
                s == self@.positions,
                valid_ids(s, ids@),
                k <= ids@.len(),
                amount == claim_total(s, ids@.take(k as int)),
            decreases ids@.len() - k,
        {
            let id = ids[k];
            proof {
                lemma_valid_prefix(s, ids@, k as int + 1);
                lemma_claim_total_le_live_sum(s, ids@.take(k as int + 1));
                assert(ids@.take(k as int + 1).last() == id);
                assert(is_live(s, ids@[k as int]));
                lemma_live_sum_nonneg(s);
            }
            let c = self.lenders[self.slot_index(id)].unwrap().current_amount.attos;
            amount = amount + c;
            k = k + 1;
        }
        proof {
            assert(ids@.take(ids@.len() as int) =~= ids@);
        }
        Amount::from_attos(amount)
    }

    /// Redeems the certificates `lender_nft` in full: closes their
    /// positions and pays out the sum of their claims.
    pub fn withdraw_funds(&mut self, lender_nft: Vec<u64>) -> (r: Result<Amount, FlashLoanError>)
        requires
            old(self).wf(),
        ensures
            final(self).wf(),
            r is Ok <==> valid_ids(old(self)@.positions, lender_nft@) && claim_total(
                old(self)@.positions,
                lender_nft@,
            ) <= old(self)@.vault,
            r == Err::<Amount, FlashLoanError>(FlashLoanError::UnknownPosition) <==> !valid_ids(
                old(self)@.positions,
                lender_nft@,
            ),
            r is Err ==> final(self)@ == old(self)@,
            r matches Ok(a) ==> {
                &&& a@ == claim_total(old(self)@.positions, lender_nft@)
                &&& final(self)@.positions == update_each(
                    old(self)@.positions,
                    lender_nft@,
                    emptied(),
                )
                &&& final(self)@.vault == old(self)@.vault - a@
                &&& final(self)@.total == old(self)@.total - a@
                &&& final(self)@.next_id == old(self)@.next_id
                &&& final(self)@.same_settings_and_loans(old(self)@)
            },
            old(self)@.balanced() ==> final(self)@.balanced(),
    {
        if !self.check_ids(&lender_nft) {
            return Err(FlashLoanError::UnknownPosition);
        }
        let amount = self.sum_claims(&lender_nft);
        if amount.attos > self.coins_to_lend.attos {
            return Err(FlashLoanError::InsufficientLiquidity);
        }
        let ghost pre = self@;
        let ghost s = self@.positions;
        let ghost ids = lender_nft@;
        proof {
            lemma_claim_total_le_live_sum(s, ids);
        }
        let mut k: usize = 0;
        while k < lender_nft.len()
            invariant
                valid_ids(s, ids),
                ids == lender_nft@,
                k <= ids.len(),
                self.lenders@ == update_each(s, ids.take(k as int), emptied()),
                self@ == (PoolState { positions: self.lenders@, ..pre }),
                self.lenders@.len() == self.next_lender_id - 1,
            decreases ids.len() - k,
        {
            let id = lender_nft[k];
            proof {
                lemma_valid_prefix(s, ids, k as int);
                lemma_valid_prefix(s, ids, k as int + 1);
                lemma_update_each(s, ids.take(k as int), emptied());
                assert(ids.take(k as int + 1).last() == id);
                assert(is_live(s, ids[k as int]));
            }
            let i = self.slot_index(id);
            self.lenders.set(i, None);
            proof {
                assert(update_each(s, ids.take(k as int + 1), emptied()) == update_each(
                    s,
                    ids.take(k as int),
                    emptied(),
                ).update(id - 1, None));
            }
            k = k + 1;
        }
        proof {
            assert(ids.take(ids.len() as int) =~= ids);
            lemma_update_each(s, ids, emptied());
            lemma_image_total_of_none(s, ids);
        }
        self.coins_to_lend = Amount::from_attos(self.coins_to_lend.attos - amount.attos);
        self.total_deposited = Amount::from_attos(self.total_deposited.attos - amount.attos);
        Ok(amount)
    }

    /// A percentage in (0, 100].
    pub open spec fn valid_percentage(pct: nat) -> bool {
        0 < pct <= HUNDRED
    }

    /// Some claim named by `ids`, multiplied by `pct`, leaves the range.
    pub open spec fn share_overflows(s: Seq<Option<LenderData>>, ids: Seq<u64>, pct: int) -> bool {
        exists|k: int|
            0 <= k < ids.len() && #[trigger] mul_spec(slot_amount(s[ids[k] - 1]), pct)
                > u128::MAX
    }

    /// Pays out `percentage_withdrawed` percent of each position named by
    /// `lender_nft` and hands the certificates back with their claims
    /// reduced by what was paid.
    pub fn partial_withdraw(&mut self, lender_nft: Vec<u64>, percentage_withdrawed: Amount) -> (r:
        Result<(Amount, Vec<u64>), FlashLoanError>)
        requires
            old(self).wf(),
        ensures
            final(self).wf(),
            r is Ok <==> {
                &&& Self::valid_percentage(percentage_withdrawed@)
                &&& valid_ids(old(self)@.positions, lender_nft@)
                &&& !Self::share_overflows(
                    old(self)@.positions,
                    lender_nft@,
                    percentage_withdrawed@ as int,
                )
                &&& share_total(old(self)@.positions, lender_nft@, percentage_withdrawed@ as int)
                    <= old(self)@.vault
            },
            r == Err::<(Amount, Vec<u64>), FlashLoanError>(FlashLoanError::InvalidAmount)
                <==> !Self::valid_percentage(percentage_withdrawed@),
            r == Err::<(Amount, Vec<u64>), FlashLoanError>(FlashLoanError::UnknownPosition) <==> (
            Self::valid_percentage(percentage_withdrawed@) && !valid_ids(
                old(self)@.positions,
                lender_nft@,
            )),
            r == Err::<(Amount, Vec<u64>), FlashLoanError>(FlashLoanError::ArithmeticOverflow)
                <==> (Self::valid_percentage(percentage_withdrawed@) && valid_ids(
                old(self)@.positions,
                lender_nft@,
            ) && Self::share_overflows(
                old(self)@.positions,
                lender_nft@,
                percentage_withdrawed@ as int,
            )),
            r is Err ==> final(self)@ == old(self)@,
            r matches Ok((a, ids)) ==> {
                &&& a@ == share_total(
                    old(self)@.positions,
                    lender_nft@,
                    percentage_withdrawed@ as int,
                )
                &&& ids@ == lender_nft@
                &&& final(self)@.positions == update_each(
                    old(self)@.positions,
                    lender_nft@,
                    reduced_by(percentage_withdrawed@ as int),
                )
                &&& final(self)@.vault == old(self)@.vault - a@
                &&& final(self)@.total == old(self)@.total - a@
                &&& final(self)@.next_id == old(self)@.next_id
                &&& final(self)@.same_settings_and_loans(old(self)@)
            },
            old(self)@.balanced() ==> final(self)@.balanced(),
    {
        if percentage_withdrawed.attos == 0 || percentage_withdrawed.attos > HUNDRED {
            return Err(FlashLoanError::InvalidAmount);
        }
        if !self.check_ids(&lender_nft) {
            return Err(FlashLoanError::UnknownPosition);
        }
        let ghost pre = self@;
        let ghost s = self@.positions;
        let ghost ids = lender_nft@;
        let ghost pct = percentage_withdrawed@ as int;
        let hundred = Amount::from_attos(HUNDRED);
        let mut shares: Vec<u128> = Vec::new();
        let mut amount: u128 = 0;
        let mut k: usize = 0;
        while k < lender_nft.len()
            invariant
                self.wf(),
                self@ == pre,
                s == pre.positions,
                valid_ids(s, ids),
                ids == lender_nft@,
                k <= ids.len(),
                pct == percentage_withdrawed@,
                0 < pct <= HUNDRED,
                hundred@ == HUNDRED,
                shares@.len() == k,
                forall|j: int|
                    0 <= j < k ==> shares@[j] == percent_of(slot_amount(s[ids[j] - 1]), pct),
                forall|j: int|
                    0 <= j < k ==> #[trigger] mul_spec(slot_amount(s[ids[j] - 1]), pct)
                        <= u128::MAX,
                amount == share_total(s, ids.take(k as int), pct),
            decreases ids.len() - k,
        {
            let id = lender_nft[k];
            proof {
                lemma_valid_prefix(s, ids, k as int + 1);
                assert(is_live(s, ids[k as int]));
                assert(ids.take(k as int + 1).last() == id);
            }
            let c = self.lenders[self.slot_index(id)].unwrap().current_amount;
            let m = match c.checked_mul(percentage_withdrawed) {
                Some(m) => m,
                None => {
                    proof {
                        assert(mul_spec(slot_amount(s[ids[k as int] - 1]), pct) > u128::MAX);
                    }
                    return Err(FlashLoanError::ArithmeticOverflow);
                },
            };
            proof {
                lemma_div_hundred(m@ as int);
                lemma_div_is_ordered(m@ as int, m@ as int * 100, 100);
                lemma_div_multiples_vanish(m@ as int, 100);
                lemma_share_total(s, ids.take(k as int + 1), pct);
                lemma_claim_total_le_live_sum(s, ids.take(k as int + 1));
            }
            let sh = match m.checked_div(hundred) {
                Some(x) => x,
                None => return Err(FlashLoanError::ArithmeticOverflow),
            };
            amount = amount + sh.attos;
            shares.push(sh.attos);
            k = k + 1;
        }
        proof {
            assert(ids.take(ids.len() as int) =~= ids);
            lemma_share_total(s, ids, pct);
            lemma_claim_total_le_live_sum(s, ids);
        }
        if amount > self.coins_to_lend.attos {
            return Err(FlashLoanError::InsufficientLiquidity);
        }
        let mut k: usize = 0;
        while k < lender_nft.len()
            invariant
                valid_ids(s, ids),
                ids == lender_nft@,
                k <= ids.len(),
                0 < pct <= HUNDRED,
                shares@.len() == ids.len(),
                forall|j: int|
                    0 <= j < ids.len() ==> shares@[j] == percent_of(
                        slot_amount(s[ids[j] - 1]),
                        pct,
                    ),
                self.lenders@ == update_each(s, ids.take(k as int), reduced_by(pct)),
                self@ == (PoolState { positions: self.lenders@, ..pre }),
                self.lenders@.len() == self.next_lender_id - 1,
            decreases ids.len() - k,
        {
            let id = lender_nft[k];
            proof {
                lemma_valid_prefix(s, ids, k as int);
                lemma_valid_prefix(s, ids, k as int + 1);
                lemma_update_each(s, ids.take(k as int), reduced_by(pct));
                assert(ids.take(k as int + 1).last() == id);
                assert(is_live(s, ids[k as int]));
            }
            let i = self.slot_index(id);
            let p = self.lenders[i].unwrap();
            let sh = shares[k];
            proof {
                lemma_percent_bounds(p.current_amount@ as int, pct);
            }
            let np = LenderData {
                current_amount: Amount::from_attos(p.current_amount.attos - sh),
                ..p
            };
            self.lenders.set(i, Some(np));
            proof {
                assert(Some(np) == reduced_by(pct)(s[id - 1]));
                assert(update_each(s, ids.take(k as int + 1), reduced_by(pct)) == update_each(
                    s,
                    ids.take(k as int),
                    reduced_by(pct),
                ).update(id - 1, reduced_by(pct)(s[id - 1])));
            }
            k = k + 1;
        }
        proof {
            assert(ids.take(ids.len() as int) =~= ids);
            lemma_update_each(s, ids, reduced_by(pct));
        }
        self.coins_to_lend = Amount::from_attos(self.coins_to_lend.attos - amount);
        self.total_deposited = Amount::from_attos(self.total_deposited.attos - amount);
        Ok((Amount::from_attos(amount), lender_nft))
    }

    /// The marker stands for an outstanding loan of this pool.
    pub open spec fn is_outstanding(s: PoolState, marker: (u64, nat)) -> bool {
        &&& 1 <= marker.0 <= s.loans.len()
        &&& s.loans[marker.0 - 1] is Some
        &&& loan_amount(s.loans[marker.0 - 1]) == marker.1
    }

    /// Repaying `bucket` on `principal` would leave the fixed-point range.
    pub open spec fn repay_overflows(s: PoolState, principal: int, bucket: int) -> bool {
        ||| HUNDRED + s.fee > u128::MAX
        ||| mul_spec(principal, HUNDRED + s.fee) > u128::MAX
        ||| s.vault + bucket > u128::MAX
        ||| s.total + s.pending + percent_of(principal, s.reward as int) > u128::MAX
    }

    /// Lends `amount` out of the treasury. The funds come with a marker
    /// that only `return_loan` consumes.
    pub fn get_loan(&mut self, amount: Amount) -> (r: Result<
        (Amount, TransientNftData),
        FlashLoanError,
    >)
        requires
            old(self).wf(),
        ensures
            final(self).wf(),
            r is Ok <==> 0 < amount@ <= old(self)@.vault && old(self)@.loans.len() + 1
                < u64::MAX,
            r is Err ==> final(self)@ == old(self)@,
            r matches Err(e) ==> {
                &&& e == FlashLoanError::InvalidAmount <==> amount@ == 0
                &&& e == FlashLoanError::InsufficientLiquidity <==> 0 < amount@
                    && old(self)@.vault < amount@
                &&& e == FlashLoanError::ArithmeticOverflow <==> 0 < amount@ <= old(self)@.vault
                    && old(self)@.loans.len() + 1 >= u64::MAX
            },
            r matches Ok((funds, marker)) ==> {
                &&& funds == amount
                &&& marker@ == ((old(self)@.loans.len() + 1) as u64, amount@)
                &&& final(self)@ == (PoolState {
                    vault: (old(self)@.vault - amount@) as nat,
                    loans: old(self)@.loans.push(Some(amount)),
                    ..old(self)@
                })
            },
    {
        if amount.attos == 0 {
            return Err(FlashLoanError::InvalidAmount);
        }
        if amount.attos > self.coins_to_lend.attos {
            return Err(FlashLoanError::InsufficientLiquidity);
        }
        let n = self.loans.len() as u64;
        if n >= u64::MAX - 1 {
            return Err(FlashLoanError::ArithmeticOverflow);
        }
        proof {
            lemma_owed_sum_push(self.loans@, Some(amount));
        }
        self.loans.push(Some(amount));
        self.coins_to_lend = Amount::from_attos(self.coins_to_lend.attos - amount.attos);
        Ok((amount, TransientNftData::new(n + 1, amount)))
    }

    /// Settles the loan that `transient_nft` stands for with the repayment
    /// `bucket`, which must cover principal plus fee and is kept whole. The
    /// lenders' reward on the loan is added to the pending rewards.
    pub fn return_loan(&mut self, bucket: Amount, transient_nft: TransientNftData) -> (r: Result<
        (),
        FlashLoanError,
    >)
        requires
            old(self).wf(),
        ensures
            final(self).wf(),
            r is Ok <==> {
                &&& Self::is_outstanding(old(self)@, transient_nft@)
                &&& !Self::repay_overflows(old(self)@, transient_nft@.1 as int, bucket@ as int)
                &&& bucket@ >= repayment_due(transient_nft@.1 as int, old(self)@.fee as int)
            },
            r is Err ==> final(self)@ == old(self)@,
            r matches Err(e) ==> {
                &&& e == FlashLoanError::UnknownObligation <==> !Self::is_outstanding(
                    old(self)@,
                    transient_nft@,
                )
                &&& e == FlashLoanError::ArithmeticOverflow <==> Self::is_outstanding(
                    old(self)@,
                    transient_nft@,
                ) && Self::repay_overflows(old(self)@, transient_nft@.1 as int, bucket@ as int)
                &&& e == FlashLoanError::InsufficientRepayment <==> Self::is_outstanding(
                    old(self)@,
                    transient_nft@,
                ) && !Self::repay_overflows(old(self)@, transient_nft@.1 as int, bucket@ as int)
                    && bucket@ < repayment_due(transient_nft@.1 as int, old(self)@.fee as int)
            },
            r is Ok ==> final(self)@ == (PoolState {
                vault: old(self)@.vault + bucket@,
                pending: (old(self)@.pending + percent_of(
                    transient_nft@.1 as int,
                    old(self)@.reward as int,
                )) as nat,
                loans: old(self)@.loans.update(transient_nft@.0 - 1, None),
                ..old(self)@
            }),
    {
        let id = transient_nft.id();
        let principal = transient_nft.amount();
        let n = self.loans.len();
        if id == 0 || id > n as u64 {
            return Err(FlashLoanError::UnknownObligation);
        }
        assert(id - 1 < n);
        let i = (id - 1) as usize;
        match self.loans[i] {
            Some(a) => {
                if a.attos != principal.attos {
                    return Err(FlashLoanError::UnknownObligation);
                }
            },
            None => return Err(FlashLoanError::UnknownObligation),
        }
        let ghost p = principal@ as int;
        let hundred = Amount::from_attos(HUNDRED);
        let rate = match hundred.checked_add(self.borrower_fee) {
            Some(x) => x,
            None => return Err(FlashLoanError::ArithmeticOverflow),
        };
        let gross = match principal.checked_mul(rate) {
            Some(x) => x,
            None => return Err(FlashLoanError::ArithmeticOverflow),
        };
        proof {
            lemma_div_hundred(gross@ as int);
            lemma_div_is_ordered(gross@ as int, gross@ as int * 100, 100);
            lemma_div_multiples_vanish(gross@ as int, 100);
            lemma_due_covers_reward(p, self@.fee as int, self@.reward as int);
        }
        let due = match gross.checked_div(hundred) {
            Some(x) => x,
            None => return Err(FlashLoanError::ArithmeticOverflow),
        };
        let reward_gross = match principal.checked_mul(self.lender_rewards) {
            Some(x) => x,
            None => return Err(FlashLoanError::ArithmeticOverflow),
        };
        proof {
            lemma_div_hundred(reward_gross@ as int);
            lemma_div_is_ordered(reward_gross@ as int, reward_gross@ as int * 100, 100);
            lemma_div_multiples_vanish(reward_gross@ as int, 100);
        }
        let share = match reward_gross.checked_div(hundred) {
            Some(x) => x,
            None => return Err(FlashLoanError::ArithmeticOverflow),
        };
        let vault = match self.coins_to_lend.checked_add(bucket) {
            Some(x) => x,
            None => return Err(FlashLoanError::ArithmeticOverflow),
        };
        let claims = match self.total_deposited.checked_add(self.pending_rewards) {
            Some(x) => x,
            None => return Err(FlashLoanError::ArithmeticOverflow),
        };
        if claims.checked_add(share).is_none() {
            return Err(FlashLoanError::ArithmeticOverflow);
        }
        if bucket.attos < due.attos {
            return Err(FlashLoanError::InsufficientRepayment);
        }
        proof {
            lemma_owed_sum_update(self.loans@, i as int, None);
        }
        self.loans.set(i, None);
        self.pending_rewards = Amount::from_attos(self.pending_rewards.attos + share.attos);
        self.coins_to_lend = vault;
        Ok(())
    }

    /// Folds the pending rewards into the lenders' claims: every live
    /// position grows by the factor `1 + pending / total`.
    pub fn distribute_rewards(&mut self) -> (r: Result<(), FlashLoanError>)
        requires
            old(self).wf(),
        ensures
            final(self).wf(),
            r is Ok <==> old(self)@.total > 0 && div_spec(
                old(self)@.pending as int,
                old(self)@.total as int,
            ) + ONE <= u128::MAX,
            r == Err::<(), FlashLoanError>(FlashLoanError::DivisionByZero) <==> old(self)@.total
                == 0,
            r is Err ==> final(self)@ == old(self)@,
            r is Ok ==> final(self)@ == (PoolState {
                positions: old(self)@.positions.map_values(
                    |o: Option<LenderData>|
                        scaled_by(
                            o,
                            ONE + div_spec(old(self)@.pending as int, old(self)@.total as int),
                        ),
                ),
                total: old(self)@.total + old(self)@.pending,
                pending: 0,
                ..old(self)@
            }),
    {
        if self.total_deposited.attos == 0 {
            return Err(FlashLoanError::DivisionByZero);
        }
        let rate = match self.pending_rewards.checked_div(self.total_deposited) {
            Some(x) => x,
            None => return Err(FlashLoanError::ArithmeticOverflow),
        };
        let factor = match Amount::from_attos(ONE).checked_add(rate) {
            Some(x) => x,
            None => return Err(FlashLoanError::ArithmeticOverflow),
        };
        let ghost pre = self@;
        let ghost s = self@.positions;
        let ghost total = self@.total as int;
        let ghost pending = self@.pending as int;
        let n = self.lenders.len();
        let mut i: usize = 0;
        while i < n
            invariant
                n == s.len(),
                self.lenders@.len() == n,
                i <= n,
                forall|j: int| 0 <= j < i ==> self.lenders@[j] == scaled_by(s[j], factor@ as int),
                forall|j: int| i <= j < n ==> self.lenders@[j] == s[j],
                self@ == (PoolState { positions: self.lenders@, ..pre }),
                self.lenders@.len() == self.next_lender_id - 1,
                pre.wf(),
                s == pre.positions,
                total == pre.total,
                pending == pre.pending,
                total > 0,
                factor@ == ONE + div_spec(pending, total),
            decreases n - i,
        {
            match self.lenders[i] {
                Some(p) => {
                    proof {
                        lemma_slot_le_live_sum(s, i as int);
                        lemma_scaled_bound(p.current_amount@ as int, total, pending);
                    }
                    let c = match p.current_amount.checked_mul(factor) {
                        Some(x) => x,
                        None => p.current_amount,
                    };
                    self.lenders.set(i, Some(LenderData { current_amount: c, ..p }));
                },
                None => {},
            }
            i = i + 1;
        }
        let ghost f = |o: Option<LenderData>| scaled_by(o, factor@ as int);
        proof {
            assert(self.lenders@ =~= s.map_values(f));
            lemma_scaled_live_sum(s, total, pending);
            lemma_scaled_bound(0, total, pending);
            let l = live_sum(s);
            let l2 = live_sum(s.map_values(f));
            let fac = factor@ as int;
            let rt = div_spec(pending, total);
            assert(l2 <= total + pending) by (nonlinear_arith)
                requires
                    l2 * ONE <= l * fac,
                    l <= total,
                    fac == ONE + rt,
                    rt >= 0,
                    total * rt <= pending * ONE,
            ;
        }
        self.total_deposited = Amount::from_attos(
            self.total_deposited.attos + self.pending_rewards.attos,
        );
        self.pending_rewards = Amount::zero();
        Ok(())
    }
}

/// Under a partial withdrawal each named position pays out its share and
/// keeps the rest.
pub proof fn lemma_share_total(s: Seq<Option<LenderData>>, ids: Seq<u64>, pct: int)
    requires
        forall|k: int| 0 <= k < ids.len() ==> is_live(s, #[trigger] ids[k]),
        0 <= pct <= HUNDRED,
    ensures
        0 <= share_total(s, ids, pct) <= claim_total(s, ids),
        image_total(s, ids, reduced_by(pct)) == claim_total(s, ids) - share_total(s, ids, pct),
    decreases ids.len(),
{
    if ids.len() > 0 {
        let p = ids.drop_last();
        assert forall|k: int| 0 <= k < p.len() implies is_live(s, #[trigger] p[k]) by {
            assert(p[k] == ids[k]);
        }
        lemma_share_total(s, p, pct);
        assert(is_live(s, ids[ids.len() - 1]));
        lemma_percent_bounds(slot_amount(s[ids.last() - 1]), pct);
    }
}


/// Scaling every slot by the growth factor makes the live sum grow by at
/// most that factor.
pub proof fn lemma_scaled_live_sum(s: Seq<Option<LenderData>>, total: int, pending: int)
    requires
        live_sum(s) <= total,
        total > 0,
        pending >= 0,
    ensures
        live_sum(
            s.map_values(
                |o: Option<LenderData>| scaled_by(o, ONE + div_spec(pending, total)),
            ),
        ) * ONE <= live_sum(s) * (ONE + div_spec(pending, total)),
    decreases s.len(),
{
    let fac = ONE + div_spec(pending, total);
    let f = |o: Option<LenderData>| scaled_by(o, fac);
    if s.len() > 0 {
        let d = s.drop_last();
        lemma_slot_le_live_sum(s, s.len() - 1);
        lemma_live_sum_nonneg(d);
        lemma_live_sum_nonneg(s);
        assert(s.map_values(f).drop_last() =~= d.map_values(f));
        lemma_scaled_live_sum(d, total, pending);
        let c = slot_amount(s.last());
        lemma_scaled_bound(c, total, pending);
        lemma_scaled_bound(0, total, pending);
        let a = live_sum(d.map_values(f));
        let b = slot_amount(f(s.last()));
        assert(b * ONE <= c * fac);
        assert((a + b) * ONE <= (live_sum(d) + c) * fac) by (nonlinear_arith)
            requires
                a * ONE <= live_sum(d) * fac,
                b * ONE <= c * fac,
        ;
    }
}

} // verus!
