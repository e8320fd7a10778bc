use flash_loan::decimal::{Amount, HUNDRED, ONE};
use flash_loan::flash_loan::{FlashLoan, FlashLoanError};

fn units(u: u64) -> Amount {
    Amount::from_units(u)
}

fn pool(fee: Amount, reward: Amount) -> FlashLoan {
    FlashLoan::instantiate_flash_loan(fee, reward).unwrap()
}

fn live_total(p: &FlashLoan) -> u128 {
    let mut sum: u128 = 0;
    for id in 1..p.next_lender_id() {
        if let Some(d) = p.position(id) {
            sum += d.current_amount.attos();
        }
    }
    sum
}

#[test]
fn claims_match_total_over_deposits_and_withdrawals() {
    let mut p = pool(units(1), units(1));
    let a = p.add_funds(units(100), 0).unwrap();
    assert_eq!(live_total(&p), p.total_claims().attos());
    let b = p.add_funds(units(250), 1).unwrap();
    assert_eq!(live_total(&p), p.total_claims().attos());
    p.withdraw_funds(vec![a]).unwrap();
    assert_eq!(live_total(&p), p.total_claims().attos());
    let c = p.add_funds(units(7), 2).unwrap();
    p.withdraw_funds(vec![b, c]).unwrap();
    assert_eq!(live_total(&p), p.total_claims().attos());
    assert_eq!(p.total_claims(), Amount::zero());
}

#[test]
fn withdraw_right_after_deposit_returns_deposit() {
    let mut p = pool(units(2), units(1));
    p.add_funds(units(40), 0).unwrap();
    let id = p.add_funds(Amount::from_attos(1_234_567), 5).unwrap();
    assert_eq!(p.withdraw_funds(vec![id]), Ok(Amount::from_attos(1_234_567)));
    assert!(p.position(id).is_none());
    assert_eq!(p.total_claims(), units(40));
    assert_eq!(p.vault_balance(), units(40));
}

#[test]
fn full_partial_withdraw_matches_withdraw() {
    let mut p = pool(units(2), units(1));
    let a = p.add_funds(Amount::from_attos(333_333_333_333_333_333), 0).unwrap();
    let b = p.add_funds(units(9), 0).unwrap();
    let (paid, ids) = p.partial_withdraw(vec![a, b], units(100)).unwrap();
    assert_eq!(paid, Amount::from_attos(333_333_333_333_333_333 + 9 * ONE));
    assert_eq!(ids, vec![a, b]);
    assert_eq!(p.position(a).unwrap().current_amount, Amount::zero());
    assert_eq!(p.total_claims(), Amount::zero());

    let mut q = pool(units(2), units(1));
    let a = q.add_funds(Amount::from_attos(333_333_333_333_333_333), 0).unwrap();
    let b = q.add_funds(units(9), 0).unwrap();
    assert_eq!(q.withdraw_funds(vec![a, b]), Ok(paid));
}

#[test]
fn repeated_partial_withdraw_never_overdraws() {
    let mut p = pool(units(1), units(1));
    let id = p.add_funds(units(1000), 0).unwrap();
    let mut paid: u128 = 0;
    for _ in 0..3 {
        let (out, _) = p.partial_withdraw(vec![id], units(50)).unwrap();
        paid += out.attos();
    }
    let left = p.position(id).unwrap().current_amount.attos();
    assert_eq!(left, 125 * ONE);
    assert_eq!(paid, 875 * ONE);
    assert_eq!(paid + left, 1000 * ONE);
    assert_eq!(p.total_claims().attos(), left);
}

#[test]
fn partial_withdraw_share_is_truncated_once() {
    let mut p = pool(units(1), units(1));
    let id = p.add_funds(Amount::from_attos(10), 0).unwrap();
    let (out, _) = p.partial_withdraw(vec![id], units(33)).unwrap();
    assert_eq!(out, Amount::from_attos(3));
    assert_eq!(p.position(id).unwrap().current_amount, Amount::from_attos(7));
    assert_eq!(p.total_claims(), Amount::from_attos(7));
    assert_eq!(p.vault_balance(), Amount::from_attos(7));
}

#[test]
fn loan_round_trip_adds_fee_only() {
    let mut p = pool(units(3), units(2));
    p.add_funds(units(1000), 0).unwrap();
    let before = p.vault_balance();
    let (funds, marker) = p.get_loan(units(200)).unwrap();
    assert_eq!(funds, units(200));
    assert_eq!(marker.amount(), units(200));
    assert_eq!(p.vault_balance(), units(800));
    assert!(!p.all_loans_settled());
    assert_eq!(p.return_loan(units(206), marker), Ok(()));
    assert!(p.all_loans_settled());
    assert_eq!(p.vault_balance().attos(), before.attos() + 6 * ONE);
    assert_eq!(p.pending_rewards(), units(4));
    assert_eq!(p.total_claims(), units(1000));
}

#[test]
fn short_repayment_is_refused_and_changes_nothing() {
    let mut p = pool(units(3), units(2));
    p.add_funds(units(1000), 0).unwrap();
    let (_, marker) = p.get_loan(units(200)).unwrap();
    let vault = p.vault_balance();
    let short = Amount::from_attos(206 * ONE - 1);
    assert_eq!(p.return_loan(short, marker), Err(FlashLoanError::InsufficientRepayment));
    assert_eq!(p.vault_balance(), vault);
    assert_eq!(p.pending_rewards(), Amount::zero());
    assert_eq!(p.total_claims(), units(1000));
    assert!(!p.all_loans_settled());
}

#[test]
fn distribution_scales_every_position() {
    let mut p = pool(units(10), units(10));
    let a = p.add_funds(units(600), 0).unwrap();
    let b = p.add_funds(units(400), 0).unwrap();
    let (_, marker) = p.get_loan(units(1000)).unwrap();
    p.return_loan(units(1100), marker).unwrap();
    assert_eq!(p.pending_rewards(), units(100));
    assert_eq!(p.total_claims(), units(1000));
    assert_eq!(p.distribute_rewards(), Ok(()));
    assert_eq!(p.position(a).unwrap().current_amount, units(660));
    assert_eq!(p.position(b).unwrap().current_amount, units(440));
    assert_eq!(p.total_claims(), units(1100));
    assert_eq!(p.pending_rewards(), Amount::zero());
}

#[test]
fn distribution_skips_closed_positions() {
    let mut p = pool(units(10), units(10));
    let a = p.add_funds(units(500), 0).unwrap();
    let b = p.add_funds(units(1000), 0).unwrap();
    p.withdraw_funds(vec![a]).unwrap();
    let (_, marker) = p.get_loan(units(1000)).unwrap();
    p.return_loan(units(1100), marker).unwrap();
    p.distribute_rewards().unwrap();
    assert!(p.position(a).is_none());
    assert_eq!(p.position(b).unwrap().current_amount, units(1100));
}

#[test]
fn reward_cannot_exceed_fee() {
    let mut p = pool(units(5), units(1));
    assert_eq!(p.set_lender_rewards(units(6)), Err(FlashLoanError::MarginViolation));
    assert_eq!(p.lender_rewards(), units(1));
    assert_eq!(p.set_lender_rewards(units(5)), Ok(()));
    assert_eq!(p.lender_rewards(), units(5));
    assert_eq!(p.set_borrower_fee(units(4)), Err(FlashLoanError::MarginViolation));
    assert_eq!(p.set_borrower_fee(units(5)), Ok(()));
    assert_eq!(p.borrower_fee(), units(5));
}

#[test]
fn instantiate_refuses_inverted_margin() {
    assert!(matches!(
        FlashLoan::instantiate_flash_loan(units(1), units(2)),
        Err(FlashLoanError::MarginViolation)
    ));
    let p = pool(units(2), units(2));
    assert_eq!(p.next_lender_id(), 1);
    assert_eq!(p.vault_balance(), Amount::zero());
}

#[test]
fn end_to_end_deposit_borrow_reward_withdraw() {
    let half = Amount::from_attos(ONE / 2);
    let mut p = pool(units(1), half);
    let id = p.add_funds(units(1000), 0).unwrap();
    let (funds, marker) = p.get_loan(units(500)).unwrap();
    assert_eq!(funds, units(500));
    p.return_loan(units(505), marker).unwrap();
    assert_eq!(p.pending_rewards(), Amount::from_attos(2 * ONE + ONE / 2));
    p.distribute_rewards().unwrap();
    let grown = Amount::from_attos(1002 * ONE + ONE / 2);
    assert_eq!(p.position(id).unwrap().current_amount, grown);
    assert_eq!(p.withdraw_funds(vec![id]), Ok(grown));
    assert_eq!(p.total_claims(), Amount::zero());
    assert_eq!(p.withdraw_owner_rewards(), Ok(Amount::from_attos(2 * ONE + ONE / 2)));
    assert_eq!(p.vault_balance(), Amount::zero());
}

#[test]
fn owner_sweeps_the_spread() {
    let half = Amount::from_attos(ONE / 2);
    let mut p = pool(units(1), half);
    p.add_funds(units(1000), 0).unwrap();
    let (_, marker) = p.get_loan(units(500)).unwrap();
    p.return_loan(units(505), marker).unwrap();
    assert_eq!(p.withdraw_owner_rewards(), Ok(Amount::from_attos(2 * ONE + ONE / 2)));
    assert_eq!(p.vault_balance(), Amount::from_attos(1002 * ONE + ONE / 2));
    assert_eq!(p.withdraw_owner_rewards(), Ok(Amount::zero()));
}

#[test]
fn overpayment_is_kept() {
    let mut p = pool(units(1), units(1));
    p.add_funds(units(100), 0).unwrap();
    let (_, marker) = p.get_loan(units(100)).unwrap();
    p.return_loan(units(150), marker).unwrap();
    assert_eq!(p.vault_balance(), units(150));
    assert_eq!(p.pending_rewards(), units(1));
}

#[test]
fn zero_amounts_and_bad_percentages_are_refused() {
    let mut p = pool(units(1), units(1));
    assert_eq!(p.add_funds(Amount::zero(), 0), Err(FlashLoanError::InvalidAmount));
    let id = p.add_funds(units(10), 0).unwrap();
    assert_eq!(p.partial_withdraw(vec![id], Amount::zero()), Err(FlashLoanError::InvalidAmount));
    let over = Amount::from_attos(HUNDRED + 1);
    assert_eq!(p.partial_withdraw(vec![id], over), Err(FlashLoanError::InvalidAmount));
    assert!(matches!(p.get_loan(Amount::zero()), Err(FlashLoanError::InvalidAmount)));
    assert_eq!(p.total_claims(), units(10));
}

#[test]
fn unknown_and_repeated_certificates_are_refused() {
    let mut p = pool(units(1), units(1));
    let id = p.add_funds(units(10), 0).unwrap();
    assert_eq!(p.withdraw_funds(vec![0]), Err(FlashLoanError::UnknownPosition));
    assert_eq!(p.withdraw_funds(vec![id + 1]), Err(FlashLoanError::UnknownPosition));
    assert_eq!(p.withdraw_funds(vec![id, id]), Err(FlashLoanError::UnknownPosition));
    assert_eq!(p.partial_withdraw(vec![id, id], units(10)), Err(FlashLoanError::UnknownPosition));
    p.withdraw_funds(vec![id]).unwrap();
    assert_eq!(p.withdraw_funds(vec![id]), Err(FlashLoanError::UnknownPosition));
}

#[test]
fn marker_of_another_pool_is_refused() {
    let mut a = pool(units(1), units(1));
    let mut b = pool(units(1), units(1));
    a.add_funds(units(100), 0).unwrap();
    let (_, marker) = a.get_loan(units(10)).unwrap();
    assert_eq!(b.return_loan(units(20), marker), Err(FlashLoanError::UnknownObligation));
    assert_eq!(b.vault_balance(), Amount::zero());
}

#[test]
fn outstanding_loan_can_starve_withdrawal() {
    let mut p = pool(units(1), units(1));
    let id = p.add_funds(units(100), 0).unwrap();
    let (_, marker) = p.get_loan(units(60)).unwrap();
    assert_eq!(p.withdraw_funds(vec![id]), Err(FlashLoanError::InsufficientLiquidity));
    assert_eq!(
        p.partial_withdraw(vec![id], units(50)),
        Err(FlashLoanError::InsufficientLiquidity)
    );
    assert_eq!(
        p.withdraw_owner_rewards(),
        Err(FlashLoanError::AccountingInconsistency)
    );
    assert!(matches!(p.get_loan(units(41)), Err(FlashLoanError::InsufficientLiquidity)));
    p.return_loan(units(61), marker).unwrap();
    assert_eq!(p.withdraw_funds(vec![id]), Ok(units(100)));
}

#[test]
fn distribution_without_claims_is_refused() {
    let mut p = pool(units(1), units(1));
    assert_eq!(p.distribute_rewards(), Err(FlashLoanError::DivisionByZero));
}

#[test]
fn deposit_beyond_range_is_refused() {
    let mut p = pool(units(1), units(1));
    p.add_funds(Amount::from_attos(u128::MAX - 5), 0).unwrap();
    assert_eq!(p.add_funds(Amount::from_attos(6), 0), Err(FlashLoanError::ArithmeticOverflow));
    assert_eq!(p.total_claims(), Amount::from_attos(u128::MAX - 5));
}

#[test]
fn fixed_point_product_and_quotient() {
    let a = Amount::from_attos(3 * ONE / 2);
    assert_eq!(a.checked_mul(units(2)), Some(units(3)));
    assert_eq!(units(1).checked_div(units(3)), Some(Amount::from_attos(333_333_333_333_333_333)));
    assert_eq!(units(1).checked_div(Amount::zero()), None);
    assert_eq!(Amount::from_attos(u128::MAX).checked_mul(units(2)), None);
    assert_eq!(Amount::from_attos(7).checked_mul(Amount::from_attos(7)), Some(Amount::zero()));
    assert_eq!(units(2).checked_add(units(3)), Some(units(5)));
    assert_eq!(units(2).checked_sub(units(3)), None);
}

#[test]
fn partial_withdraw_beyond_range_is_refused() {
    let mut p = pool(units(1), units(1));
    let big = Amount::from_attos(u128::MAX / 50);
    let id = p.add_funds(big, 0).unwrap();
    assert_eq!(
        p.partial_withdraw(vec![id], units(100)),
        Err(FlashLoanError::ArithmeticOverflow)
    );
    assert_eq!(p.position(id).unwrap().current_amount, big);
    let (out, _) = p.partial_withdraw(vec![id], units(1)).unwrap();
    assert_eq!(out.attos(), (u128::MAX / 50) / 100);
}

#[test]
fn distribution_rate_beyond_range_is_refused() {
    let mut p = pool(units(50), units(50));
    let a = p.add_funds(units(1000), 0).unwrap();
    let b = p.add_funds(Amount::from_attos(1), 0).unwrap();
    let (_, marker) = p.get_loan(units(1000)).unwrap();
    p.return_loan(units(1500), marker).unwrap();
    p.withdraw_funds(vec![a]).unwrap();
    assert_eq!(p.total_claims(), Amount::from_attos(1));
    assert_eq!(p.pending_rewards(), units(500));
    assert_eq!(p.distribute_rewards(), Err(FlashLoanError::ArithmeticOverflow));
    assert_eq!(p.position(b).unwrap().current_amount, Amount::from_attos(1));
}
