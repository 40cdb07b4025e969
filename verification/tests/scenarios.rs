use candid::Principal;
use lend_backend::borrowing::PairQuote;
use lend_backend::lending::LoanStatus;
use lend_backend::lending_borrowing::LendingContract;
use lend_backend::types::LendError;
use lend_backend::utils::ExchangeRate;

const ASSET_C: u64 = 7;

fn who(tag: u8) -> Principal {
    Principal::from_slice(&[tag])
}

fn par() -> Option<ExchangeRate> {
    Some(ExchangeRate { numerator: 1, denominator: 1 })
}

/// A service with half LTV, 80% liquidation threshold and 10% interest, one
/// token B (id 0) minted by the issuer, and 10_000 B lent to the treasury.
fn funded_service() -> (LendingContract, u64) {
    let treasury = who(100);
    let issuer = who(1);
    let mut service = LendingContract::new(treasury, 5_000, 8_000, 1_000);
    let token_b = service
        .create_token("Bond".to_string(), "B".to_string(), 50_000, issuer)
        .unwrap();
    service.lend_tokens(token_b, issuer, 10_000).unwrap();
    (service, token_b)
}

fn borrow_400(service: &mut LendingContract, token_b: u64, user: Principal) -> u64 {
    service.deposit_collateral(user, ASSET_C, 1_000).unwrap();
    let request = service
        .prepare_borrow(user, token_b, 400, ASSET_C, 1_000, 30)
        .unwrap();
    service.borrow_tokens(request, par(), 0).unwrap()
}

#[test]
fn deposit_shows_as_free_collateral() {
    let (mut service, _) = funded_service();
    let user = who(2);
    assert_eq!(service.deposit_collateral(user, ASSET_C, 1_000), Ok(()));
    assert_eq!(service.get_collateral_amount(user, ASSET_C), 1_000);
    let record = service.get_collateral_record(user, ASSET_C).unwrap();
    assert_eq!(record.free, 1_000);
    assert_eq!(record.locked, 0);
    assert_eq!(record.owner, user);
    assert_eq!(record.asset, ASSET_C);
}

#[test]
fn borrow_within_half_ltv_succeeds_and_locks_whole_pledge() {
    let (mut service, token_b) = funded_service();
    let user = who(2);
    let id = borrow_400(&mut service, token_b, user);
    assert_eq!(id, 0);
    let loan = service.get_loan(id).unwrap();
    assert_eq!(loan.balance, 400);
    assert_eq!(loan.amount, 400);
    assert_eq!(loan.status, LoanStatus::Active);
    assert_eq!(loan.borrower, user);
    assert_eq!(loan.lender, who(100));
    assert_eq!(loan.interest_rate, 1_000);
    assert_eq!(loan.term, 30);
    assert_eq!(service.get_locked_collateral(id).unwrap().amount, 1_000);
    assert_eq!(service.get_collateral_amount(user, ASSET_C), 0);
    assert_eq!(service.get_collateral_record(user, ASSET_C).unwrap().locked, 1_000);
    assert_eq!(service.token_balance(token_b, user), 400);
    assert_eq!(service.token_balance(token_b, who(100)), 9_600);
}

#[test]
fn borrow_at_exactly_the_limit_succeeds() {
    let (mut service, token_b) = funded_service();
    let user = who(2);
    service.deposit_collateral(user, ASSET_C, 1_000).unwrap();
    let request = service.prepare_borrow(user, token_b, 500, ASSET_C, 1_000, 30).unwrap();
    assert_eq!(service.borrow_tokens(request, par(), 0), Ok(0));
}

#[test]
fn borrow_above_the_limit_is_refused() {
    let (mut service, token_b) = funded_service();
    let user = who(2);
    service.deposit_collateral(user, ASSET_C, 1_000).unwrap();
    let request = service.prepare_borrow(user, token_b, 501, ASSET_C, 1_000, 30).unwrap();
    assert_eq!(
        service.borrow_tokens(request, par(), 0),
        Err(LendError::InsufficientCollateral)
    );
    assert_eq!(service.get_collateral_amount(user, ASSET_C), 1_000);
    assert_eq!(service.token_balance(token_b, user), 0);
    assert_eq!(service.get_loan(0), Err(LendError::LoanNotFound));
}

#[test]
fn thirty_days_at_ten_percent_on_400_accrue_3() {
    let (mut service, token_b) = funded_service();
    let user = who(2);
    let id = borrow_400(&mut service, token_b, user);
    // A payment of 1 on day 30 first accrues 400 * 0.10 * 30 / 365 = 3.
    assert_eq!(service.repay_loan(id, 1, 30), Ok(()));
    let loan = service.get_loan(id).unwrap();
    assert_eq!(loan.balance, 402);
    assert_eq!(loan.accrued_on, 30);
    assert_eq!(loan.status, LoanStatus::Active);
}

#[test]
fn repaying_403_in_full_closes_the_loan_and_frees_the_pledge() {
    let (mut service, token_b) = funded_service();
    let user = who(2);
    let issuer = who(1);
    let id = borrow_400(&mut service, token_b, user);
    service.transfer_tokens(token_b, issuer, user, 3).unwrap();
    assert_eq!(service.repay_loan(id, 403, 30), Ok(()));
    let loan = service.get_loan(id).unwrap();
    assert_eq!(loan.status, LoanStatus::Repaid);
    assert_eq!(loan.balance, 0);
    assert_eq!(service.get_collateral_amount(user, ASSET_C), 1_000);
    assert_eq!(service.get_collateral_record(user, ASSET_C).unwrap().locked, 0);
    assert_eq!(service.get_locked_collateral(id).unwrap().amount, 0);
    assert_eq!(service.token_balance(token_b, user), 0);
    assert_eq!(service.token_balance(token_b, who(100)), 10_003);
}

#[test]
fn overpaying_takes_only_what_is_owed() {
    let (mut service, token_b) = funded_service();
    let user = who(2);
    let issuer = who(1);
    let id = borrow_400(&mut service, token_b, user);
    service.transfer_tokens(token_b, issuer, user, 600).unwrap();
    assert_eq!(service.repay_loan(id, 1_000, 30), Ok(()));
    assert_eq!(service.token_balance(token_b, user), 597);
    assert_eq!(service.get_loan(id).unwrap().status, LoanStatus::Repaid);
}

#[test]
fn price_drop_liquidates_and_returns_the_surplus() {
    let (mut service, token_b) = funded_service();
    let user = who(2);
    let id = borrow_400(&mut service, token_b, user);
    // 1000 C are now worth 450 B: 400 / 450 is above 0.8.
    let rates = vec![PairQuote {
        collateral_asset: ASSET_C,
        token_id: token_b,
        rate: ExchangeRate { numerator: 450, denominator: 1_000 },
    }];
    let resolved = service.handle_margin_calls(&rates, 0);
    assert_eq!(resolved, vec![id]);
    let loan = service.get_loan(id).unwrap();
    assert_eq!(loan.status, LoanStatus::Liquidated);
    assert_eq!(loan.balance, 0);
    assert_eq!(loan.realized_loss, 0);
    // 889 C cover the 400 B; the other 111 C (about 50 B) go back to the borrower.
    assert_eq!(service.get_collateral_amount(user, ASSET_C), 111);
    assert_eq!(service.get_collateral_record(user, ASSET_C).unwrap().locked, 0);
    assert_eq!(service.get_locked_collateral(id).unwrap().amount, 0);
    // The borrowed tokens stay where they are.
    assert_eq!(service.token_balance(token_b, user), 400);
}

#[test]
fn healthy_loan_is_not_touched_by_a_sweep() {
    let (mut service, token_b) = funded_service();
    let user = who(2);
    let id = borrow_400(&mut service, token_b, user);
    let before = service.get_loan(id).unwrap();
    // 1000 C worth 500 B: 400 / 500 is exactly 0.8, which is not above it.
    let rates = vec![PairQuote {
        collateral_asset: ASSET_C,
        token_id: token_b,
        rate: ExchangeRate { numerator: 500, denominator: 1_000 },
    }];
    let resolved = service.handle_margin_calls(&rates, 0);
    assert!(resolved.is_empty());
    let after = service.get_loan(id).unwrap();
    assert_eq!(after.status, LoanStatus::Active);
    assert_eq!(after.balance, before.balance);
    assert_eq!(after.accrued_on, before.accrued_on);
    assert_eq!(service.get_locked_collateral(id).unwrap().amount, 1_000);
}

#[test]
fn sweep_does_not_persist_interest_on_loans_it_spares() {
    let (mut service, token_b) = funded_service();
    let user = who(2);
    let id = borrow_400(&mut service, token_b, user);
    let rates = vec![PairQuote { collateral_asset: ASSET_C, token_id: token_b, rate: ExchangeRate { numerator: 1, denominator: 1 } }];
    assert!(service.handle_margin_calls(&rates, 300).is_empty());
    let loan = service.get_loan(id).unwrap();
    assert_eq!(loan.balance, 400);
    assert_eq!(loan.accrued_on, 0);
}

#[test]
fn second_sweep_resolves_nothing() {
    let (mut service, token_b) = funded_service();
    let first = borrow_400(&mut service, token_b, who(2));
    let second = borrow_400(&mut service, token_b, who(3));
    let rates = vec![PairQuote {
        collateral_asset: ASSET_C,
        token_id: token_b,
        rate: ExchangeRate { numerator: 450, denominator: 1_000 },
    }];
    assert_eq!(service.handle_margin_calls(&rates, 0), vec![first, second]);
    let free_after_first = service.get_collateral_amount(who(2), ASSET_C);
    assert!(service.handle_margin_calls(&rates, 0).is_empty());
    assert_eq!(service.get_collateral_amount(who(2), ASSET_C), free_after_first);
    assert_eq!(service.get_loan(first).unwrap().status, LoanStatus::Liquidated);
    // Not even at a worse rate on a later day.
    let worse = vec![PairQuote {
        collateral_asset: ASSET_C,
        token_id: token_b,
        rate: ExchangeRate { numerator: 1, denominator: 1_000 },
    }];
    assert!(service.handle_margin_calls(&worse, 90).is_empty());
}

#[test]
fn sweep_leaves_loans_without_a_quote() {
    let (mut service, token_b) = funded_service();
    let id = borrow_400(&mut service, token_b, who(2));
    let other_pair = vec![PairQuote {
        collateral_asset: ASSET_C + 1,
        token_id: token_b,
        rate: ExchangeRate { numerator: 1, denominator: 1_000 },
    }];
    assert!(service.handle_margin_calls(&other_pair, 0).is_empty());
    let unusable = vec![PairQuote {
        collateral_asset: ASSET_C,
        token_id: token_b,
        rate: ExchangeRate { numerator: 1, denominator: 0 },
    }];
    assert!(service.handle_margin_calls(&unusable, 0).is_empty());
    assert_eq!(service.get_loan(id).unwrap().status, LoanStatus::Active);
    assert_eq!(service.active_loans(), vec![id]);
}

#[test]
fn last_quote_for_a_pair_wins() {
    let (mut service, token_b) = funded_service();
    let id = borrow_400(&mut service, token_b, who(2));
    let rates = vec![
        PairQuote { collateral_asset: ASSET_C, token_id: token_b, rate: ExchangeRate { numerator: 450, denominator: 1_000 } },
        PairQuote { collateral_asset: ASSET_C, token_id: token_b, rate: ExchangeRate { numerator: 1, denominator: 1 } },
    ];
    assert!(service.handle_margin_calls(&rates, 0).is_empty());
    assert_eq!(service.get_loan(id).unwrap().status, LoanStatus::Active);
}

#[test]
fn shortfall_is_recorded_as_loss_and_the_loan_still_closes() {
    let (mut service, token_b) = funded_service();
    let user = who(2);
    let id = borrow_400(&mut service, token_b, user);
    // 1000 C are worth 300 B: 100 B of the debt stay uncovered.
    let quote = Some(ExchangeRate { numerator: 300, denominator: 1_000 });
    assert_eq!(service.liquidate_borrow_position(id, quote, 0), Ok(true));
    let loan = service.get_loan(id).unwrap();
    assert_eq!(loan.status, LoanStatus::Liquidated);
    assert_eq!(loan.realized_loss, 100);
    assert_eq!(loan.balance, 0);
    assert_eq!(service.get_collateral_amount(user, ASSET_C), 0);
    assert_eq!(service.get_collateral_record(user, ASSET_C).unwrap().locked, 0);
}

#[test]
fn liquidation_counts_interest_accrued_by_then() {
    let (mut service, token_b) = funded_service();
    let user = who(2);
    let id = borrow_400(&mut service, token_b, user);
    // After 365 days 440 B are owed.  At 540 B the pledge covers 432 B at 80%.
    let quote = Some(ExchangeRate { numerator: 540, denominator: 1_000 });
    assert_eq!(service.liquidate_borrow_position(id, quote, 0), Ok(false));
    assert_eq!(service.liquidate_borrow_position(id, quote, 365), Ok(true));
    let loan = service.get_loan(id).unwrap();
    assert_eq!(loan.accrued_on, 365);
    assert_eq!(loan.realized_loss, 0);
    // ceil(440 * 1000 / 540) = 815 C are taken.
    assert_eq!(service.get_collateral_amount(user, ASSET_C), 185);
}

#[test]
fn liquidating_one_position_reports_each_failure() {
    let (mut service, token_b) = funded_service();
    let user = who(2);
    let id = borrow_400(&mut service, token_b, user);
    assert_eq!(service.liquidate_borrow_position(9, par(), 0), Err(LendError::LoanNotFound));
    assert_eq!(service.liquidate_borrow_position(id, None, 0), Err(LendError::OracleUnavailable));
    assert_eq!(
        service.liquidate_borrow_position(id, Some(ExchangeRate { numerator: 1, denominator: 0 }), 0),
        Err(LendError::OracleUnavailable)
    );
    assert_eq!(service.liquidate_borrow_position(id, par(), 0), Ok(false));
    let low = Some(ExchangeRate { numerator: 1, denominator: 10 });
    assert_eq!(service.liquidate_borrow_position(id, low, 0), Ok(true));
    assert_eq!(service.liquidate_borrow_position(id, low, 0), Err(LendError::LoanNotActive));
}

#[test]
fn withdrawal_between_prepare_and_borrow_makes_the_borrow_stale() {
    let (mut service, token_b) = funded_service();
    let user = who(2);
    service.deposit_collateral(user, ASSET_C, 1_000).unwrap();
    let request = service.prepare_borrow(user, token_b, 400, ASSET_C, 1_000, 30).unwrap();
    // While the rate is being fetched the owner withdraws part of the pledge.
    service.withdraw_collateral(user, ASSET_C, 1).unwrap();
    assert_eq!(service.borrow_tokens(request, par(), 0), Err(LendError::StaleState));
    assert_eq!(service.get_collateral_amount(user, ASSET_C), 999);
    assert_eq!(service.get_collateral_record(user, ASSET_C).unwrap().locked, 0);
    assert_eq!(service.token_balance(token_b, user), 0);
    assert!(service.active_loans().is_empty());
}

#[test]
fn drained_treasury_between_prepare_and_borrow_makes_the_borrow_stale() {
    let (mut service, token_b) = funded_service();
    let user = who(2);
    service.deposit_collateral(user, ASSET_C, 1_000).unwrap();
    let request = service.prepare_borrow(user, token_b, 400, ASSET_C, 1_000, 30).unwrap();
    service.transfer_tokens(token_b, who(100), who(1), 9_700).unwrap();
    assert_eq!(service.borrow_tokens(request, par(), 0), Err(LendError::StaleState));
}

#[test]
fn the_same_collateral_cannot_back_two_loans() {
    let (mut service, token_b) = funded_service();
    let user = who(2);
    service.deposit_collateral(user, ASSET_C, 1_000).unwrap();
    let first = service.prepare_borrow(user, token_b, 100, ASSET_C, 1_000, 30).unwrap();
    let second = service.prepare_borrow(user, token_b, 100, ASSET_C, 1_000, 30).unwrap();
    assert_eq!(service.borrow_tokens(first, par(), 0), Ok(0));
    assert_eq!(service.borrow_tokens(second, par(), 0), Err(LendError::StaleState));
    assert_eq!(
        service.prepare_borrow(user, token_b, 100, ASSET_C, 1, 30),
        Err(LendError::InsufficientCollateral)
    );
    assert_eq!(service.withdraw_collateral(user, ASSET_C, 1), Err(LendError::InsufficientCollateral));
}

#[test]
fn prepare_borrow_reports_each_failure() {
    let (mut service, token_b) = funded_service();
    let user = who(2);
    service.deposit_collateral(user, ASSET_C, 1_000).unwrap();
    assert_eq!(service.prepare_borrow(user, token_b, 0, ASSET_C, 1_000, 30), Err(LendError::InvalidAmount));
    assert_eq!(service.prepare_borrow(user, token_b, 400, ASSET_C, 0, 30), Err(LendError::InvalidAmount));
    assert_eq!(
        service.prepare_borrow(user, token_b, 400, ASSET_C, 1_001, 30),
        Err(LendError::InsufficientCollateral)
    );
    assert_eq!(
        service.prepare_borrow(user, token_b, 10_001, ASSET_C, 1_000, 30),
        Err(LendError::InsufficientBalance)
    );
    assert_eq!(
        service.prepare_borrow(user, token_b + 1, 400, ASSET_C, 1_000, 30),
        Err(LendError::InsufficientBalance)
    );
    let request = service.prepare_borrow(user, token_b, 400, ASSET_C, 1_000, 30).unwrap();
    assert_eq!(request.borrower, user);
    assert_eq!(request.token_id, token_b);
    assert_eq!(request.amount, 400);
    assert_eq!(request.collateral_asset, ASSET_C);
    assert_eq!(request.collateral_amount, 1_000);
    assert_eq!(request.term, 30);
}

#[test]
fn borrow_without_a_usable_quote_is_refused() {
    let (mut service, token_b) = funded_service();
    let user = who(2);
    service.deposit_collateral(user, ASSET_C, 1_000).unwrap();
    let request = service.prepare_borrow(user, token_b, 400, ASSET_C, 1_000, 30).unwrap();
    assert_eq!(service.borrow_tokens(request, None, 0), Err(LendError::OracleUnavailable));
    assert_eq!(
        service.borrow_tokens(request, Some(ExchangeRate { numerator: 1, denominator: 0 }), 0),
        Err(LendError::OracleUnavailable)
    );
    assert_eq!(service.get_collateral_amount(user, ASSET_C), 1_000);
}

#[test]
fn repay_reports_each_failure() {
    let (mut service, token_b) = funded_service();
    let user = who(2);
    let id = borrow_400(&mut service, token_b, user);
    assert_eq!(service.repay_loan(5, 10, 0), Err(LendError::LoanNotFound));
    assert_eq!(service.repay_loan(id, 0, 0), Err(LendError::InvalidAmount));
    // The borrower holds 400 but owes 403 on day 30.
    assert_eq!(service.repay_loan(id, 403, 30), Err(LendError::InsufficientBalance));
    let loan = service.get_loan(id).unwrap();
    assert_eq!(loan.balance, 400);
    assert_eq!(loan.accrued_on, 0);
    assert_eq!(service.token_balance(token_b, user), 400);
    assert_eq!(service.repay_loan(id, 400, 0), Ok(()));
    assert_eq!(service.repay_loan(id, 1, 0), Err(LendError::LoanNotActive));
}

#[test]
fn lend_tokens_moves_funds_to_the_treasury() {
    let treasury = who(100);
    let issuer = who(1);
    let mut service = LendingContract::new(treasury, 5_000, 8_000, 1_000);
    let token = service.create_token("Bond".to_string(), "B".to_string(), 1_000, issuer).unwrap();
    assert_eq!(service.lend_tokens(token, issuer, 0), Err(LendError::InvalidAmount));
    assert_eq!(service.lend_tokens(token, issuer, 1_001), Err(LendError::InsufficientBalance));
    assert_eq!(service.lend_tokens(token + 1, issuer, 1), Err(LendError::TokenNotFound));
    assert_eq!(service.get_collateral_record(issuer, token), None);
    assert_eq!(service.lend_tokens(token, issuer, 300), Ok(()));
    assert_eq!(service.token_balance(token, issuer), 700);
    assert_eq!(service.token_balance(token, treasury), 300);
    assert_eq!(service.token_supply(token), Some(1_000));
    // What was lent is booked as free collateral of the lender in that token.
    assert_eq!(service.get_collateral_amount(issuer, token), 300);
    let record = service.get_collateral_record(issuer, token).unwrap();
    assert_eq!((record.id, record.free, record.locked), (0, 300, 0));
    assert_eq!(service.get_collateral_amount(treasury, token), 0);
}

#[test]
fn lending_adds_to_the_position_the_lender_already_has() {
    let treasury = who(100);
    let issuer = who(1);
    let mut service = LendingContract::new(treasury, 5_000, 8_000, 1_000);
    let token = service.create_token("Bond".to_string(), "B".to_string(), 1_000, issuer).unwrap();
    service.deposit_collateral(issuer, token, 45).unwrap();
    service.deposit_collateral(issuer, token + 1, 9).unwrap();
    assert_eq!(service.lend_tokens(token, issuer, 300), Ok(()));
    assert_eq!(service.lend_tokens(token, issuer, 5), Ok(()));
    assert_eq!(service.get_collateral_amount(issuer, token), 350);
    // Still the one position, and the other asset is as it was.
    assert_eq!(service.get_collateral_record(issuer, token).unwrap().id, 0);
    assert_eq!(service.get_collateral_amount(issuer, token + 1), 9);
    assert_eq!(service.token_balance(token, issuer), 695);
    assert_eq!(service.token_balance(token, treasury), 305);
}

#[test]
fn failed_lend_books_nothing() {
    let treasury = who(100);
    let issuer = who(1);
    let mut service = LendingContract::new(treasury, 5_000, 8_000, 1_000);
    let token = service.create_token("Bond".to_string(), "B".to_string(), 1_000, issuer).unwrap();
    assert_eq!(service.lend_tokens(token, issuer, 1_001), Err(LendError::InsufficientBalance));
    assert_eq!(service.lend_tokens(token, issuer, 0), Err(LendError::InvalidAmount));
    assert_eq!(service.get_collateral_record(issuer, token), None);
    // A position that cannot take the amount refuses it, and no token moves.
    service.deposit_collateral(issuer, token, u64::MAX - 10).unwrap();
    assert_eq!(service.lend_tokens(token, issuer, 11), Err(LendError::InvalidAmount));
    assert_eq!(service.get_collateral_amount(issuer, token), u64::MAX - 10);
    assert_eq!(service.token_balance(token, issuer), 1_000);
    assert_eq!(service.token_balance(token, treasury), 0);
    assert_eq!(service.lend_tokens(token, issuer, 10), Ok(()));
    assert_eq!(service.get_collateral_amount(issuer, token), u64::MAX);
    assert_eq!(service.token_balance(token, treasury), 10);
}

#[test]
fn lent_collateral_can_back_a_loan_of_the_lender() {
    let (mut service, token_b) = funded_service();
    let issuer = who(1);
    // The issuer lent 10_000 B, which stand as free collateral in B.
    assert_eq!(service.get_collateral_amount(issuer, token_b), 10_000);
    assert_eq!(service.borrow(issuer, token_b, 1_000, token_b, 2_000, 30, par(), 0), Ok(0));
    assert_eq!(service.get_collateral_amount(issuer, token_b), 8_000);
    assert_eq!(service.get_locked_collateral(0).unwrap().amount, 2_000);
}

#[test]
fn borrow_in_one_step_reports_the_true_reason() {
    let (mut service, token_b) = funded_service();
    let user = who(2);
    service.deposit_collateral(user, ASSET_C, 1_000).unwrap();
    assert_eq!(service.borrow(user, token_b, 0, ASSET_C, 1_000, 30, par(), 0), Err(LendError::InvalidAmount));
    assert_eq!(service.borrow(user, token_b, 400, ASSET_C, 0, 30, par(), 0), Err(LendError::InvalidAmount));
    assert_eq!(
        service.borrow(user, token_b, 400, ASSET_C, 1_001, 30, par(), 0),
        Err(LendError::InsufficientCollateral)
    );
    assert_eq!(
        service.borrow(user, token_b, 10_001, ASSET_C, 1_000, 30, par(), 0),
        Err(LendError::InsufficientBalance)
    );
    // What the service can tell by itself comes before the quote.
    assert_eq!(service.borrow(user, token_b, 0, ASSET_C, 1_000, 30, None, 0), Err(LendError::InvalidAmount));
    assert_eq!(service.borrow(user, token_b, 400, ASSET_C, 1_000, 30, None, 0), Err(LendError::OracleUnavailable));
    assert_eq!(
        service.borrow(user, token_b, 501, ASSET_C, 1_000, 30, par(), 0),
        Err(LendError::InsufficientCollateral)
    );
    assert_eq!(service.get_collateral_amount(user, ASSET_C), 1_000);
    assert!(service.active_loans().is_empty());
    assert_eq!(service.borrow(user, token_b, 400, ASSET_C, 1_000, 30, par(), 3), Ok(0));
    // The pledge is locked now: a second loan against it is refused as such.
    assert_eq!(
        service.borrow(user, token_b, 100, ASSET_C, 1_000, 30, par(), 3),
        Err(LendError::InsufficientCollateral)
    );
    let loan = service.get_loan(0).unwrap();
    assert_eq!((loan.balance, loan.opened_on, loan.term), (400, 3, 30));
    assert_eq!(service.token_balance(token_b, user), 400);
    assert_eq!(service.get_locked_collateral(0).unwrap().amount, 1_000);
}

#[test]
fn loan_reads_with_interest_accrued_to_the_day() {
    let (mut service, token_b) = funded_service();
    let user = who(2);
    let id = borrow_400(&mut service, token_b, user);
    let booked = service.get_loan(id).unwrap();
    assert_eq!(service.get_loan_on(id, 0), Ok(booked));
    let later = service.get_loan_on(id, 30).unwrap();
    assert_eq!(later.balance, 403);
    assert_eq!(later.accrued_on, 30);
    assert_eq!(later.status, LoanStatus::Active);
    assert_eq!(later.amount, 400);
    assert_eq!(service.get_loan_on(id, 365).unwrap().balance, 440);
    // Reading books nothing.
    assert_eq!(service.get_loan(id), Ok(booked));
    assert_eq!(service.get_loan_on(id + 1, 30), Err(LendError::LoanNotFound));
    // A closed loan reads as it was closed, whatever the day.
    service.repay_loan(id, 400, 0).unwrap();
    let closed = service.get_loan(id).unwrap();
    assert_eq!(closed.status, LoanStatus::Repaid);
    assert_eq!(service.get_loan_on(id, 9_000), Ok(closed));
}

#[test]
fn supply_is_conserved_across_a_loan_life_cycle() {
    let (mut service, token_b) = funded_service();
    let user = who(2);
    let issuer = who(1);
    let treasury = who(100);
    let total = |s: &LendingContract| {
        s.token_balance(token_b, user) + s.token_balance(token_b, issuer) + s.token_balance(token_b, treasury)
    };
    assert_eq!(total(&service), 50_000);
    let id = borrow_400(&mut service, token_b, user);
    assert_eq!(total(&service), 50_000);
    service.mint_tokens(token_b, issuer, user, 25).unwrap();
    assert_eq!(service.token_supply(token_b), Some(50_025));
    assert_eq!(total(&service), 50_025);
    service.repay_loan(id, 150, 10).unwrap();
    assert_eq!(total(&service), 50_025);
    service.burn_tokens(token_b, issuer, 1_000).unwrap();
    assert_eq!(service.token_supply(token_b), Some(49_025));
    assert_eq!(total(&service), 49_025);
}

#[test]
fn amount_due_shows_interest_without_booking_it() {
    let (mut service, token_b) = funded_service();
    let id = borrow_400(&mut service, token_b, who(2));
    assert_eq!(service.amount_due(id, 0), Ok(400));
    assert_eq!(service.amount_due(id, 30), Ok(403));
    assert_eq!(service.amount_due(id, 365), Ok(440));
    assert_eq!(service.get_loan(id).unwrap().balance, 400);
    assert_eq!(service.amount_due(id + 1, 30), Err(LendError::LoanNotFound));
}

#[test]
fn token_symbol_is_the_one_given_at_creation() {
    let (mut service, token_b) = funded_service();
    assert_eq!(service.token_symbol(token_b), Some("B".to_string()));
    let other = service.create_token("Coin".to_string(), "C".to_string(), 1, who(1)).unwrap();
    assert_eq!(service.token_symbol(other), Some("C".to_string()));
    assert_eq!(service.token_symbol(other + 1), None);
}
