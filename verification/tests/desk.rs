use candid::Principal;
use lend_backend::borrowing::BorrowingContract;
use lend_backend::borrowing::LoanRequest;
use lend_backend::borrowing::PairQuote;
use lend_backend::lending::LoanStatus;
use lend_backend::types::LendError;
use lend_backend::utils::ExchangeRate;

fn member(tag: u8) -> Principal {
    Principal::from_slice(&[5, tag])
}

fn at(numerator: u64, denominator: u64) -> Option<ExchangeRate> {
    Some(ExchangeRate { numerator, denominator })
}

fn ask(borrower: Principal, amount: u64, collateral_amount: u64) -> LoanRequest {
    LoanRequest { borrower, token_id: 1, amount, collateral_asset: 2, collateral_amount, term: 30 }
}

fn desk_with_collateral(owner: Principal, amount: u64) -> BorrowingContract {
    let mut desk = BorrowingContract::new(5_000, 8_000);
    desk.deposit_collateral(owner, 2, amount).unwrap();
    desk
}

#[test]
fn request_loan_locks_the_pledge_and_books_the_loan() {
    let user = member(1);
    let mut desk = desk_with_collateral(user, 1_500);
    assert_eq!(desk.request_loan(ask(user, 400, 1_000), member(9), 750, at(1, 1), 4), Ok(0));
    let loan = desk.get_loan(0).unwrap();
    assert_eq!(loan.borrower, user);
    assert_eq!(loan.lender, member(9));
    assert_eq!(loan.token_id, 1);
    assert_eq!(loan.amount, 400);
    assert_eq!(loan.balance, 400);
    assert_eq!(loan.interest_rate, 750);
    assert_eq!(loan.collateral_asset, 2);
    assert_eq!(loan.collateral_lock, 0);
    assert_eq!(loan.opened_on, 4);
    assert_eq!(loan.status, LoanStatus::Active);
    let lock = desk.get_locked_collateral(0).unwrap();
    assert_eq!((lock.owner, lock.asset, lock.amount), (user, 2, 1_000));
    let record = desk.get_collateral_record(user, 2).unwrap();
    assert_eq!((record.free, record.locked), (500, 1_000));
    assert_eq!(desk.request_loan(ask(user, 250, 500), member(9), 750, at(1, 1), 5), Ok(1));
    assert_eq!(desk.get_loan(1).unwrap().collateral_lock, 1);
    assert_eq!(desk.get_collateral_amount(user, 2), 0);
    assert_eq!(desk.active_loans(), vec![0, 1]);
}

#[test]
fn request_loan_reports_each_failure_and_changes_nothing() {
    let user = member(1);
    let mut desk = desk_with_collateral(user, 1_000);
    assert_eq!(desk.request_loan(ask(user, 0, 1_000), member(9), 0, at(1, 1), 0), Err(LendError::InvalidAmount));
    assert_eq!(desk.request_loan(ask(user, 400, 0), member(9), 0, at(1, 1), 0), Err(LendError::InvalidAmount));
    assert_eq!(
        desk.request_loan(ask(user, 400, 1_001), member(9), 0, at(1, 1), 0),
        Err(LendError::InsufficientCollateral)
    );
    assert_eq!(
        desk.request_loan(ask(member(2), 400, 1_000), member(9), 0, at(1, 1), 0),
        Err(LendError::InsufficientCollateral)
    );
    assert_eq!(desk.request_loan(ask(user, 400, 1_000), member(9), 0, None, 0), Err(LendError::OracleUnavailable));
    assert_eq!(
        desk.request_loan(ask(user, 400, 1_000), member(9), 0, at(1, 0), 0),
        Err(LendError::OracleUnavailable)
    );
    assert_eq!(
        desk.request_loan(ask(user, 400, 1_000), member(9), 0, at(799, 1_000), 0),
        Err(LendError::InsufficientCollateral)
    );
    assert_eq!(desk.get_collateral_amount(user, 2), 1_000);
    assert_eq!(desk.get_locked_collateral(0), None);
    assert_eq!(desk.get_loan(0), Err(LendError::LoanNotFound));
    assert_eq!(desk.request_loan(ask(user, 400, 1_000), member(9), 0, at(800, 1_000), 0), Ok(0));
}

#[test]
fn ltv_limit_applies_to_the_truncated_value() {
    let user = member(1);
    let mut desk = desk_with_collateral(user, 3);
    // 3 units at 1/2 are worth 1, of which half backs nothing.
    assert_eq!(
        desk.request_loan(ask(user, 1, 3), member(9), 0, at(1, 2), 0),
        Err(LendError::InsufficientCollateral)
    );
    // 3 units at 2/3 are worth 2, of which half backs a loan of 1.
    assert_eq!(desk.request_loan(ask(user, 1, 3), member(9), 0, at(2, 3), 0), Ok(0));
}

#[test]
fn amount_due_follows_the_calendar() {
    let user = member(1);
    let mut desk = desk_with_collateral(user, 1_000);
    desk.request_loan(ask(user, 400, 1_000), member(9), 1_000, at(1, 1), 100).unwrap();
    assert_eq!(desk.amount_due(0, 100), Ok(400));
    assert_eq!(desk.amount_due(0, 130), Ok(403));
    assert_eq!(desk.amount_due(0, 50), Ok(400));
    assert_eq!(desk.amount_due(1, 130), Err(LendError::LoanNotFound));
    desk.repay_loan(0, 500, 130).unwrap();
    assert_eq!(desk.amount_due(0, 130), Err(LendError::LoanNotActive));
}

#[test]
fn partial_repayment_keeps_the_loan_and_the_pledge() {
    let user = member(1);
    let mut desk = desk_with_collateral(user, 1_000);
    desk.request_loan(ask(user, 400, 1_000), member(9), 1_000, at(1, 1), 0).unwrap();
    assert_eq!(desk.repay_loan(0, 100, 30), Ok(100));
    let loan = desk.get_loan(0).unwrap();
    assert_eq!(loan.balance, 303);
    assert_eq!(loan.accrued_on, 30);
    assert_eq!(loan.status, LoanStatus::Active);
    assert_eq!(desk.get_locked_collateral(0).unwrap().amount, 1_000);
    assert_eq!(desk.get_collateral_amount(user, 2), 0);
    // Interest keeps accruing on the principal, not on the balance.
    assert_eq!(desk.amount_due(0, 60), Ok(306));
}

#[test]
fn full_repayment_closes_the_loan_and_releases_only_its_pledge() {
    let user = member(1);
    let mut desk = desk_with_collateral(user, 1_500);
    desk.request_loan(ask(user, 400, 1_000), member(9), 1_000, at(1, 1), 0).unwrap();
    desk.request_loan(ask(user, 100, 500), member(9), 1_000, at(1, 1), 0).unwrap();
    assert_eq!(desk.repay_loan(0, u64::MAX, 30), Ok(403));
    let loan = desk.get_loan(0).unwrap();
    assert_eq!(loan.status, LoanStatus::Repaid);
    assert_eq!(loan.balance, 0);
    assert_eq!(loan.accrued_on, 30);
    assert_eq!(desk.get_locked_collateral(0).unwrap().amount, 0);
    assert_eq!(desk.get_locked_collateral(1).unwrap().amount, 500);
    let record = desk.get_collateral_record(user, 2).unwrap();
    assert_eq!((record.free, record.locked), (1_000, 500));
    assert_eq!(desk.active_loans(), vec![1]);
    assert_eq!(desk.repay_loan(0, 1, 31), Err(LendError::LoanNotActive));
}

#[test]
fn desk_repayment_reports_each_failure() {
    let user = member(1);
    let mut desk = desk_with_collateral(user, u64::MAX);
    desk.request_loan(ask(user, u64::MAX, u64::MAX), member(9), 3_650_000, at(2, 1), 0).unwrap();
    assert_eq!(desk.repay_loan(3, 1, 0), Err(LendError::LoanNotFound));
    assert_eq!(desk.repay_loan(0, 0, 0), Err(LendError::InvalidAmount));
    // One day of interest at this rate doubles the debt past 64 bits.
    assert_eq!(desk.repay_loan(0, 1, 1), Err(LendError::InvalidAmount));
    assert_eq!(desk.amount_due(0, 1), Err(LendError::InvalidAmount));
    assert_eq!(desk.liquidate(0, at(2, 1), 1), Err(LendError::InvalidAmount));
    assert_eq!(desk.get_loan(0).unwrap().balance, u64::MAX);
    assert_eq!(desk.repay_loan(0, 1, 0), Ok(1));
    assert_eq!(desk.get_loan(0).unwrap().balance, u64::MAX - 1);
}

#[test]
fn liquidate_spares_a_loan_within_the_threshold() {
    let user = member(1);
    let mut desk = desk_with_collateral(user, 1_000);
    desk.request_loan(ask(user, 400, 1_000), member(9), 1_000, at(1, 1), 0).unwrap();
    let before = desk.get_loan(0).unwrap();
    assert_eq!(desk.liquidate(0, at(500, 1_000), 0), Ok(false));
    assert_eq!(desk.liquidate(0, at(1, 1), 3_000), Ok(false));
    assert_eq!(desk.get_loan(0).unwrap(), before);
    assert_eq!(desk.get_locked_collateral(0).unwrap().amount, 1_000);
    assert_eq!(desk.get_collateral_amount(user, 2), 0);
}

#[test]
fn liquidate_settles_a_loan_above_the_threshold() {
    let user = member(1);
    let mut desk = desk_with_collateral(user, 1_200);
    desk.request_loan(ask(user, 400, 1_000), member(9), 1_000, at(1, 1), 0).unwrap();
    assert_eq!(desk.liquidate(0, at(499, 1_000), 0), Ok(true));
    let loan = desk.get_loan(0).unwrap();
    assert_eq!(loan.status, LoanStatus::Liquidated);
    assert_eq!(loan.balance, 0);
    assert_eq!(loan.realized_loss, 0);
    // ceil(400 * 1000 / 499) = 802 are taken; 198 return to the 200 that were free.
    let record = desk.get_collateral_record(user, 2).unwrap();
    assert_eq!((record.free, record.locked), (398, 0));
    assert_eq!(desk.get_locked_collateral(0).unwrap().amount, 0);
    assert!(desk.active_loans().is_empty());
}

#[test]
fn sweep_resolves_exactly_the_loans_in_violation() {
    let mut desk = BorrowingContract::new(5_000, 8_000);
    for tag in 1..=4u8 {
        desk.deposit_collateral(member(tag), 2, 1_000).unwrap();
        desk.deposit_collateral(member(tag), 3, 1_000).unwrap();
    }
    // Loans 0 and 2 are backed by asset 2, loans 1 and 3 by asset 3.
    for tag in 1..=4u8 {
        let asset = if tag % 2 == 1 { 2 } else { 3 };
        let request = LoanRequest {
            borrower: member(tag),
            token_id: 1,
            amount: 100 * tag as u64,
            collateral_asset: asset,
            collateral_amount: 1_000,
            term: 30,
        };
        desk.request_loan(request, member(9), 0, at(1, 1), 0).unwrap();
    }
    // Loan 2 was repaid before the sweep.
    desk.repay_loan(2, 300, 0).unwrap();
    let rates = vec![
        // Asset 2 is worth 110: loan 0 owes 100 against 110 and is in violation.
        PairQuote { collateral_asset: 2, token_id: 1, rate: ExchangeRate { numerator: 110, denominator: 1_000 } },
        // Asset 3 is worth 300: loan 1 owes 200 (healthy), loan 3 owes 400 (violation).
        PairQuote { collateral_asset: 3, token_id: 1, rate: ExchangeRate { numerator: 300, denominator: 1_000 } },
    ];
    let healthy_before = desk.get_loan(1).unwrap();
    let repaid_before = desk.get_loan(2).unwrap();
    assert_eq!(desk.sweep(&rates, 0), vec![0, 3]);
    assert_eq!(desk.get_loan(0).unwrap().status, LoanStatus::Liquidated);
    assert_eq!(desk.get_loan(0).unwrap().realized_loss, 0);
    assert_eq!(desk.get_loan(1).unwrap(), healthy_before);
    assert_eq!(desk.get_loan(2).unwrap(), repaid_before);
    assert_eq!(desk.get_loan(3).unwrap().status, LoanStatus::Liquidated);
    assert_eq!(desk.get_loan(3).unwrap().realized_loss, 100);
    assert_eq!(desk.get_locked_collateral(1).unwrap().amount, 1_000);
    // ceil(100 * 1000 / 110) = 910 taken from loan 0, 90 returned.
    assert_eq!(desk.get_collateral_amount(member(1), 2), 90);
    assert_eq!(desk.get_collateral_amount(member(4), 3), 0);
    assert_eq!(desk.active_loans(), vec![1]);
    assert!(desk.sweep(&rates, 0).is_empty());
    assert_eq!(desk.get_collateral_amount(member(1), 2), 90);
    assert_eq!(desk.active_loans(), vec![1]);
}

#[test]
fn sweep_of_an_empty_desk_resolves_nothing() {
    let mut desk = BorrowingContract::new(5_000, 8_000);
    assert!(desk.sweep(&Vec::new(), 0).is_empty());
    assert!(desk.active_loans().is_empty());
}

#[test]
fn desk_collateral_operations_match_the_vault() {
    let user = member(1);
    let mut desk = BorrowingContract::new(5_000, 8_000);
    assert_eq!(desk.deposit_collateral(user, 2, 0), Err(LendError::InvalidAmount));
    assert_eq!(desk.deposit_collateral(user, 2, 10), Ok(()));
    assert_eq!(desk.withdraw_collateral(user, 2, 11), Err(LendError::InsufficientCollateral));
    assert_eq!(desk.withdraw_collateral(user, 2, 4), Ok(()));
    assert_eq!(desk.get_collateral_amount(user, 2), 6);
    assert_eq!(desk.get_collateral_record(member(2), 2), None);
}

#[test]
fn desk_reads_a_loan_as_of_a_day() {
    let user = member(1);
    let mut desk = desk_with_collateral(user, 1_000);
    desk.request_loan(ask(user, 400, 1_000), member(9), 1_000, at(1, 1), 100).unwrap();
    assert_eq!(desk.get_loan_on(0, 130).unwrap().balance, 403);
    assert_eq!(desk.get_loan(0).unwrap().balance, 400);
    assert_eq!(desk.get_loan_on(1, 130), Err(LendError::LoanNotFound));
}
