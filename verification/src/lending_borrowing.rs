//! The lending service: the token ledger and the loan desk behind one set of
//! operations.
//!
//! Lenders fund a treasury account and hold what they lent as collateral;
//! borrowers draw on the treasury against collateral and pay back into it.
//! Each operation either takes effect as a whole or leaves the service as it
//! was.  The service never asks for an exchange rate itself: a borrow is
//! prepared, the caller fetches the rate, and the borrow is then completed
//! against whatever the state has become in the meantime.  A caller that
//! holds the rate already borrows in one step.

use vstd::prelude::*;
use candid::Principal;
use crate::borrowing::BorrowingContract;
use crate::borrowing::DeskView;
use crate::borrowing::LoanRequest;
use crate::borrowing::PairQuote;
use crate::borrowing::active_among;
use crate::collateral::Collateral;
use crate::collateral::CollateralLock;
use crate::lending::accrual_outcome;
use crate::lending::loan_on;
use crate::lending::Loan;
use crate::token::LedgerView;
use crate::token::TokenLedger;
use crate::types::LendError;
use crate::utils::ExchangeRate;

verus! {

/// What the service holds: the ledger, the desk, the account that funds loans
/// and takes repayments, and the interest rate of new loans in basis points
/// per annum.
pub struct ServiceView {
    pub ledger: LedgerView,
    pub desk: DeskView,
    pub treasury: Principal,
    pub interest_rate: u64,
}

impl ServiceView {
    /// The ledger and the desk are well-formed.
    pub open spec fn wf(self) -> bool {
        self.ledger.wf() && self.desk.wf()
    }

    /// What `lend_tokens` answers.  The lender must hold the amount, which
    /// must not be zero, and the lender's position in the token must be able
    /// to take it.
    pub open spec fn lend_outcome(self, token_id: u64, lender: Principal, amount: u64) -> Result<(), LendError> {
        if amount == 0 {
            Err(LendError::InvalidAmount)
        } else if self.ledger.debit_outcome(token_id, lender, amount) is Err {
            self.ledger.debit_outcome(token_id, lender, amount)
        } else {
            self.desk.vault.deposit_outcome(lender, token_id, amount)
        }
    }

    /// The service after `lend_tokens`: the amount has moved from the lender
    /// to the treasury, and is booked as free collateral of the lender in
    /// that token, added to what the lender's position already holds.
    pub open spec fn lent(self, token_id: u64, lender: Principal, amount: u64) -> ServiceView {
        if self.lend_outcome(token_id, lender, amount) is Ok {
            ServiceView {
                ledger: self.ledger.transferred(token_id, lender, self.treasury, amount),
                desk: DeskView { vault: self.desk.vault.deposited(lender, token_id, amount), ..self.desk },
                ..self
            }
        } else {
            self
        }
    }

    /// What `borrow` answers: the id of the new loan.  What the service alone
    /// can tell comes first; a request that is ready still needs a usable
    /// quote and a principal within the loan-to-value limit.
    pub open spec fn direct_borrow_outcome(self, request: LoanRequest, quote: Option<ExchangeRate>) -> Result<
        u64,
        LendError,
    > {
        match self.borrow_ready(request) {
            Err(e) => Err(e),
            Ok(_) => self.desk.request_outcome(request, quote),
        }
    }

    /// Whether a loan can be made as far as the service alone can tell:
    /// neither amount is zero, the pledge is free collateral of the borrower,
    /// and the treasury holds the principal.
    pub open spec fn borrow_ready(self, request: LoanRequest) -> Result<(), LendError> {
        if request.amount == 0 || request.collateral_amount == 0 {
            Err(LendError::InvalidAmount)
        } else if request.collateral_amount > self.desk.vault.free(request.borrower, request.collateral_asset) {
            Err(LendError::InsufficientCollateral)
        } else if request.amount > self.ledger.balance_of(request.token_id, self.treasury) {
            Err(LendError::InsufficientBalance)
        } else {
            Ok(())
        }
    }

    /// What `borrow_tokens` answers: the id of the new loan.  A request that
    /// is no longer ready is stale; one that is ready still needs a usable
    /// quote and a principal within the loan-to-value limit.
    pub open spec fn borrow_outcome(self, request: LoanRequest, quote: Option<ExchangeRate>) -> Result<
        u64,
        LendError,
    > {
        if self.borrow_ready(request) is Err {
            Err(LendError::StaleState)
        } else {
            self.desk.request_outcome(request, quote)
        }
    }

    /// The service after `borrow_tokens`: the loan is made and the principal
    /// has moved from the treasury to the borrower.
    pub open spec fn borrowed(self, request: LoanRequest, quote: Option<ExchangeRate>, now: u64) -> ServiceView {
        if self.borrow_outcome(request, quote) is Ok {
            ServiceView {
                ledger: self.ledger.transferred(request.token_id, self.treasury, request.borrower, request.amount),
                desk: self.desk.originated(request, self.treasury, self.interest_rate, quote, now),
                ..self
            }
        } else {
            self
        }
    }

    /// What `repay_loan` answers.  The borrower must hold what is paid: the
    /// amount offered or, if that is less, all that the loan owes.
    pub open spec fn repay_outcome(self, loan_id: u64, amount: u64, now: u64) -> Result<(), LendError> {
        match self.desk.repay_outcome(loan_id, amount, now) {
            Err(e) => Err(e),
            Ok(paid) => {
                let loan = self.desk.loans[loan_id as int];
                if paid > self.ledger.balance_of(loan.token_id, loan.borrower) {
                    Err(LendError::InsufficientBalance)
                } else {
                    Ok(())
                }
            },
        }
    }

    /// The service after `repay_loan`: the payment has moved from the
    /// borrower to the treasury and is taken off the loan.
    pub open spec fn repaid(self, loan_id: u64, amount: u64, now: u64) -> ServiceView {
        if self.repay_outcome(loan_id, amount, now) is Ok {
            let loan = self.desk.loans[loan_id as int];
            ServiceView {
                ledger: self.ledger.transferred(
                    loan.token_id,
                    loan.borrower,
                    self.treasury,
                    self.desk.repay_outcome(loan_id, amount, now)->Ok_0,
                ),
                desk: self.desk.repaid(loan_id, amount, now),
                ..self
            }
        } else {
            self
        }
    }

    /// Lending, borrowing and repaying move tokens without making or losing
    /// any: after each, the balances of every token still add up to its total
    /// supply.
    pub proof fn lemma_service_conserves_supply(
        self,
        token_id: u64,
        lender: Principal,
        request: LoanRequest,
        quote: Option<ExchangeRate>,
        loan_id: u64,
        amount: u64,
        now: u64,
    )
        requires
            self.wf(),
        ensures
            self.lent(token_id, lender, amount).ledger.wf(),
            self.borrowed(request, quote, now).ledger.wf(),
            self.repaid(loan_id, amount, now).ledger.wf(),
    {
        self.ledger.lemma_moves_conserve(token_id, lender, lender, self.treasury, amount);
        self.ledger.lemma_moves_conserve(
            request.token_id,
            self.treasury,
            self.treasury,
            request.borrower,
            request.amount,
        );
        if self.repay_outcome(loan_id, amount, now) is Ok {
            let loan = self.desk.loans[loan_id as int];
            self.ledger.lemma_moves_conserve(
                loan.token_id,
                loan.borrower,
                loan.borrower,
                self.treasury,
                self.desk.repay_outcome(loan_id, amount, now)->Ok_0,
            );
        }
    }

    /// No operation of the service ever answers `InvariantViolation`.
    pub proof fn lemma_never_invariant_violation(
        self,
        name: Seq<char>,
        token_id: u64,
        owner: Principal,
        asset: u64,
        request: LoanRequest,
        quote: Option<ExchangeRate>,
        loan_id: u64,
        amount: u64,
        now: u64,
    )
        ensures
            self.ledger.create_outcome(name) != Err::<u64, LendError>(LendError::InvariantViolation),
            self.ledger.mint_outcome(token_id, owner, amount) != Err::<(), LendError>(
                LendError::InvariantViolation,
            ),
            self.ledger.debit_outcome(token_id, owner, amount) != Err::<(), LendError>(
                LendError::InvariantViolation,
            ),
            self.lend_outcome(token_id, owner, amount) != Err::<(), LendError>(LendError::InvariantViolation),
            self.desk.vault.deposit_outcome(owner, asset, amount) != Err::<(), LendError>(
                LendError::InvariantViolation,
            ),
            self.desk.vault.withdraw_outcome(owner, asset, amount) != Err::<(), LendError>(
                LendError::InvariantViolation,
            ),
            self.borrow_ready(request) != Err::<(), LendError>(LendError::InvariantViolation),
            self.borrow_outcome(request, quote) != Err::<u64, LendError>(LendError::InvariantViolation),
            self.repay_outcome(loan_id, amount, now) != Err::<(), LendError>(LendError::InvariantViolation),
            self.desk.liquidate_outcome(loan_id, quote, now) != Err::<bool, LendError>(
                LendError::InvariantViolation,
            ),
    {
    }

    /// What lending comes to.  The lender's tokens go to the treasury, and
    /// the lender's free collateral in that token grows by the amount, in the
    /// one position the lender has in it; nothing of it is locked, and no
    /// other holding changes.
    pub proof fn lemma_lending_books_collateral(self, token_id: u64, lender: Principal, amount: u64)
        requires
            self.wf(),
            self.lend_outcome(token_id, lender, amount) is Ok,
        ensures
            ({
                let after = self.lent(token_id, lender, amount);
                &&& after.desk.vault.position(lender, token_id) is Some
                &&& after.desk.vault.free(lender, token_id) == self.desk.vault.free(lender, token_id) + amount
                &&& after.desk.vault.locked(lender, token_id) == self.desk.vault.locked(lender, token_id)
                &&& forall|o: Principal, a: u64|
                    !(o == lender && a == token_id) ==> #[trigger] after.desk.vault.free(o, a)
                        == self.desk.vault.free(o, a)
                &&& after.desk.vault.locks == self.desk.vault.locks
                &&& after.desk.loans == self.desk.loans
                &&& lender != self.treasury ==> after.ledger.balance_of(token_id, lender)
                    == self.ledger.balance_of(token_id, lender) - amount && after.ledger.balance_of(
                    token_id,
                    self.treasury,
                ) == self.ledger.balance_of(token_id, self.treasury) + amount
                &&& lender == self.treasury ==> after.ledger.balance_of(token_id, lender)
                    == self.ledger.balance_of(token_id, lender)
            }),
    {
        let vault = self.desk.vault;
        vault.lemma_with_position(
            lender,
            token_id,
            (vault.free(lender, token_id) + amount) as u64,
            vault.locked(lender, token_id) as u64,
        );
        let token = self.ledger.tokens[token_id as int];
        let debited = token.with_balance(lender, (token.balance_of(lender) - amount) as u64);
        token.lemma_with_balance(lender, (token.balance_of(lender) - amount) as u64);
        debited.lemma_with_balance(self.treasury, (debited.balance_of(self.treasury) + amount) as u64);
        self.ledger.lemma_moves_conserve(token_id, lender, lender, self.treasury, amount);
        self.ledger.lemma_supply_conserved(token_id, self.treasury);
    }

    /// A borrow never locks collateral that is not free.  Where it succeeds,
    /// the pledge was free, it has left the free collateral and stands in one
    /// new lock of its own; where it fails, nothing has changed.
    pub proof fn lemma_borrow_locks_free_collateral(self, request: LoanRequest, quote: Option<ExchangeRate>, now: u64)
        requires
            self.wf(),
        ensures
            ({
                let after = self.borrowed(request, quote, now);
                let owner = request.borrower;
                let asset = request.collateral_asset;
                if self.borrow_outcome(request, quote) is Ok {
                    &&& request.collateral_amount <= self.desk.vault.free(owner, asset)
                    &&& after.desk.vault.free(owner, asset) == self.desk.vault.free(owner, asset)
                        - request.collateral_amount
                    &&& after.desk.vault.locked(owner, asset) == self.desk.vault.locked(owner, asset)
                        + request.collateral_amount
                    &&& after.desk.vault.locks == self.desk.vault.locks.push(
                        CollateralLock { owner, asset, amount: request.collateral_amount },
                    )
                } else {
                    after == self
                }
            }),
    {
        if self.borrow_outcome(request, quote) is Ok {
            let vault = self.desk.vault;
            let owner = request.borrower;
            let asset = request.collateral_asset;
            let moved = vault.with_position(
                owner,
                asset,
                (vault.free(owner, asset) - request.collateral_amount) as u64,
                (vault.locked(owner, asset) + request.collateral_amount) as u64,
            );
            vault.lemma_with_position(
                owner,
                asset,
                (vault.free(owner, asset) - request.collateral_amount) as u64,
                (vault.locked(owner, asset) + request.collateral_amount) as u64,
            );
            let after = self.borrowed(request, quote, now).desk.vault;
            vault.lemma_holding_fits(owner, asset);
            assert(after.positions == moved.positions);
            assert(after.free(owner, asset) == moved.free(owner, asset));
            assert(after.locked(owner, asset) == moved.locked(owner, asset));
        }
    }

    /// A withdrawal between the preparation of a borrow and its completion
    /// cannot make the borrow lock what has gone: where the free collateral
    /// no longer covers the pledge, the borrow is refused as stale and changes
    /// nothing.
    pub proof fn lemma_withdrawal_makes_borrow_stale(
        self,
        request: LoanRequest,
        withdrawn: u64,
        quote: Option<ExchangeRate>,
        now: u64,
    )
        requires
            self.wf(),
            self.borrow_ready(request) is Ok,
            self.desk.vault.withdraw_outcome(request.borrower, request.collateral_asset, withdrawn) is Ok,
            self.desk.vault.free(request.borrower, request.collateral_asset) - withdrawn
                < request.collateral_amount,
        ensures
            ({
                let meanwhile = ServiceView {
                    desk: DeskView {
                        vault: self.desk.vault.withdrawn(request.borrower, request.collateral_asset, withdrawn),
                        ..self.desk
                    },
                    ..self
                };
                &&& meanwhile.borrow_outcome(request, quote) == Err::<u64, LendError>(LendError::StaleState)
                &&& meanwhile.borrowed(request, quote, now) == meanwhile
            }),
    {
        let vault = self.desk.vault;
        let owner = request.borrower;
        let asset = request.collateral_asset;
        vault.lemma_with_position(
            owner,
            asset,
            (vault.free(owner, asset) - withdrawn) as u64,
            vault.locked(owner, asset) as u64,
        );
    }
}

/// The lending service.
pub struct LendingContract {
    ledger: TokenLedger,
    desk: BorrowingContract,
    treasury: Principal,
    interest_rate: u64,
}

impl LendingContract {
    /// What the service holds.
    pub closed spec fn view(&self) -> ServiceView {
        ServiceView {
            ledger: self.ledger@,
            desk: self.desk@,
            treasury: self.treasury,
            interest_rate: self.interest_rate,
        }
    }

    /// The service is well-formed when what it holds is.
    pub open spec fn wf(&self) -> bool {
        self@.wf()
    }

    /// A service without tokens, collateral or loans.  `treasury` is the
    /// account that funds loans; the limits and the interest rate are in basis
    /// points.
    pub fn new(treasury: Principal, max_ltv: u64, liquidation_threshold: u64, interest_rate: u64) -> (service:
        LendingContract)
        ensures
            service.wf(),
            service@.ledger.tokens.len() == 0,
            service@.desk.loans.len() == 0,
            service@.desk.vault.positions.len() == 0,
            service@.desk.vault.locks.len() == 0,
            service@.desk.max_ltv == max_ltv,
            service@.desk.liquidation_threshold == liquidation_threshold,
            service@.treasury == treasury,
            service@.interest_rate == interest_rate,
    {
        LendingContract {
            ledger: TokenLedger::new(),
            desk: BorrowingContract::new(max_ltv, liquidation_threshold),
            treasury,
            interest_rate,
        }
    }

    /// Creates a token called `name` whose whole `total_supply` is held by
    /// `owner`, the token's mint authority, and returns its id.
    pub fn create_token(&mut self, name: String, symbol: String, total_supply: u64, owner: Principal) -> (outcome:
        Result<u64, LendError>)
        requires
            old(self).wf(),
        ensures
            final(self).wf(),
            outcome == old(self)@.ledger.create_outcome(name@),
            final(self)@ == (ServiceView {
                ledger: old(self)@.ledger.created(name@, symbol@, total_supply, owner),
                ..old(self)@
            }),
    {
        self.ledger.create_token(name, symbol, total_supply, owner)
    }

    /// Puts `amount` new units of token `token_id` into the account of `to`.
    /// Only the token's owner may call this.
    pub fn mint_tokens(&mut self, token_id: u64, caller: Principal, to: Principal, amount: u64) -> (outcome: Result<
        (),
        LendError,
    >)
        requires
            old(self).wf(),
        ensures
            final(self).wf(),
            outcome == old(self)@.ledger.mint_outcome(token_id, caller, amount),
            final(self)@ == (ServiceView {
                ledger: old(self)@.ledger.minted(token_id, caller, to, amount),
                ..old(self)@
            }),
    {
        self.ledger.mint_tokens(token_id, caller, to, amount)
    }

    /// Takes `amount` units of token `token_id` out of the account of `owner`
    /// and out of circulation.
    pub fn burn_tokens(&mut self, token_id: u64, owner: Principal, amount: u64) -> (outcome: Result<(), LendError>)
        requires
            old(self).wf(),
        ensures
            final(self).wf(),
            outcome == old(self)@.ledger.debit_outcome(token_id, owner, amount),
            final(self)@ == (ServiceView { ledger: old(self)@.ledger.burned(token_id, owner, amount), ..old(self)@ }),
    {
        self.ledger.burn_tokens(token_id, owner, amount)
    }

    /// Moves `amount` units of token `token_id` from the account of `from` to
    /// that of `to`.
    pub fn transfer_tokens(&mut self, token_id: u64, from: Principal, to: Principal, amount: u64) -> (outcome:
        Result<(), LendError>)
        requires
            old(self).wf(),
        ensures
            final(self).wf(),
            outcome == old(self)@.ledger.debit_outcome(token_id, from, amount),
            final(self)@ == (ServiceView {
                ledger: old(self)@.ledger.transferred(token_id, from, to, amount),
                ..old(self)@
            }),
    {
        self.ledger.transfer_tokens(token_id, from, to, amount)
    }

    /// What `who` holds of token `token_id`.
    pub fn token_balance(&self, token_id: u64, who: Principal) -> (balance: u64)
        requires
            self.wf(),
        ensures
            balance == self@.ledger.balance_of(token_id, who),
    {
        self.ledger.balance_of(token_id, who)
    }

    /// The total supply of token `token_id`, if the token exists.
    pub fn token_supply(&self, token_id: u64) -> (supply: Option<u64>)
        ensures
            supply == if token_id < self@.ledger.tokens.len() {
                Some(self@.ledger.tokens[token_id as int].total_supply)
            } else {
                None
            },
    {
        self.ledger.total_supply(token_id)
    }

    /// The symbol of token `token_id`, if the token exists.
    pub fn token_symbol(&self, token_id: u64) -> (symbol: Option<String>)
        ensures
            symbol is Some <==> token_id < self@.ledger.tokens.len(),
            symbol matches Some(text) ==> text@ == self@.ledger.tokens[token_id as int].symbol,
    {
        self.ledger.token_symbol(token_id)
    }

    /// Adds `amount` to the free collateral of `owner` in `asset`.
    pub fn deposit_collateral(&mut self, owner: Principal, asset: u64, amount: u64) -> (outcome: Result<
        (),
        LendError,
    >)
        requires
            old(self).wf(),
        ensures
            final(self).wf(),
            outcome == old(self)@.desk.vault.deposit_outcome(owner, asset, amount),
            final(self)@ == (ServiceView {
                desk: DeskView { vault: old(self)@.desk.vault.deposited(owner, asset, amount), ..old(self)@.desk },
                ..old(self)@
            }),
    {
        self.desk.deposit_collateral(owner, asset, amount)
    }

    /// Takes `amount` out of the free collateral of `owner` in `asset`.
    /// Locked collateral cannot be withdrawn.
    pub fn withdraw_collateral(&mut self, owner: Principal, asset: u64, amount: u64) -> (outcome: Result<
        (),
        LendError,
    >)
        requires
            old(self).wf(),
        ensures
            final(self).wf(),
            outcome == old(self)@.desk.vault.withdraw_outcome(owner, asset, amount),
            final(self)@ == (ServiceView {
                desk: DeskView { vault: old(self)@.desk.vault.withdrawn(owner, asset, amount), ..old(self)@.desk },
                ..old(self)@
            }),
    {
        self.desk.withdraw_collateral(owner, asset, amount)
    }

    /// The position of `owner` in `asset`, if one was ever opened.
    pub fn get_collateral_record(&self, owner: Principal, asset: u64) -> (record: Option<Collateral>)
        requires
            self.wf(),
        ensures
            record == match self@.desk.vault.position(owner, asset) {
                Some(i) => Some(self@.desk.vault.positions[i]),
                None => None,
            },
    {
        self.desk.get_collateral_record(owner, asset)
    }

    /// The free collateral of `owner` in `asset`.
    pub fn get_collateral_amount(&self, owner: Principal, asset: u64) -> (amount: u64)
        requires
            self.wf(),
        ensures
            amount == self@.desk.vault.free(owner, asset),
    {
        self.desk.get_collateral_amount(owner, asset)
    }

    /// The collateral that stands behind loan `id`.
    pub fn get_locked_collateral(&self, id: u64) -> (locked: Option<CollateralLock>)
        ensures
            locked == if id < self@.desk.vault.locks.len() {
                Some(self@.desk.vault.locks[id as int])
            } else {
                None
            },
    {
        self.desk.get_locked_collateral(id)
    }

    /// The record of loan `id`.
    pub fn get_loan(&self, id: u64) -> (found: Result<Loan, LendError>)
        ensures
            found == if id < self@.desk.loans.len() {
                Ok::<Loan, LendError>(self@.desk.loans[id as int])
            } else {
                Err(LendError::LoanNotFound)
            },
    {
        self.desk.get_loan(id)
    }

    /// The record of loan `id` as it reads on day `now`: an active loan with
    /// its interest accrued up to that day, a closed loan as it was closed.
    /// Nothing is booked.
    pub fn get_loan_on(&self, id: u64, now: u64) -> (found: Result<Loan, LendError>)
        ensures
            found == loan_on(self@.desk.loans, id, now),
    {
        self.desk.get_loan_on(id, now)
    }

    /// What loan `loan_id` owes on day `now`: its balance and the interest
    /// since it last accrued.
    pub fn amount_due(&self, loan_id: u64, now: u64) -> (due: Result<u64, LendError>)
        ensures
            due == accrual_outcome(self@.desk.loans, loan_id, now),
    {
        self.desk.amount_due(loan_id, now)
    }

    /// The ids of the active loans, in rising order.
    pub fn active_loans(&self) -> (ids: Vec<u64>)
        ensures
            ids@ == active_among(self@.desk.loans, self@.desk.loans.len()),
    {
        self.desk.active_loans()
    }

    /// Moves `amount` units of token `token_id` from `lender` into the
    /// treasury, from which loans are paid out, and books the amount as free
    /// collateral of the lender in that token.
    pub fn lend_tokens(&mut self, token_id: u64, lender: Principal, amount: u64) -> (outcome: Result<(), LendError>)
        requires
            old(self).wf(),
        ensures
            final(self).wf(),
            outcome == old(self)@.lend_outcome(token_id, lender, amount),
            final(self)@ == old(self)@.lent(token_id, lender, amount),
    {
        if amount == 0 {
            return Err(LendError::InvalidAmount);
        }
        if token_id >= self.ledger.token_count() {
            return Err(LendError::TokenNotFound);
        }
        if amount > self.ledger.balance_of(token_id, lender) {
            return Err(LendError::InsufficientBalance);
        }
        self.desk.deposit_collateral(lender, token_id, amount)?;
        if self.ledger.transfer_tokens(token_id, lender, self.treasury, amount).is_err() {
            return Err(LendError::InvariantViolation);
        }
        Ok(())
    }

    /// Checks a borrow before the exchange rate is fetched, and returns the
    /// request to complete it with.
    pub fn prepare_borrow(
        &self,
        borrower: Principal,
        token_id: u64,
        amount: u64,
        collateral_asset: u64,
        collateral_amount: u64,
        term: u64,
    ) -> (prepared: Result<LoanRequest, LendError>)
        requires
            self.wf(),
        ensures
            ({
                let request = LoanRequest { borrower, token_id, amount, collateral_asset, collateral_amount, term };
                prepared == match self@.borrow_ready(request) {
                    Ok(_) => Ok::<LoanRequest, LendError>(request),
                    Err(e) => Err(e),
                }
            }),
    {
        let request = LoanRequest { borrower, token_id, amount, collateral_asset, collateral_amount, term };
        match self.check_ready(&request) {
            Ok(_) => Ok(request),
            Err(e) => Err(e),
        }
    }

    /// Makes a loan in one step, for a caller that holds the quoted rate from
    /// the collateral asset to the borrowed token already, and returns the id
    /// of the loan.
    pub fn borrow(
        &mut self,
        borrower: Principal,
        token_id: u64,
        amount: u64,
        collateral_asset: u64,
        collateral_amount: u64,
        term: u64,
        quote: Option<ExchangeRate>,
        now: u64,
    ) -> (outcome: Result<u64, LendError>)
        requires
            old(self).wf(),
        ensures
            final(self).wf(),
            outcome == old(self)@.direct_borrow_outcome(
                (LoanRequest { borrower, token_id, amount, collateral_asset, collateral_amount, term }),
                quote,
            ),
            final(self)@ == old(self)@.borrowed(
                (LoanRequest { borrower, token_id, amount, collateral_asset, collateral_amount, term }),
                quote,
                now,
            ),
    {
        let request: LoanRequest = self.prepare_borrow(
            borrower,
            token_id,
            amount,
            collateral_asset,
            collateral_amount,
            term,
        )?;
        self.borrow_tokens(request, quote, now)
    }

    /// Completes a prepared borrow on day `now` with the quoted rate from the
    /// collateral asset to the borrowed token, and returns the id of the loan.
    pub fn borrow_tokens(&mut self, request: LoanRequest, quote: Option<ExchangeRate>, now: u64) -> (outcome:
        Result<u64, LendError>)
        requires
            old(self).wf(),
        ensures
            final(self).wf(),
            outcome == old(self)@.borrow_outcome(request, quote),
            final(self)@ == old(self)@.borrowed(request, quote, now),
    {
        if self.check_ready(&request).is_err() {
            return Err(LendError::StaleState);
        }
        let id: u64 = self.desk.request_loan(request, self.treasury, self.interest_rate, quote, now)?;
        if self.ledger.transfer_tokens(request.token_id, self.treasury, request.borrower, request.amount).is_err() {
            return Err(LendError::InvariantViolation);
        }
        Ok(id)
    }

    /// Pays up to `amount` of the borrower's tokens towards loan `loan_id` on
    /// day `now`.
    pub fn repay_loan(&mut self, loan_id: u64, amount: u64, now: u64) -> (outcome: Result<(), LendError>)
        requires
            old(self).wf(),
        ensures
            final(self).wf(),
            outcome == old(self)@.repay_outcome(loan_id, amount, now),
            final(self)@ == old(self)@.repaid(loan_id, amount, now),
    {
        let due: u64 = self.desk.amount_due(loan_id, now)?;
        if amount == 0 {
            return Err(LendError::InvalidAmount);
        }
        let paid: u64 = if amount < due {
            amount
        } else {
            due
        };
        let loan: Loan = self.desk.get_loan(loan_id)?;
        proof {
            assert(self@.desk.backed(loan_id as int));
        }
        if paid > self.ledger.balance_of(loan.token_id, loan.borrower) {
            return Err(LendError::InsufficientBalance);
        }
        if self.ledger.transfer_tokens(loan.token_id, loan.borrower, self.treasury, paid).is_err() {
            return Err(LendError::InvariantViolation);
        }
        if self.desk.repay_loan(loan_id, amount, now).is_err() {
            return Err(LendError::InvariantViolation);
        }
        Ok(())
    }

    /// Liquidates loan `loan_id` on day `now` if it is in violation at the
    /// quoted rate from its collateral asset to its borrowed token, and says
    /// whether it did.
    pub fn liquidate_borrow_position(&mut self, loan_id: u64, quote: Option<ExchangeRate>, now: u64) -> (outcome:
        Result<bool, LendError>)
        requires
            old(self).wf(),
        ensures
            final(self).wf(),
            outcome == old(self)@.desk.liquidate_outcome(loan_id, quote, now),
            final(self)@ == (ServiceView { desk: old(self)@.desk.liquidated(loan_id, quote, now), ..old(self)@ }),
    {
        self.desk.liquidate(loan_id, quote, now)
    }

    /// Goes through every loan and liquidates those that are in violation on
    /// day `now` at the rate that `rates` gives for their pair.  Returns the
    /// ids of the loans that were liquidated.
    pub fn handle_margin_calls(&mut self, rates: &Vec<PairQuote>, now: u64) -> (resolved: Vec<u64>)
        requires
            old(self).wf(),
        ensures
            final(self).wf(),
            final(self)@ == (ServiceView {
                desk: old(self)@.desk.swept(rates@, now, old(self)@.desk.loans.len()),
                ..old(self)@
            }),
            resolved@ == old(self)@.desk.sweep_resolves(rates@, now, old(self)@.desk.loans.len()),
    {
        self.desk.sweep(rates, now)
    }

    /// Whether a borrow can be made as far as the service alone can tell.
    fn check_ready(&self, request: &LoanRequest) -> (ready: Result<(), LendError>)
        requires
            self.wf(),
        ensures
            ready == self@.borrow_ready(*request),
    {
        if request.amount == 0 || request.collateral_amount == 0 {
            return Err(LendError::InvalidAmount);
        }
        if request.collateral_amount > self.desk.get_collateral_amount(request.borrower, request.collateral_asset) {
            return Err(LendError::InsufficientCollateral);
        }
        if request.amount > self.ledger.balance_of(request.token_id, self.treasury) {
            return Err(LendError::InsufficientBalance);
        }
        Ok(())
    }
}

} // verus!
