//! The loan book: loan records, their one-way life cycle, and the interest
//! that accrues on them.

use vstd::prelude::*;
use vstd::arithmetic::div_mod::lemma_div_is_ordered;
use candid::Principal;
use crate::arith::lemma_product_fits;
use crate::types::LendError;

verus! {

/// Interest rates are given in basis points per annum.
pub const BASIS_POINTS: u64 = 10_000;

/// Interest is reckoned on a year of 365 days.
pub const DAYS_PER_YEAR: u64 = 365;

/// Simple interest on `principal` at `rate` basis points per annum over
/// `days` days, truncated.
pub open spec fn interest_due(principal: nat, rate: nat, days: nat) -> nat {
    (principal * rate * days) / ((BASIS_POINTS * DAYS_PER_YEAR) as nat)
}

/// Simple interest on `principal` at `interest_rate` basis points per annum
/// over `time_in_days` days, or `None` where it does not fit in 64 bits.
pub fn calculate_interest_rate(principal: u64, interest_rate: u64, time_in_days: u64) -> (interest: Option<u64>)
    ensures
        interest == if interest_due(principal as nat, interest_rate as nat, time_in_days as nat) <= u64::MAX {
            Some(interest_due(principal as nat, interest_rate as nat, time_in_days as nat) as u64)
        } else {
            None
        },
{
    proof {
        lemma_product_fits(principal, interest_rate);
    }
    let yearly: u128 = (principal as u128) * (interest_rate as u128);
    assert(BASIS_POINTS * DAYS_PER_YEAR == 3_650_000);
    let scale: u128 = (BASIS_POINTS as u128) * (DAYS_PER_YEAR as u128);
    match yearly.checked_mul(time_in_days as u128) {
        Some(total) => {
            let due: u128 = total / scale;
            assert(total == principal as nat * interest_rate as nat * time_in_days as nat);
            if due > u64::MAX as u128 {
                None
            } else {
                Some(due as u64)
            }
        },
        None => {
            proof {
                let total: int = (principal as nat * interest_rate as nat * time_in_days as nat) as int;
                assert(total > u128::MAX);
                lemma_div_is_ordered(u128::MAX as int, total, 3_650_000);
                assert(u128::MAX as int / 3_650_000 > u64::MAX);
            }
            None
        },
    }
}

/// Where a loan stands.  A loan starts `Active` and ends `Repaid` or
/// `Liquidated`; it never leaves either of those.
#[derive(Clone, Copy, Debug, PartialEq, Eq, Structural)]
pub enum LoanStatus {
    Active,
    Repaid,
    Liquidated,
}

/// One loan.  The collateral behind it is not copied here: `collateral_lock`
/// names the vault's lock that holds it.
#[derive(Clone, Copy, Debug, PartialEq, Eq)]
pub struct Loan {
    pub id: u64,
    pub borrower: Principal,
    pub lender: Principal,
    /// The token that was borrowed.
    pub token_id: u64,
    /// The principal that was disbursed.
    pub amount: u64,
    /// Basis points per annum.
    pub interest_rate: u64,
    /// Days.
    pub term: u64,
    /// Principal and accrued interest not yet repaid.
    pub balance: u64,
    pub collateral_asset: u64,
    pub collateral_lock: u64,
    /// The day the loan was made.
    pub opened_on: u64,
    /// The day up to which interest is in `balance`.
    pub accrued_on: u64,
    pub status: LoanStatus,
    /// Debt that liquidation could not cover.
    pub realized_loss: u64,
}

impl Loan {
    /// Whether the loan is still running.
    pub open spec fn is_active(self) -> bool {
        self.status == LoanStatus::Active
    }

    /// Days whose interest is not yet in the balance on day `now`.
    pub open spec fn days_unaccrued(self, now: u64) -> nat {
        if now > self.accrued_on {
            (now - self.accrued_on) as nat
        } else {
            0
        }
    }

    /// What is owed on day `now`: the balance and the interest since the last
    /// accrual.
    pub open spec fn balance_on(self, now: u64) -> nat {
        self.balance as nat + interest_due(self.amount as nat, self.interest_rate as nat, self.days_unaccrued(now))
    }

    /// The loan with its interest accrued up to day `now`.
    pub open spec fn accrued(self, now: u64) -> Loan {
        Loan {
            balance: self.balance_on(now) as u64,
            accrued_on: if now > self.accrued_on {
                now
            } else {
                self.accrued_on
            },
            ..self
        }
    }

    /// The loan with `amount` more owed.
    pub open spec fn charged(self, amount: u64) -> Loan {
        Loan { balance: (self.balance + amount) as u64, ..self }
    }

    /// The loan with `amount` less owed.
    pub open spec fn paid(self, amount: u64) -> Loan {
        Loan { balance: (self.balance - amount) as u64, ..self }
    }

    /// The loan closed as repaid.
    pub open spec fn settled(self) -> Loan {
        Loan { status: LoanStatus::Repaid, ..self }
    }

    /// The loan closed by liquidation, with `loss` of its debt uncovered.
    pub open spec fn written_off(self, loss: u64) -> Loan {
        Loan { balance: 0, realized_loss: loss, status: LoanStatus::Liquidated, ..self }
    }

    /// A record is sound at index `at` when it carries that id, owes nothing
    /// once closed, and shows a loss only if it was liquidated.
    pub open spec fn sound_at(self, at: int) -> bool {
        &&& self.id == at
        &&& self.amount > 0
        &&& !self.is_active() ==> self.balance == 0
        &&& self.status != LoanStatus::Liquidated ==> self.realized_loss == 0
    }

    /// The loan with its interest accrued up to day `now`, or `None` where
    /// what is then owed does not fit in 64 bits.
    pub fn accrued_to(&self, now: u64) -> (accrued: Option<Loan>)
        ensures
            accrued == if self.balance_on(now) <= u64::MAX {
                Some(self.accrued(now))
            } else {
                None
            },
    {
        match self.due_on(now) {
            Some(balance) => {
                let accrued_on: u64 = if now > self.accrued_on {
                    now
                } else {
                    self.accrued_on
                };
                Some(
                    Loan {
                        id: self.id,
                        borrower: self.borrower,
                        lender: self.lender,
                        token_id: self.token_id,
                        amount: self.amount,
                        interest_rate: self.interest_rate,
                        term: self.term,
                        balance,
                        collateral_asset: self.collateral_asset,
                        collateral_lock: self.collateral_lock,
                        opened_on: self.opened_on,
                        accrued_on,
                        status: self.status,
                        realized_loss: self.realized_loss,
                    },
                )
            },
            None => None,
        }
    }

    /// What is owed on day `now`, or `None` where it does not fit in 64 bits.
    pub fn due_on(&self, now: u64) -> (due: Option<u64>)
        ensures
            due == if self.balance_on(now) <= u64::MAX {
                Some(self.balance_on(now) as u64)
            } else {
                None
            },
    {
        let days: u64 = if now > self.accrued_on {
            now - self.accrued_on
        } else {
            0
        };
        match calculate_interest_rate(self.amount, self.interest_rate, days) {
            Some(interest) => self.balance.checked_add(interest),
            None => None,
        }
    }
}

/// The record of a loan as it is opened on day `now`.
pub open spec fn opened_loan(
    id: u64,
    borrower: Principal,
    lender: Principal,
    amount: u64,
    interest_rate: u64,
    term: u64,
    token_id: u64,
    collateral_asset: u64,
    collateral_lock: u64,
    now: u64,
) -> Loan {
    Loan {
        id,
        borrower,
        lender,
        token_id,
        amount,
        interest_rate,
        term,
        balance: amount,
        collateral_asset,
        collateral_lock,
        opened_on: now,
        accrued_on: now,
        status: LoanStatus::Active,
        realized_loss: 0,
    }
}

/// Every record of a book is sound at its index, and loan ids fit in 64
/// bits.
pub open spec fn book_wf(loans: Seq<Loan>) -> bool {
    &&& loans.len() <= u64::MAX
    &&& forall|i: int| 0 <= i < loans.len() ==> (#[trigger] loans[i]).sound_at(i)
}

/// What `get_loan_on` answers: the record of loan `id` as it reads on day
/// `now`.  An active loan reads with its interest accrued up to that day; a
/// closed loan reads as it was closed.
pub open spec fn loan_on(loans: Seq<Loan>, id: u64, now: u64) -> Result<Loan, LendError> {
    if id >= loans.len() {
        Err(LendError::LoanNotFound)
    } else if !loans[id as int].is_active() {
        Ok(loans[id as int])
    } else if loans[id as int].balance_on(now) > u64::MAX {
        Err(LendError::InvalidAmount)
    } else {
        Ok(loans[id as int].accrued(now))
    }
}

/// Whether loan `loan_id` can be changed: it exists and is active.
pub open spec fn open_loan(loans: Seq<Loan>, loan_id: u64) -> Result<(), LendError> {
    if loan_id >= loans.len() {
        Err(LendError::LoanNotFound)
    } else if !loans[loan_id as int].is_active() {
        Err(LendError::LoanNotActive)
    } else {
        Ok(())
    }
}

/// What `deposit_assets` answers.
pub open spec fn deposit_outcome(loans: Seq<Loan>, loan_id: u64, amount: u64) -> Result<(), LendError> {
    if open_loan(loans, loan_id) is Err {
        open_loan(loans, loan_id)
    } else if amount == 0 || loans[loan_id as int].balance + amount > u64::MAX {
        Err(LendError::InvalidAmount)
    } else {
        Ok(())
    }
}

/// What `withdraw_assets` answers.
pub open spec fn withdraw_outcome(loans: Seq<Loan>, loan_id: u64, amount: u64) -> Result<(), LendError> {
    if open_loan(loans, loan_id) is Err {
        open_loan(loans, loan_id)
    } else if amount > loans[loan_id as int].balance {
        Err(LendError::InsufficientBalance)
    } else {
        Ok(())
    }
}

/// What `repay_loan` answers.
pub open spec fn close_outcome(loans: Seq<Loan>, loan_id: u64) -> Result<(), LendError> {
    if open_loan(loans, loan_id) is Err {
        open_loan(loans, loan_id)
    } else if loans[loan_id as int].balance > 0 {
        Err(LendError::LoanNotSettled)
    } else {
        Ok(())
    }
}

/// What `accrue_interest` answers: the balance owed on day `now`.
pub open spec fn accrual_outcome(loans: Seq<Loan>, loan_id: u64, now: u64) -> Result<u64, LendError> {
    if open_loan(loans, loan_id) is Err {
        Err(open_loan(loans, loan_id)->Err_0)
    } else if loans[loan_id as int].balance_on(now) > u64::MAX {
        Err(LendError::InvalidAmount)
    } else {
        Ok(loans[loan_id as int].balance_on(now) as u64)
    }
}

/// The loan registry.  Records are never removed: a closed loan stays in the
/// book under its id.
pub struct LendingContract {
    loans: Vec<Loan>,
}

impl LendingContract {
    /// The records of the book, by id.
    pub closed spec fn view(&self) -> Seq<Loan> {
        self.loans@
    }

    /// The book is well-formed when every record is sound at its index.
    pub open spec fn wf(&self) -> bool {
        book_wf(self@)
    }

    /// An empty book.
    pub fn new() -> (book: LendingContract)
        ensures
            book.wf(),
            book@ == Seq::<Loan>::empty(),
    {
        LendingContract { loans: Vec::new() }
    }

    /// Opens a loan of `amount` on day `now` and returns its id, the number
    /// of loans opened before it.  A loan of nothing is refused.
    pub fn create_loan(
        &mut self,
        borrower: Principal,
        lender: Principal,
        amount: u64,
        interest_rate: u64,
        term: u64,
        token_id: u64,
        collateral_asset: u64,
        collateral_lock: u64,
        now: u64,
    ) -> (created: Result<u64, LendError>)
        requires
            old(self).wf(),
        ensures
            final(self).wf(),
            amount == 0 ==> created == Err::<u64, LendError>(LendError::InvalidAmount) && final(self)@ == old(self)@,
            amount > 0 ==> created == Ok::<u64, LendError>(old(self)@.len() as u64) && final(self)@ == old(
                self,
            )@.push(
                opened_loan(
                    old(self)@.len() as u64,
                    borrower,
                    lender,
                    amount,
                    interest_rate,
                    term,
                    token_id,
                    collateral_asset,
                    collateral_lock,
                    now,
                ),
            ),
    {
        if amount == 0 {
            return Err(LendError::InvalidAmount);
        }
        let id: u64 = self.loans.len() as u64;
        self.loans.push(
            Loan {
                id,
                borrower,
                lender,
                token_id,
                amount,
                interest_rate,
                term,
                balance: amount,
                collateral_asset,
                collateral_lock,
                opened_on: now,
                accrued_on: now,
                status: LoanStatus::Active,
                realized_loss: 0,
            },
        );
        proof {
            assert(self.loans@.len() == self.loans.len());
        }
        Ok(id)
    }

    /// The record of loan `id`.
    pub fn get_loan(&self, id: u64) -> (found: Result<Loan, LendError>)
        ensures
            found == if id < self@.len() {
                Ok::<Loan, LendError>(self@[id as int])
            } else {
                Err(LendError::LoanNotFound)
            },
    {
        if id < self.loans.len() as u64 {
            Ok(self.loans[id as usize])
        } else {
            Err(LendError::LoanNotFound)
        }
    }

    /// The record of loan `id` as it reads on day `now`: an active loan with
    /// its interest accrued up to that day, a closed loan as it was closed.
    /// Nothing is booked.
    pub fn get_loan_on(&self, id: u64, now: u64) -> (found: Result<Loan, LendError>)
        ensures
            found == loan_on(self@, id, now),
    {
        if id >= self.loans.len() as u64 {
            return Err(LendError::LoanNotFound);
        }
        let loan: Loan = self.loans[id as usize];
        match loan.status {
            LoanStatus::Active => match loan.accrued_to(now) {
                Some(accrued) => Ok(accrued),
                None => Err(LendError::InvalidAmount),
            },
            _ => Ok(loan),
        }
    }

    /// How many loans were ever opened.
    pub fn loan_count(&self) -> (count: u64)
        ensures
            count == self@.len(),
    {
        self.loans.len() as u64
    }

    /// Adds `amount` to what an active loan owes.
    pub fn deposit_assets(&mut self, loan_id: u64, amount: u64) -> (outcome: Result<(), LendError>)
        requires
            old(self).wf(),
        ensures
            final(self).wf(),
            outcome == deposit_outcome(old(self)@, loan_id, amount),
            final(self)@ == if outcome is Ok {
                old(self)@.update(loan_id as int, old(self)@[loan_id as int].charged(amount))
            } else {
                old(self)@
            },
    {
        let loan: Loan = self.open(loan_id)?;
        if amount == 0 {
            return Err(LendError::InvalidAmount);
        }
        match loan.balance.checked_add(amount) {
            Some(balance) => {
                self.loans.set(loan_id as usize, Loan { balance, ..loan });
                Ok(())
            },
            None => Err(LendError::InvalidAmount),
        }
    }

    /// Takes `amount` off what an active loan owes.
    pub fn withdraw_assets(&mut self, loan_id: u64, amount: u64) -> (outcome: Result<(), LendError>)
        requires
            old(self).wf(),
        ensures
            final(self).wf(),
            outcome == withdraw_outcome(old(self)@, loan_id, amount),
            final(self)@ == if outcome is Ok {
                old(self)@.update(loan_id as int, old(self)@[loan_id as int].paid(amount))
            } else {
                old(self)@
            },
    {
        let loan: Loan = self.open(loan_id)?;
        if amount > loan.balance {
            return Err(LendError::InsufficientBalance);
        }
        self.loans.set(loan_id as usize, Loan { balance: loan.balance - amount, ..loan });
        Ok(())
    }

    /// Closes an active loan that owes nothing as repaid.
    pub fn repay_loan(&mut self, loan_id: u64) -> (outcome: Result<(), LendError>)
        requires
            old(self).wf(),
        ensures
            final(self).wf(),
            outcome == close_outcome(old(self)@, loan_id),
            final(self)@ == if outcome is Ok {
                old(self)@.update(loan_id as int, old(self)@[loan_id as int].settled())
            } else {
                old(self)@
            },
    {
        let loan: Loan = self.open(loan_id)?;
        if loan.balance > 0 {
            return Err(LendError::LoanNotSettled);
        }
        self.loans.set(loan_id as usize, Loan { status: LoanStatus::Repaid, ..loan });
        Ok(())
    }

    /// Brings an active loan's balance up to day `now` and returns it.
    pub fn accrue_interest(&mut self, loan_id: u64, now: u64) -> (outcome: Result<u64, LendError>)
        requires
            old(self).wf(),
        ensures
            final(self).wf(),
            outcome == accrual_outcome(old(self)@, loan_id, now),
            final(self)@ == if outcome is Ok {
                old(self)@.update(loan_id as int, old(self)@[loan_id as int].accrued(now))
            } else {
                old(self)@
            },
    {
        let loan: Loan = self.open(loan_id)?;
        match loan.accrued_to(now) {
            Some(accrued) => {
                self.loans.set(loan_id as usize, accrued);
                Ok(accrued.balance)
            },
            None => Err(LendError::InvalidAmount),
        }
    }

    /// Closes an active loan by liquidation: nothing more is owed, and `loss`
    /// is recorded as the part of the debt that was not covered.
    pub fn write_off(&mut self, loan_id: u64, loss: u64) -> (outcome: Result<(), LendError>)
        requires
            old(self).wf(),
        ensures
            final(self).wf(),
            outcome == open_loan(old(self)@, loan_id),
            final(self)@ == if outcome is Ok {
                old(self)@.update(loan_id as int, old(self)@[loan_id as int].written_off(loss))
            } else {
                old(self)@
            },
    {
        let loan: Loan = self.open(loan_id)?;
        self.loans.set(
            loan_id as usize,
            Loan { balance: 0, realized_loss: loss, status: LoanStatus::Liquidated, ..loan },
        );
        Ok(())
    }

    /// The record of an active loan.
    fn open(&self, loan_id: u64) -> (found: Result<Loan, LendError>)
        ensures
            found is Ok <==> open_loan(self@, loan_id) is Ok,
            found matches Ok(loan) ==> loan_id < self.loans.len() && loan == self.loans[loan_id as int],
            found matches Err(e) ==> open_loan(self@, loan_id) == Err::<(), LendError>(e),
    {
        if loan_id >= self.loans.len() as u64 {
            return Err(LendError::LoanNotFound);
        }
        let loan: Loan = self.loans[loan_id as usize];
        match loan.status {
            LoanStatus::Active => Ok(loan),
            _ => Err(LendError::LoanNotActive),
        }
    }
}

} // verus!
