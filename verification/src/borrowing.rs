//! The loan desk: the loan book and the collateral vault under one risk
//! policy.
//!
//! A loan is made only against a pledge that covers it within the
//! loan-to-value limit, the pledge is released when the loan is repaid in
//! full, and a loan whose debt has outgrown its pledge is liquidated.  Loan
//! `i` is always backed by lock `i` of the vault.

use vstd::prelude::*;
use candid::Principal;
use crate::collateral::Collateral;
use crate::collateral::CollateralContract;
use crate::collateral::CollateralLock;
use crate::collateral::VaultView;
use crate::collateral::lock_total;
use crate::lending::accrual_outcome;
use crate::lending::book_wf;
use crate::lending::loan_on;
use crate::lending::open_loan;
use crate::lending::opened_loan;
use crate::lending::LendingContract;
use crate::lending::Loan;
use crate::lending::LoanStatus;
use crate::table::find_last;
use crate::table::lemma_find_last;
use crate::types::LendError;
use crate::utils::check_ltv;
use crate::utils::quote_usable;
use crate::utils::within_ltv;
use crate::utils::ExchangeRate;
use crate::utils::Settlement;

verus! {

/// What a borrower asks for: `amount` of token `token_id` for `term` days,
/// against `collateral_amount` of `collateral_asset`.
#[derive(Clone, Copy, Debug, PartialEq, Eq)]
pub struct LoanRequest {
    pub borrower: Principal,
    pub token_id: u64,
    pub amount: u64,
    pub collateral_asset: u64,
    pub collateral_amount: u64,
    pub term: u64,
}

/// The oracle's rate for one pair: what a unit of `collateral_asset` is worth
/// in token `token_id`.
#[derive(Clone, Copy, Debug, PartialEq, Eq)]
pub struct PairQuote {
    pub collateral_asset: u64,
    pub token_id: u64,
    pub rate: ExchangeRate,
}

/// The predicate "quotes `collateral_asset` in token `token_id`".
pub open spec fn quoted_for(collateral_asset: u64, token_id: u64) -> spec_fn(PairQuote) -> bool {
    |q: PairQuote| q.collateral_asset == collateral_asset && q.token_id == token_id
}

/// The rate that `rates` gives for a pair: that of the last entry for it.
pub open spec fn quote_for(rates: Seq<PairQuote>, collateral_asset: u64, token_id: u64) -> Option<ExchangeRate> {
    match find_last(rates, quoted_for(collateral_asset, token_id)) {
        Some(k) => Some(rates[k].rate),
        None => None,
    }
}

/// Looks up the rate for a pair.
pub fn find_quote(rates: &Vec<PairQuote>, collateral_asset: u64, token_id: u64) -> (quote: Option<ExchangeRate>)
    ensures
        quote == quote_for(rates@, collateral_asset, token_id),
{
    let mut i: usize = rates.len();
    while i > 0
        invariant
            i <= rates.len(),
            forall|j: int| i <= j < rates.len() ==> !quoted_for(collateral_asset, token_id)(rates@[j]),
        decreases i,
    {
        i -= 1;
        if rates[i].collateral_asset == collateral_asset && rates[i].token_id == token_id {
            proof {
                lemma_find_last(rates@, quoted_for(collateral_asset, token_id));
            }
            return Some(rates[i].rate);
        }
    }
    proof {
        lemma_find_last(rates@, quoted_for(collateral_asset, token_id));
    }
    None
}

/// The ids of the active loans among the first `n`, in rising order.
pub open spec fn active_among(loans: Seq<Loan>, n: nat) -> Seq<u64>
    decreases n,
{
    if n == 0 {
        Seq::<u64>::empty()
    } else if loans[n - 1].is_active() {
        active_among(loans, (n - 1) as nat).push((n - 1) as u64)
    } else {
        active_among(loans, (n - 1) as nat)
    }
}

/// What a desk holds: the vault, the loans by id, and the two limits of its
/// policy, in basis points.
pub struct DeskView {
    pub vault: VaultView,
    pub loans: Seq<Loan>,
    pub max_ltv: u64,
    pub liquidation_threshold: u64,
}

impl DeskView {
    /// Loan `i` is backed by lock `i`: the lock is the borrower's, on the
    /// loan's collateral asset, and holds something exactly as long as the
    /// loan is active.  An active loan owes something.
    pub open spec fn backed(self, i: int) -> bool {
        &&& self.loans[i].collateral_lock == i
        &&& self.vault.locks[i].owner == self.loans[i].borrower
        &&& self.vault.locks[i].asset == self.loans[i].collateral_asset
        &&& self.loans[i].is_active() <==> self.vault.locks[i].amount > 0
        &&& self.loans[i].is_active() ==> self.loans[i].balance > 0
    }

    /// There is one lock for each loan, and loan ids fit in 64 bits.
    pub open spec fn aligned(self) -> bool {
        self.vault.locks.len() == self.loans.len() <= u64::MAX
    }

    /// The vault and the book are sound, and every loan is backed by its
    /// lock.
    pub open spec fn wf(self) -> bool {
        &&& self.vault.wf()
        &&& book_wf(self.loans)
        &&& self.aligned()
        &&& forall|i: int| 0 <= i < self.loans.len() ==> #[trigger] self.backed(i)
    }

    /// What `request_loan` answers: the id of the new loan.  The pledge must
    /// be free collateral of the borrower, and the principal within the
    /// loan-to-value limit of the pledge's value at the quoted rate.
    pub open spec fn request_outcome(self, request: LoanRequest, quote: Option<ExchangeRate>) -> Result<
        u64,
        LendError,
    > {
        if request.amount == 0 || request.collateral_amount == 0 {
            Err(LendError::InvalidAmount)
        } else if request.collateral_amount > self.vault.free(request.borrower, request.collateral_asset) {
            Err(LendError::InsufficientCollateral)
        } else if !quote_usable(quote) {
            Err(LendError::OracleUnavailable)
        } else if !within_ltv(
            request.amount as nat,
            quote->0.value_of(request.collateral_amount as nat),
            self.max_ltv as nat,
        ) {
            Err(LendError::InsufficientCollateral)
        } else {
            Ok(self.loans.len() as u64)
        }
    }

    /// The desk after `request_loan`: the whole pledge is locked and the loan
    /// is in the book.
    pub open spec fn originated(
        self,
        request: LoanRequest,
        lender: Principal,
        interest_rate: u64,
        quote: Option<ExchangeRate>,
        now: u64,
    ) -> DeskView {
        if self.request_outcome(request, quote) is Ok {
            DeskView {
                vault: self.vault.pledged(request.borrower, request.collateral_asset, request.collateral_amount),
                loans: self.loans.push(
                    opened_loan(
                        self.loans.len() as u64,
                        request.borrower,
                        lender,
                        request.amount,
                        interest_rate,
                        request.term,
                        request.token_id,
                        request.collateral_asset,
                        self.loans.len() as u64,
                        now,
                    ),
                ),
                ..self
            }
        } else {
            self
        }
    }

    /// What `repay_loan` answers: the amount that was paid, which is what was
    /// offered or, if that is less, all that was owed on day `now`.
    pub open spec fn repay_outcome(self, loan_id: u64, amount: u64, now: u64) -> Result<u64, LendError> {
        if open_loan(self.loans, loan_id) is Err {
            Err(open_loan(self.loans, loan_id)->Err_0)
        } else if amount == 0 || self.loans[loan_id as int].balance_on(now) > u64::MAX {
            Err(LendError::InvalidAmount)
        } else if amount < self.loans[loan_id as int].balance_on(now) {
            Ok(amount)
        } else {
            Ok(self.loans[loan_id as int].balance_on(now) as u64)
        }
    }

    /// The desk after `repay_loan`: interest is accrued up to day `now` and
    /// the payment taken off; a loan that then owes nothing is closed as
    /// repaid and its whole pledge is free again.
    pub open spec fn repaid(self, loan_id: u64, amount: u64, now: u64) -> DeskView {
        match self.repay_outcome(loan_id, amount, now) {
            Ok(paid) => {
                let loan = self.loans[loan_id as int].accrued(now).paid(paid);
                if loan.balance == 0 {
                    DeskView {
                        vault: self.vault.released(loan.collateral_lock),
                        loans: self.loans.update(loan_id as int, loan.settled()),
                        ..self
                    }
                } else {
                    DeskView { loans: self.loans.update(loan_id as int, loan), ..self }
                }
            },
            Err(_) => self,
        }
    }

    /// What `liquidate` answers: whether the loan was liquidated.  It is when
    /// what it owes on day `now` is above the liquidation threshold of its
    /// pledge's value at the quoted rate.
    pub open spec fn liquidate_outcome(self, loan_id: u64, quote: Option<ExchangeRate>, now: u64) -> Result<
        bool,
        LendError,
    > {
        if open_loan(self.loans, loan_id) is Err {
            Err(open_loan(self.loans, loan_id)->Err_0)
        } else if !quote_usable(quote) {
            Err(LendError::OracleUnavailable)
        } else if self.loans[loan_id as int].balance_on(now) > u64::MAX {
            Err(LendError::InvalidAmount)
        } else {
            Ok(
                !within_ltv(
                    self.loans[loan_id as int].balance_on(now),
                    quote->0.value_of(self.vault.locks[loan_id as int].amount as nat),
                    self.liquidation_threshold as nat,
                ),
            )
        }
    }

    /// How the pledge of loan `loan_id` is split if the loan is liquidated on
    /// day `now` at `rate`.
    pub open spec fn liquidation_split(self, loan_id: u64, rate: ExchangeRate, now: u64) -> Settlement {
        rate.settlement(self.vault.locks[loan_id as int].amount, self.loans[loan_id as int].balance_on(now) as u64)
    }

    /// The desk after `liquidate`.  A loan that is liquidated is closed with
    /// its uncovered debt recorded as loss; its whole pledge is seized, and
    /// what the debt did not need of it goes back to the borrower as free
    /// collateral.  Any other loan is left as it was.
    pub open spec fn liquidated(self, loan_id: u64, quote: Option<ExchangeRate>, now: u64) -> DeskView {
        if self.liquidate_outcome(loan_id, quote, now) == Ok::<bool, LendError>(true) {
            let loan = self.loans[loan_id as int];
            let split = self.liquidation_split(loan_id, quote->0, now);
            DeskView {
                vault: self.vault.seized(loan_id).deposited(loan.borrower, loan.collateral_asset, split.surplus),
                loans: self.loans.update(loan_id as int, loan.accrued(now).written_off(split.loss)),
                ..self
            }
        } else {
            self
        }
    }

    /// The rate that `rates` gives for the pair of loan `i`.
    pub open spec fn sweep_quote(self, i: int, rates: Seq<PairQuote>) -> Option<ExchangeRate> {
        quote_for(rates, self.loans[i].collateral_asset, self.loans[i].token_id)
    }

    /// The desk after a sweep has gone through its first `n` loans: each in
    /// turn is liquidated if it is in violation at the rate given for its
    /// pair.
    pub open spec fn swept(self, rates: Seq<PairQuote>, now: u64, n: nat) -> DeskView
        decreases n,
    {
        if n == 0 {
            self
        } else {
            let before = self.swept(rates, now, (n - 1) as nat);
            before.liquidated((n - 1) as u64, before.sweep_quote(n - 1, rates), now)
        }
    }

    /// The ids of the loans that a sweep liquidates among the first `n`, in
    /// rising order.
    pub open spec fn sweep_resolves(self, rates: Seq<PairQuote>, now: u64, n: nat) -> Seq<u64>
        decreases n,
    {
        if n == 0 {
            Seq::<u64>::empty()
        } else {
            let before = self.swept(rates, now, (n - 1) as nat);
            let resolved = self.sweep_resolves(rates, now, (n - 1) as nat);
            if before.liquidate_outcome((n - 1) as u64, before.sweep_quote(n - 1, rates), now) == Ok::<
                bool,
                LendError,
            >(true) {
                resolved.push((n - 1) as u64)
            } else {
                resolved
            }
        }
    }

    /// Whether a sweep with `rates` on day `now` liquidates loan `i`.
    pub open spec fn sweep_takes(self, i: int, rates: Seq<PairQuote>, now: u64) -> bool {
        self.liquidate_outcome(i as u64, self.sweep_quote(i, rates), now) == Ok::<bool, LendError>(true)
    }

    /// Liquidating one loan leaves every other loan and every other lock as
    /// they were.
    pub proof fn lemma_liquidated_apart(self, loan_id: u64, quote: Option<ExchangeRate>, now: u64)
        requires
            self.aligned(),
        ensures
            ({
                let after = self.liquidated(loan_id, quote, now);
                &&& after.aligned()
                &&& after.loans.len() == self.loans.len()
                &&& after.max_ltv == self.max_ltv
                &&& after.liquidation_threshold == self.liquidation_threshold
                &&& forall|i: int|
                    0 <= i < self.loans.len() && i != loan_id ==> #[trigger] after.loans[i] == self.loans[i]
                        && after.vault.locks[i] == self.vault.locks[i]
                &&& self.liquidate_outcome(loan_id, quote, now) == Ok::<bool, LendError>(true)
                    ==> after.loans[loan_id as int].status == LoanStatus::Liquidated
                    && after.vault.locks[loan_id as int] == (CollateralLock {
                    amount: 0,
                    ..self.vault.locks[loan_id as int]
                })
            }),
    {
        if self.liquidate_outcome(loan_id, quote, now) == Ok::<bool, LendError>(true) {
            let loan = self.loans[loan_id as int];
            let split = self.liquidation_split(loan_id, quote->0, now);
            let seized = self.vault.seized(loan_id);
            assert(seized.locks == self.vault.locks.update(
                loan_id as int,
                CollateralLock { amount: 0, ..self.vault.locks[loan_id as int] },
            ));
            assert(seized.deposited(loan.borrower, loan.collateral_asset, split.surplus).locks == seized.locks);
        }
    }

    /// What a sweep does to each loan depends on that loan alone: after the
    /// first `n` loans, those of them that were in violation are liquidated,
    /// exactly as if each had been liquidated by itself, and every other loan
    /// and lock is as it was.
    pub proof fn lemma_swept_each(self, rates: Seq<PairQuote>, now: u64, n: nat)
        requires
            self.aligned(),
            n <= self.loans.len(),
        ensures
            ({
                let after = self.swept(rates, now, n);
                &&& after.aligned()
                &&& after.loans.len() == self.loans.len()
                &&& after.max_ltv == self.max_ltv
                &&& after.liquidation_threshold == self.liquidation_threshold
                &&& forall|i: int|
                    0 <= i < self.loans.len() ==> #[trigger] after.loans[i] == if i < n && self.sweep_takes(
                        i,
                        rates,
                        now,
                    ) {
                        self.liquidated(i as u64, self.sweep_quote(i, rates), now).loans[i]
                    } else {
                        self.loans[i]
                    }
                &&& forall|i: int|
                    0 <= i < self.loans.len() ==> #[trigger] after.vault.locks[i] == if i < n && self.sweep_takes(
                        i,
                        rates,
                        now,
                    ) {
                        CollateralLock { amount: 0, ..self.vault.locks[i] }
                    } else {
                        self.vault.locks[i]
                    }
                &&& forall|id: u64|
                    #![trigger self.sweep_resolves(rates, now, n).contains(id)]
                    self.sweep_resolves(rates, now, n).contains(id) <==> id < n && self.sweep_takes(
                        id as int,
                        rates,
                        now,
                    )
            }),
        decreases n,
    {
        let resolved = self.sweep_resolves(rates, now, n);
        if n == 0 {
            assert forall|id: u64| !(#[trigger] resolved.contains(id)) by {}
        } else {
            let j: int = n - 1;
            let before = self.swept(rates, now, j as nat);
            let earlier = self.sweep_resolves(rates, now, j as nat);
            self.lemma_swept_each(rates, now, j as nat);
            assert(before.loans[j] == self.loans[j]);
            assert(before.vault.locks[j] == self.vault.locks[j]);
            let quote = before.sweep_quote(j, rates);
            assert(quote == self.sweep_quote(j, rates));
            assert(before.liquidate_outcome(j as u64, quote, now) == self.liquidate_outcome(j as u64, quote, now));
            before.lemma_liquidated_apart(j as u64, quote, now);
            self.lemma_liquidated_apart(j as u64, quote, now);
            let after = self.swept(rates, now, n);
            assert(after == before.liquidated(j as u64, quote, now));
            assert forall|i: int| 0 <= i < self.loans.len() implies #[trigger] after.loans[i] == if i < n
                && self.sweep_takes(i, rates, now) {
                self.liquidated(i as u64, self.sweep_quote(i, rates), now).loans[i]
            } else {
                self.loans[i]
            } by {
                if i != j {
                    assert(after.loans[i] == before.loans[i]);
                }
            }
            assert forall|i: int| 0 <= i < self.loans.len() implies #[trigger] after.vault.locks[i] == if i < n
                && self.sweep_takes(i, rates, now) {
                CollateralLock { amount: 0, ..self.vault.locks[i] }
            } else {
                self.vault.locks[i]
            } by {
                if i != j {
                    assert(after.loans[i] == before.loans[i]);
                    assert(after.vault.locks[i] == before.vault.locks[i]);
                }
            }
            assert forall|id: u64| #[trigger]
                resolved.contains(id) <==> id < n && self.sweep_takes(id as int, rates, now) by {
                if self.sweep_takes(j, rates, now) {
                    assert(resolved == earlier.push(j as u64));
                    if id == j {
                        assert(resolved[earlier.len() as int] == id);
                    }
                    if resolved.contains(id) && id != j {
                        let k = choose|k: int| 0 <= k < resolved.len() && resolved[k] == id;
                        assert(earlier[k] == id);
                    }
                    if earlier.contains(id) {
                        let k = choose|k: int| 0 <= k < earlier.len() && earlier[k] == id;
                        assert(resolved[k] == id);
                    }
                } else {
                    assert(resolved == earlier);
                }
                assert(earlier.contains(id) <==> id < j && self.sweep_takes(id as int, rates, now));
            }
        }
    }

    /// A sweep never touches a loan that it does not liquidate: a loan that
    /// is closed, that has no usable quote, whose debt does not fit, or whose
    /// debt is within the liquidation threshold of its pledge's value.  The
    /// loan's record and its lock stay as they were, and its id is not among
    /// those resolved.
    pub proof fn lemma_sweep_spares(self, rates: Seq<PairQuote>, now: u64, i: int)
        requires
            self.wf(),
            0 <= i < self.loans.len(),
            !self.sweep_takes(i, rates, now),
        ensures
            self.swept(rates, now, self.loans.len()).loans[i] == self.loans[i],
            self.swept(rates, now, self.loans.len()).vault.locks[i] == self.vault.locks[i],
            !self.sweep_resolves(rates, now, self.loans.len()).contains(i as u64),
    {
        self.lemma_swept_each(rates, now, self.loans.len());
    }

    /// A sweep never touches a loan whose debt is within the liquidation
    /// threshold of what its pledge is worth at the rate given for its pair.
    pub proof fn lemma_sweep_spares_within_threshold(self, rates: Seq<PairQuote>, now: u64, i: int)
        requires
            self.wf(),
            0 <= i < self.loans.len(),
            self.sweep_quote(i, rates) is Some,
            within_ltv(
                self.loans[i].balance_on(now),
                self.sweep_quote(i, rates)->0.value_of(self.vault.locks[i].amount as nat),
                self.liquidation_threshold as nat,
            ),
        ensures
            self.swept(rates, now, self.loans.len()).loans[i] == self.loans[i],
            self.swept(rates, now, self.loans.len()).vault.locks[i] == self.vault.locks[i],
            !self.sweep_resolves(rates, now, self.loans.len()).contains(i as u64),
    {
        self.lemma_sweep_spares(rates, now, i);
    }

    /// A sweep that finds no loan in violation changes nothing and resolves
    /// nothing.
    pub proof fn lemma_sweep_idle(self, rates: Seq<PairQuote>, now: u64, n: nat)
        requires
            n <= self.loans.len(),
            forall|i: int| 0 <= i < n ==> !#[trigger] self.sweep_takes(i, rates, now),
        ensures
            self.swept(rates, now, n) == self,
            self.sweep_resolves(rates, now, n) == Seq::<u64>::empty(),
        decreases n,
    {
        if n > 0 {
            self.lemma_sweep_idle(rates, now, (n - 1) as nat);
            assert(!self.sweep_takes(n - 1, rates, now));
        }
    }

    /// Sweeping twice in a row is sweeping once: the second sweep, with the
    /// same rates on the same day, changes nothing and resolves nothing.
    pub proof fn lemma_sweep_idempotent(self, rates: Seq<PairQuote>, now: u64)
        requires
            self.wf(),
        ensures
            ({
                let once = self.swept(rates, now, self.loans.len());
                &&& once.swept(rates, now, once.loans.len()) == once
                &&& once.sweep_resolves(rates, now, once.loans.len()) == Seq::<u64>::empty()
            }),
    {
        let n: nat = self.loans.len();
        let once = self.swept(rates, now, n);
        self.lemma_swept_each(rates, now, n);
        assert forall|i: int| 0 <= i < n implies !#[trigger] once.sweep_takes(i, rates, now) by {
            if self.sweep_takes(i, rates, now) {
                self.lemma_liquidated_apart(i as u64, self.sweep_quote(i, rates), now);
                assert(once.loans[i].status == LoanStatus::Liquidated);
            } else {
                assert(once.loans[i] == self.loans[i]);
                assert(once.vault.locks[i] == self.vault.locks[i]);
            }
        }
        once.lemma_sweep_idle(rates, now, n);
    }

    /// No loan is liquidated twice: a loan that one sweep resolved is not
    /// resolved by any later sweep, whatever its rates and its day.
    pub proof fn lemma_sweep_never_twice(
        self,
        rates: Seq<PairQuote>,
        now: u64,
        later_rates: Seq<PairQuote>,
        later: u64,
        id: u64,
    )
        requires
            self.wf(),
            self.sweep_resolves(rates, now, self.loans.len()).contains(id),
        ensures
            ({
                let once = self.swept(rates, now, self.loans.len());
                !once.sweep_resolves(later_rates, later, once.loans.len()).contains(id)
            }),
    {
        let n: nat = self.loans.len();
        let once = self.swept(rates, now, n);
        self.lemma_swept_each(rates, now, n);
        assert(id < n && self.sweep_takes(id as int, rates, now));
        self.lemma_liquidated_apart(id, self.sweep_quote(id as int, rates), now);
        let alone = self.liquidated(id, self.sweep_quote(id as int, rates), now);
        assert(alone.loans[id as int].status == LoanStatus::Liquidated);
        assert(once.loans[id as int] == alone.loans[id as int]);
        once.lemma_swept_each(later_rates, later, n);
    }

    /// A closed loan is final: no request, repayment, liquidation or sweep
    /// changes the record of a loan that is repaid or liquidated.
    pub proof fn lemma_closed_loans_are_final(
        self,
        closed: int,
        request: LoanRequest,
        lender: Principal,
        interest_rate: u64,
        loan_id: u64,
        amount: u64,
        quote: Option<ExchangeRate>,
        rates: Seq<PairQuote>,
        now: u64,
    )
        requires
            self.wf(),
            0 <= closed < self.loans.len(),
            !self.loans[closed].is_active(),
        ensures
            self.originated(request, lender, interest_rate, quote, now).loans[closed] == self.loans[closed],
            self.repaid(loan_id, amount, now).loans[closed] == self.loans[closed],
            self.liquidated(loan_id, quote, now).loans[closed] == self.loans[closed],
            self.swept(rates, now, self.loans.len()).loans[closed] == self.loans[closed],
    {
        self.lemma_sweep_spares(rates, now, closed);
    }

    /// The pledges of the active loans among the first `n` that `owner`
    /// backs with `asset`, added up.
    pub open spec fn backing_total(self, owner: Principal, asset: u64, n: nat) -> nat
        decreases n,
    {
        if n == 0 {
            0
        } else {
            self.backing_total(owner, asset, (n - 1) as nat) + if self.loans[n - 1].is_active() && self.loans[n
                - 1].borrower == owner && self.loans[n - 1].collateral_asset == asset {
                self.vault.locks[n - 1].amount as nat
            } else {
                0
            }
        }
    }

    /// What is locked for an owner in an asset is exactly what backs the
    /// owner's active loans in that asset: nothing is locked without a loan,
    /// and nothing backs two loans.
    pub proof fn lemma_locked_backs_active_loans(self, owner: Principal, asset: u64)
        requires
            self.wf(),
        ensures
            self.vault.locked(owner, asset) == self.backing_total(owner, asset, self.loans.len()),
    {
        self.lemma_backing_total(owner, asset, self.loans.len());
        assert(self.vault.locks.take(self.loans.len() as int) == self.vault.locks);
    }

    /// The locks of the first `n` loans add up to what backs the active ones
    /// among them.
    proof fn lemma_backing_total(self, owner: Principal, asset: u64, n: nat)
        requires
            self.wf(),
            n <= self.loans.len(),
        ensures
            lock_total(self.vault.locks.take(n as int), owner, asset) == self.backing_total(owner, asset, n),
        decreases n,
    {
        if n > 0 {
            self.lemma_backing_total(owner, asset, (n - 1) as nat);
            assert(self.backed(n - 1));
            assert(self.vault.locks.take(n as int).drop_last() == self.vault.locks.take(n - 1));
        }
    }

    /// A step that leaves a loan and its lock alone leaves the loan backed:
    /// where every loan but `touched` and the new ones is as it was, with its
    /// lock, and those are backed, every loan is backed.
    pub proof fn lemma_backing_carries(self, after: DeskView, touched: int)
        requires
            self.wf(),
            self.loans.len() <= after.loans.len(),
            forall|i: int|
                0 <= i < self.loans.len() && i != touched ==> #[trigger] after.loans[i] == self.loans[i],
            forall|i: int|
                0 <= i < self.loans.len() && i != touched ==> #[trigger] after.vault.locks[i]
                    == self.vault.locks[i],
            0 <= touched < self.loans.len() ==> after.backed(touched),
            forall|i: int| self.loans.len() <= i < after.loans.len() ==> #[trigger] after.backed(i),
        ensures
            forall|i: int| 0 <= i < after.loans.len() ==> #[trigger] after.backed(i),
    {
        assert forall|i: int| 0 <= i < after.loans.len() implies #[trigger] after.backed(i) by {
            if i < self.loans.len() && i != touched {
                assert(self.backed(i));
                assert(after.loans[i] == self.loans[i]);
                assert(after.vault.locks[i] == self.vault.locks[i]);
            }
        }
    }

    /// A loan is made only within the loan-to-value limit: where
    /// `request_loan` succeeds, the principal is at most the limit's share of
    /// what the pledge is worth at the quoted rate.
    pub proof fn lemma_origination_within_limit(self, request: LoanRequest, quote: Option<ExchangeRate>)
        requires
            self.request_outcome(request, quote) is Ok,
        ensures
            quote_usable(quote),
            request.amount * 10_000 <= quote->0.value_of(request.collateral_amount as nat) * self.max_ltv,
    {
    }

    /// A repayment that brings what a loan owes to zero closes the loan as
    /// repaid and hands its whole pledge back: the lock holds nothing any
    /// more, and what it held is free collateral of the borrower.  A smaller
    /// repayment leaves the loan active and the vault as it was.
    pub proof fn lemma_repayment_releases_pledge(self, loan_id: u64, amount: u64, now: u64)
        requires
            self.wf(),
            self.repay_outcome(loan_id, amount, now) is Ok,
        ensures
            ({
                let after = self.repaid(loan_id, amount, now);
                let loan = self.loans[loan_id as int];
                let lock = self.vault.locks[loan_id as int];
                if amount >= loan.balance_on(now) {
                    &&& after.loans[loan_id as int].status == LoanStatus::Repaid
                    &&& after.loans[loan_id as int].balance == 0
                    &&& after.vault.locks[loan_id as int].amount == 0
                    &&& after.vault.free(lock.owner, lock.asset) == self.vault.free(lock.owner, lock.asset)
                        + lock.amount
                    &&& after.vault.locked(lock.owner, lock.asset) == self.vault.locked(lock.owner, lock.asset)
                        - lock.amount
                } else {
                    &&& after.loans[loan_id as int].is_active()
                    &&& after.loans[loan_id as int].balance == loan.balance_on(now) - amount
                    &&& after.vault == self.vault
                }
            }),
    {
        assert(self.backed(loan_id as int));
        let lock = self.vault.locks[loan_id as int];
        self.vault.lemma_holding_fits(lock.owner, lock.asset);
        self.vault.lemma_locked_covers(loan_id as int);
        let moved = self.vault.with_position(
            lock.owner,
            lock.asset,
            (self.vault.free(lock.owner, lock.asset) + lock.amount) as u64,
            (self.vault.locked(lock.owner, lock.asset) - lock.amount) as u64,
        );
        self.vault.lemma_with_position(
            lock.owner,
            lock.asset,
            (self.vault.free(lock.owner, lock.asset) + lock.amount) as u64,
            (self.vault.locked(lock.owner, lock.asset) - lock.amount) as u64,
        );
        if amount >= self.loans[loan_id as int].balance_on(now) {
            let after = self.repaid(loan_id, amount, now).vault;
            assert(after.positions == moved.positions);
            assert(after.free(lock.owner, lock.asset) == moved.free(lock.owner, lock.asset));
            assert(after.locked(lock.owner, lock.asset) == moved.locked(lock.owner, lock.asset));
        }
    }

    /// What a liquidation comes to.  The loan is closed with nothing owed and
    /// its uncovered debt as loss; its lock holds nothing any more; of the
    /// pledge, what the debt did not need is free collateral of the borrower
    /// and the rest has left the vault.
    pub proof fn lemma_liquidation_settles(self, loan_id: u64, quote: Option<ExchangeRate>, now: u64)
        requires
            self.wf(),
            self.liquidate_outcome(loan_id, quote, now) == Ok::<bool, LendError>(true),
        ensures
            ({
                let after = self.liquidated(loan_id, quote, now);
                let lock = self.vault.locks[loan_id as int];
                let split = self.liquidation_split(loan_id, quote->0, now);
                &&& after.loans[loan_id as int].status == LoanStatus::Liquidated
                &&& after.loans[loan_id as int].balance == 0
                &&& after.loans[loan_id as int].realized_loss == split.loss
                &&& after.vault.locks[loan_id as int].amount == 0
                &&& split.taken + split.surplus == lock.amount
                &&& after.vault.free(lock.owner, lock.asset) == self.vault.free(lock.owner, lock.asset)
                    + split.surplus
                &&& after.vault.locked(lock.owner, lock.asset) == self.vault.locked(lock.owner, lock.asset)
                    - lock.amount
            }),
    {
        assert(self.backed(loan_id as int));
        let lock = self.vault.locks[loan_id as int];
        let split = self.liquidation_split(loan_id, quote->0, now);
        quote->0.lemma_settlement_splits(lock.amount, self.loans[loan_id as int].balance_on(now) as u64);
        self.vault.lemma_holding_fits(lock.owner, lock.asset);
        self.vault.lemma_locked_covers(loan_id as int);
        let seized = self.vault.seized(loan_id);
        self.vault.lemma_with_position(
            lock.owner,
            lock.asset,
            self.vault.free(lock.owner, lock.asset) as u64,
            (self.vault.locked(lock.owner, lock.asset) - lock.amount) as u64,
        );
        let emptied = self.vault.with_position(
            lock.owner,
            lock.asset,
            self.vault.free(lock.owner, lock.asset) as u64,
            (self.vault.locked(lock.owner, lock.asset) - lock.amount) as u64,
        );
        self.vault.lemma_with_position_shaped(
            lock.owner,
            lock.asset,
            self.vault.free(lock.owner, lock.asset) as u64,
            (self.vault.locked(lock.owner, lock.asset) - lock.amount) as u64,
        );
        assert(seized.positions == emptied.positions);
        assert(seized.free(lock.owner, lock.asset) == emptied.free(lock.owner, lock.asset));
        assert(seized.locked(lock.owner, lock.asset) == emptied.locked(lock.owner, lock.asset));
        assert(seized.shaped());
        seized.lemma_with_position(
            lock.owner,
            lock.asset,
            (seized.free(lock.owner, lock.asset) + split.surplus) as u64,
            seized.locked(lock.owner, lock.asset) as u64,
        );
    }
}

/// The loan desk.
pub struct BorrowingContract {
    vault: CollateralContract,
    book: LendingContract,
    max_ltv: u64,
    liquidation_threshold: u64,
}

impl BorrowingContract {
    /// What the desk holds.
    pub closed spec fn view(&self) -> DeskView {
        DeskView {
            vault: self.vault@,
            loans: self.book@,
            max_ltv: self.max_ltv,
            liquidation_threshold: self.liquidation_threshold,
        }
    }

    /// The desk is well-formed when what it holds is.
    pub open spec fn wf(&self) -> bool {
        self@.wf()
    }

    /// A desk without collateral or loans, lending up to `max_ltv` basis
    /// points of a pledge's value and liquidating above
    /// `liquidation_threshold` basis points.
    pub fn new(max_ltv: u64, liquidation_threshold: u64) -> (desk: BorrowingContract)
        ensures
            desk.wf(),
            desk@.vault.positions.len() == 0,
            desk@.vault.locks.len() == 0,
            desk@.loans.len() == 0,
            desk@.max_ltv == max_ltv,
            desk@.liquidation_threshold == liquidation_threshold,
    {
        BorrowingContract { vault: CollateralContract::new(), book: LendingContract::new(), max_ltv, liquidation_threshold }
    }

    /// Adds `amount` to the free collateral of `owner` in `asset`.
    pub fn deposit_collateral(&mut self, owner: Principal, asset: u64, amount: u64) -> (outcome: Result<
        (),
        LendError,
    >)
        requires
            old(self).wf(),
        ensures
            final(self).wf(),
            outcome == old(self)@.vault.deposit_outcome(owner, asset, amount),
            final(self)@ == (DeskView { vault: old(self)@.vault.deposited(owner, asset, amount), ..old(self)@ }),
    {
        let outcome = self.vault.deposit_collateral(owner, asset, amount);
        proof {
            old(self)@.lemma_backing_carries(self@, -1);
        }
        outcome
    }

    /// Takes `amount` out of the free collateral of `owner` in `asset`.
    /// Locked collateral cannot be withdrawn.
    pub fn withdraw_collateral(&mut self, owner: Principal, asset: u64, amount: u64) -> (outcome: Result<
        (),
        LendError,
    >)
        requires
            old(self).wf(),
        ensures
            final(self).wf(),
            outcome == old(self)@.vault.withdraw_outcome(owner, asset, amount),
            final(self)@ == (DeskView { vault: old(self)@.vault.withdrawn(owner, asset, amount), ..old(self)@ }),
    {
        let outcome = self.vault.withdraw_collateral(owner, asset, amount);
        proof {
            old(self)@.lemma_backing_carries(self@, -1);
        }
        outcome
    }

    /// The position of `owner` in `asset`, if one was ever opened.
    pub fn get_collateral_record(&self, owner: Principal, asset: u64) -> (record: Option<Collateral>)
        requires
            self.wf(),
        ensures
            record == match self@.vault.position(owner, asset) {
                Some(i) => Some(self@.vault.positions[i]),
                None => None,
            },
    {
        self.vault.get_collateral_record(owner, asset)
    }

    /// The free collateral of `owner` in `asset`.
    pub fn get_collateral_amount(&self, owner: Principal, asset: u64) -> (amount: u64)
        requires
            self.wf(),
        ensures
            amount == self@.vault.free(owner, asset),
    {
        self.vault.get_collateral_amount(owner, asset)
    }

    /// The record of loan `id`.
    pub fn get_loan(&self, id: u64) -> (found: Result<Loan, LendError>)
        ensures
            found == if id < self@.loans.len() {
                Ok::<Loan, LendError>(self@.loans[id as int])
            } else {
                Err(LendError::LoanNotFound)
            },
    {
        self.book.get_loan(id)
    }

    /// The record of loan `id` as it reads on day `now`: an active loan with
    /// its interest accrued up to that day, a closed loan as it was closed.
    /// Nothing is booked.
    pub fn get_loan_on(&self, id: u64, now: u64) -> (found: Result<Loan, LendError>)
        ensures
            found == loan_on(self@.loans, id, now),
    {
        self.book.get_loan_on(id, now)
    }

    /// The collateral that stands behind loan `id`: what its lock holds.
    pub fn get_locked_collateral(&self, id: u64) -> (locked: Option<CollateralLock>)
        ensures
            locked == if id < self@.vault.locks.len() {
                Some(self@.vault.locks[id as int])
            } else {
                None
            },
    {
        self.vault.get_lock(id)
    }

    /// Makes the loan that `request` asks for, at `interest_rate` basis
    /// points per annum, funded by `lender`, on day `now`.  `quote` is the
    /// rate from the collateral asset to the borrowed token.
    pub fn request_loan(
        &mut self,
        request: LoanRequest,
        lender: Principal,
        interest_rate: u64,
        quote: Option<ExchangeRate>,
        now: u64,
    ) -> (outcome: Result<u64, LendError>)
        requires
            old(self).wf(),
        ensures
            final(self).wf(),
            outcome == old(self)@.request_outcome(request, quote),
            final(self)@ == old(self)@.originated(request, lender, interest_rate, quote, now),
    {
        if request.amount == 0 || request.collateral_amount == 0 {
            return Err(LendError::InvalidAmount);
        }
        let free: u64 = self.vault.get_collateral_amount(request.borrower, request.collateral_asset);
        if request.collateral_amount > free {
            return Err(LendError::InsufficientCollateral);
        }
        let rate: ExchangeRate = match quote {
            Some(rate) => rate,
            None => {
                return Err(LendError::OracleUnavailable);
            },
        };
        if rate.denominator == 0 {
            return Err(LendError::OracleUnavailable);
        }
        let value: u128 = rate.worth(request.collateral_amount);
        if !check_ltv(request.amount, value, self.max_ltv) {
            return Err(LendError::InsufficientCollateral);
        }
        let lock: u64 = match self.vault.lock_collateral(
            request.borrower,
            request.collateral_asset,
            request.collateral_amount,
        ) {
            Ok(lock) => lock,
            Err(_) => {
                return Err(LendError::InvariantViolation);
            },
        };
        let id: u64 = match self.book.create_loan(
            request.borrower,
            lender,
            request.amount,
            interest_rate,
            request.term,
            request.token_id,
            request.collateral_asset,
            lock,
            now,
        ) {
            Ok(id) => id,
            Err(_) => {
                return Err(LendError::InvariantViolation);
            },
        };
        proof {
            old(self)@.vault.lemma_with_position(
                request.borrower,
                request.collateral_asset,
                (free - request.collateral_amount) as u64,
                (old(self)@.vault.locked(request.borrower, request.collateral_asset) + request.collateral_amount) as u64,
            );
            old(self)@.lemma_backing_carries(self@, -1);
        }
        Ok(id)
    }

    /// What loan `loan_id` owes on day `now`.
    pub fn amount_due(&self, loan_id: u64, now: u64) -> (due: Result<u64, LendError>)
        ensures
            due == accrual_outcome(self@.loans, loan_id, now),
    {
        let loan: Loan = self.book.get_loan(loan_id)?;
        match loan.status {
            LoanStatus::Active => {},
            _ => {
                return Err(LendError::LoanNotActive);
            },
        }
        match loan.due_on(now) {
            Some(due) => Ok(due),
            None => Err(LendError::InvalidAmount),
        }
    }

    /// Pays up to `amount` towards loan `loan_id` on day `now` and returns
    /// what was paid.
    pub fn repay_loan(&mut self, loan_id: u64, amount: u64, now: u64) -> (outcome: Result<u64, LendError>)
        requires
            old(self).wf(),
        ensures
            final(self).wf(),
            outcome == old(self)@.repay_outcome(loan_id, amount, now),
            final(self)@ == old(self)@.repaid(loan_id, amount, now),
    {
        let due: u64 = match self.amount_due(loan_id, now) {
            Ok(due) => due,
            Err(e) => {
                return Err(e);
            },
        };
        if amount == 0 {
            return Err(LendError::InvalidAmount);
        }
        let paid: u64 = if amount < due {
            amount
        } else {
            due
        };
        proof {
            assert(old(self)@.backed(loan_id as int));
        }
        if self.book.accrue_interest(loan_id, now).is_err() {
            return Err(LendError::InvariantViolation);
        }
        if self.book.withdraw_assets(loan_id, paid).is_err() {
            return Err(LendError::InvariantViolation);
        }
        if paid == due {
            if self.book.repay_loan(loan_id).is_err() {
                return Err(LendError::InvariantViolation);
            }
            if self.vault.release_collateral(loan_id).is_err() {
                return Err(LendError::InvariantViolation);
            }
        }
        proof {
            let lock = old(self)@.vault.locks[loan_id as int];
            old(self)@.vault.lemma_with_position(
                lock.owner,
                lock.asset,
                (old(self)@.vault.free(lock.owner, lock.asset) + lock.amount) as u64,
                (old(self)@.vault.locked(lock.owner, lock.asset) - lock.amount) as u64,
            );
            old(self)@.lemma_backing_carries(self@, loan_id as int);
            let after = old(self)@.repaid(loan_id, amount, now);
            assert(self@.loans =~= after.loans);
            assert(self@.vault == after.vault);
        }
        Ok(paid)
    }

    /// Liquidates loan `loan_id` on day `now` if it is in violation at the
    /// quoted rate from its collateral asset to its borrowed token, and says
    /// whether it did.
    pub fn liquidate(&mut self, loan_id: u64, quote: Option<ExchangeRate>, now: u64) -> (outcome: Result<
        bool,
        LendError,
    >)
        requires
            old(self).wf(),
        ensures
            final(self).wf(),
            outcome == old(self)@.liquidate_outcome(loan_id, quote, now),
            final(self)@ == old(self)@.liquidated(loan_id, quote, now),
    {
        let loan: Loan = self.book.get_loan(loan_id)?;
        match loan.status {
            LoanStatus::Active => {},
            _ => {
                return Err(LendError::LoanNotActive);
            },
        }
        let rate: ExchangeRate = match quote {
            Some(rate) => rate,
            None => {
                return Err(LendError::OracleUnavailable);
            },
        };
        if rate.denominator == 0 {
            return Err(LendError::OracleUnavailable);
        }
        let due: u64 = match loan.due_on(now) {
            Some(due) => due,
            None => {
                return Err(LendError::InvalidAmount);
            },
        };
        proof {
            assert(old(self)@.backed(loan_id as int));
        }
        let lock: CollateralLock = match self.vault.get_lock(loan_id) {
            Some(lock) => lock,
            None => {
                return Err(LendError::InvariantViolation);
            },
        };
        let value: u128 = rate.worth(lock.amount);
        if check_ltv(due, value, self.liquidation_threshold) {
            return Ok(false);
        }
        let split: Settlement = rate.settle(lock.amount, due);
        if self.book.accrue_interest(loan_id, now).is_err() {
            return Err(LendError::InvariantViolation);
        }
        if self.book.write_off(loan_id, split.loss).is_err() {
            return Err(LendError::InvariantViolation);
        }
        if self.vault.seize_collateral(loan_id).is_err() {
            return Err(LendError::InvariantViolation);
        }
        let _ = self.vault.deposit_collateral(lock.owner, lock.asset, split.surplus);
        proof {
            let seized = old(self)@.vault.seized(loan_id);
            old(self)@.vault.lemma_with_position(
                lock.owner,
                lock.asset,
                old(self)@.vault.free(lock.owner, lock.asset) as u64,
                (old(self)@.vault.locked(lock.owner, lock.asset) - lock.amount) as u64,
            );
            seized.lemma_with_position(
                lock.owner,
                lock.asset,
                (seized.free(lock.owner, lock.asset) + split.surplus) as u64,
                seized.locked(lock.owner, lock.asset) as u64,
            );
            old(self)@.lemma_backing_carries(self@, loan_id as int);
            let after = old(self)@.liquidated(loan_id, quote, now);
            assert(self@.loans =~= after.loans);
            assert(self@.vault == after.vault);
        }
        Ok(true)
    }

    /// Goes through every loan and liquidates those that are in violation on
    /// day `now` at the rate that `rates` gives for their pair.  A loan whose
    /// pair has no usable rate is left for a later sweep.  Returns the ids of
    /// the loans that were liquidated.
    pub fn sweep(&mut self, rates: &Vec<PairQuote>, now: u64) -> (resolved: Vec<u64>)
        requires
            old(self).wf(),
        ensures
            final(self).wf(),
            final(self)@ == old(self)@.swept(rates@, now, old(self)@.loans.len()),
            resolved@ == old(self)@.sweep_resolves(rates@, now, old(self)@.loans.len()),
    {
        let count: u64 = self.book.loan_count();
        let mut resolved: Vec<u64> = Vec::new();
        let mut id: u64 = 0;
        while id < count
            invariant
                id <= count,
                count == old(self)@.loans.len(),
                count == self@.loans.len(),
                self.wf(),
                self@ == old(self)@.swept(rates@, now, id as nat),
                resolved@ == old(self)@.sweep_resolves(rates@, now, id as nat),
            decreases count - id,
        {
            match self.book.get_loan(id) {
                Ok(loan) => {
                    let quote: Option<ExchangeRate> = find_quote(rates, loan.collateral_asset, loan.token_id);
                    match self.liquidate(id, quote, now) {
                        Ok(true) => {
                            resolved.push(id);
                        },
                        _ => {},
                    }
                },
                Err(_) => {},
            }
            id += 1;
        }
        resolved
    }

    /// The ids of the active loans, in rising order.
    pub fn active_loans(&self) -> (ids: Vec<u64>)
        ensures
            ids@ == active_among(self@.loans, self@.loans.len()),
    {
        let count: u64 = self.book.loan_count();
        let mut ids: Vec<u64> = Vec::new();
        let mut id: u64 = 0;
        while id < count
            invariant
                id <= count,
                count == self@.loans.len(),
                ids@ == active_among(self@.loans, id as nat),
            decreases count - id,
        {
            match self.book.get_loan(id) {
                Ok(loan) => {
                    match loan.status {
                        LoanStatus::Active => {
                            ids.push(id);
                        },
                        _ => {},
                    }
                },
                Err(_) => {},
            }
            id += 1;
        }
        ids
    }
}

} // verus!
