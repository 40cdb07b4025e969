//! Identities, wire records and the error taxonomy shared by all components.

use vstd::prelude::*;
use candid::Nat;
use candid::Principal;

verus! {

/// `candid::Principal` (defined in `ic_principal`), the identity of an
/// account.  The ledger only stores principals and compares them; it never
/// looks inside one.
#[verifier::external_type_specification]
#[verifier::external_body]
pub struct ExPrincipal(Principal);

/// `candid::Nat`, an unbounded natural number.  It is carried in the wire
/// records below and never computed with.
#[verifier::external_type_specification]
#[verifier::external_body]
pub struct ExNat(Nat);

/// Calls `Principal`'s `==`.  `Principal` derives `PartialEq` over its length
/// and its zero-padded byte buffer, so the comparison is true exactly when the
/// two values are the same principal.
#[verifier::external_body]
pub(crate) fn same_principal(a: &Principal, b: &Principal) -> (same: bool)
    ensures
        same == (*a == *b),
{
    *a == *b
}

/// The id of a lender's offer.
pub type LenderId = u32;

/// A lender's standing offer: `fromAmount` of token `from` against `toAmount`
/// of token `to`.
#[allow(non_snake_case)]
pub struct Lender {
    pub id: LenderId,
    pub owner: Principal,
    pub from: Principal,
    pub fromAmount: Nat,
    pub to: Principal,
    pub toAmount: Nat,
}

/// What one owner holds of one token.
pub struct Balance {
    pub owner: Principal,
    pub token: Principal,
    pub amount: Nat,
}

/// What cancelling an offer answers: the id of the offer that was cancelled.
pub type CancelReceipt = Result<LenderId, CancelErr>;

/// Why an offer could not be cancelled.
#[derive(Clone, Copy, Debug, PartialEq, Eq, Structural)]
pub enum CancelErr {
    NotAllowed,
    NotExistingOrder,
}

/// Every way an operation of this crate can fail.
#[derive(Clone, Copy, Debug, PartialEq, Eq, Structural)]
pub enum LendError {
    /// A token account holds less than the operation needs.
    InsufficientBalance,
    /// Free collateral, a lock, or the value of the pledge is too small.
    InsufficientCollateral,
    /// The caller is not the token's mint authority.
    Unauthorized,
    /// No loan has this id.
    LoanNotFound,
    /// An amount is zero where it must not be, or a sum would not fit.
    InvalidAmount,
    /// No usable exchange rate was supplied.
    OracleUnavailable,
    /// What was validated before the rate was fetched no longer holds.
    StaleState,
    /// An internal step failed that a well-formed ledger never fails.
    InvariantViolation,
    /// No token has this id.
    TokenNotFound,
    /// Another token already has this name.
    TokenNameTaken,
    /// The loan is repaid or liquidated.
    LoanNotActive,
    /// The loan still has an outstanding balance.
    LoanNotSettled,
}

} // verus!
