//! A collateralised lending ledger.
//!
//! Owners deposit one asset as collateral and borrow another.  The crate keeps
//! the token balances, the collateral vault and the loan book, bounds every new
//! loan by a loan-to-value limit, accrues simple interest, and liquidates loans
//! whose collateral no longer covers them.  Exchange rates come from outside:
//! every operation that needs one takes the quote as an argument.
//!
//! Amounts are whole units in 64 bits.  Time is a day number, and interest
//! rates and loan-to-value limits are in basis points.

pub mod types;
pub mod table;
pub mod arith;
pub mod utils;
pub mod lending;
pub mod collateral;
pub mod token;
pub mod borrowing;
pub mod lending_borrowing;
