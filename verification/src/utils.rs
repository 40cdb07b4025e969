//! Exchange rates and the arithmetic of valuing collateral against debt.

use vstd::prelude::*;
use crate::arith::lemma_ceiling;
use crate::arith::lemma_floor;
use crate::arith::lemma_product_fits;
use crate::lending::calculate_interest_rate;
use crate::lending::interest_due;
use crate::lending::BASIS_POINTS;
use crate::types::LendError;

verus! {

/// What one unit of an asset is worth in another: `numerator / denominator`
/// units of the second for each unit of the first.
#[derive(Clone, Copy, Debug, PartialEq, Eq)]
pub struct ExchangeRate {
    pub numerator: u64,
    pub denominator: u64,
}

/// How a pledge is split when it is liquidated against a debt.
#[derive(Clone, Copy, Debug, PartialEq, Eq)]
pub struct Settlement {
    /// Collateral kept to cover the debt.
    pub taken: u64,
    /// Collateral handed back to the borrower.
    pub surplus: u64,
    /// Debt that the whole pledge could not cover.
    pub loss: u64,
}

impl ExchangeRate {
    /// A rate can be applied unless its denominator is zero.
    pub open spec fn usable(self) -> bool {
        self.denominator > 0
    }

    /// The value of `amount`, truncated.
    pub open spec fn value_of(self, amount: nat) -> nat {
        (amount * self.numerator as nat) / (self.denominator as nat)
    }

    /// The least amount whose value reaches `value`.
    pub open spec fn cost_of(self, value: nat) -> nat {
        if self.numerator == 0 {
            0
        } else {
            ((value * self.denominator as nat + self.numerator as nat - 1) / (self.numerator as int)) as nat
        }
    }

    /// Where the pledge is worth the debt, only what covers the debt is taken
    /// and the rest is surplus; otherwise all of it is taken and what stays
    /// uncovered is the loss.
    pub open spec fn settlement(self, pledged: u64, debt: u64) -> Settlement {
        if self.value_of(pledged as nat) >= debt {
            Settlement {
                taken: self.cost_of(debt as nat) as u64,
                surplus: (pledged - self.cost_of(debt as nat)) as u64,
                loss: 0,
            }
        } else {
            Settlement { taken: pledged, surplus: 0, loss: (debt - self.value_of(pledged as nat)) as u64 }
        }
    }

    /// Nothing of a pledge is lost or made in a settlement, and a loss never
    /// exceeds the debt.
    pub proof fn lemma_settlement_splits(self, pledged: u64, debt: u64)
        requires
            self.usable(),
        ensures
            self.settlement(pledged, debt).taken + self.settlement(pledged, debt).surplus == pledged,
            self.settlement(pledged, debt).loss <= debt,
            self.value_of(pledged as nat) >= debt ==> self.cost_of(debt as nat) <= pledged,
    {
        if self.value_of(pledged as nat) >= debt && self.numerator != 0 {
            lemma_product_fits(pledged, self.numerator);
            lemma_product_fits(debt, self.denominator);
            lemma_floor(pledged * self.numerator, self.denominator as int, debt as int);
            lemma_ceiling(debt * self.denominator, self.numerator as int, pledged as int);
        }
    }

    /// The value of `amount` at this rate.
    pub fn worth(&self, amount: u64) -> (value: u128)
        requires
            self.usable(),
        ensures
            value == self.value_of(amount as nat),
    {
        proof {
            lemma_product_fits(amount, self.numerator);
        }
        ((amount as u128) * (self.numerator as u128)) / (self.denominator as u128)
    }

    /// Splits a pledge of `pledged` against a debt of `debt`.
    pub fn settle(&self, pledged: u64, debt: u64) -> (split: Settlement)
        requires
            self.usable(),
        ensures
            split == self.settlement(pledged, debt),
    {
        let value: u128 = self.worth(pledged);
        proof {
            self.lemma_settlement_splits(pledged, debt);
        }
        if value >= debt as u128 {
            if self.numerator == 0 {
                Settlement { taken: 0, surplus: pledged, loss: 0 }
            } else {
                proof {
                    lemma_product_fits(debt, self.denominator);
                }
                let owed: u128 = (debt as u128) * (self.denominator as u128);
                let cost: u128 = (owed + (self.numerator as u128 - 1)) / (self.numerator as u128);
                Settlement { taken: cost as u64, surplus: pledged - cost as u64, loss: 0 }
            }
        } else {
            Settlement { taken: pledged, surplus: 0, loss: debt - value as u64 }
        }
    }
}

/// A quote can be applied when the oracle gave one and it is usable.
pub open spec fn quote_usable(quote: Option<ExchangeRate>) -> bool {
    quote matches Some(rate) && rate.usable()
}

/// The rate between two tokens from the oracle's rate for each: `to` units
/// for every `from` units, or nothing where either answer is missing or the
/// source token's rate is zero.
pub open spec fn pair_rate(from_token_rate: Option<u64>, to_token_rate: Option<u64>) -> Option<ExchangeRate> {
    if from_token_rate is Some && to_token_rate is Some && from_token_rate->0 > 0 {
        Some(ExchangeRate { numerator: to_token_rate->0, denominator: from_token_rate->0 })
    } else {
        None
    }
}

/// Builds the rate between two tokens from the oracle's answer for each.
pub fn quote_pair(from_token_rate: Option<u64>, to_token_rate: Option<u64>) -> (quote: Option<ExchangeRate>)
    ensures
        quote == pair_rate(from_token_rate, to_token_rate),
        quote is Some ==> quote_usable(quote),
{
    match (from_token_rate, to_token_rate) {
        (Some(from), Some(to)) => {
            if from > 0 {
                Some(ExchangeRate { numerator: to, denominator: from })
            } else {
                None
            }
        },
        _ => None,
    }
}

/// A debt is within a loan-to-value limit of `limit` basis points when it is
/// at most that fraction of the collateral's value.
pub open spec fn within_ltv(debt: nat, collateral_value: nat, limit: nat) -> bool {
    debt * BASIS_POINTS as nat <= collateral_value * limit
}

/// Tests a debt against a loan-to-value limit.
pub fn check_ltv(debt: u64, collateral_value: u128, limit: u64) -> (ok: bool)
    ensures
        ok == within_ltv(debt as nat, collateral_value as nat, limit as nat),
{
    proof {
        lemma_product_fits(debt, BASIS_POINTS);
    }
    let scaled: u128 = (debt as u128) * (BASIS_POINTS as u128);
    if limit == 0 {
        assert(collateral_value * limit == 0) by (nonlinear_arith)
            requires
                limit == 0,
        ;
        scaled == 0
    } else {
        proof {
            lemma_ceiling(scaled as int, limit as int, collateral_value as int);
        }
        let needed: u128 = (scaled + (limit as u128 - 1)) / (limit as u128);
        collateral_value >= needed
    }
}

/// Interest and conversion arithmetic behind one handle.
pub struct UtilsContract {}

impl UtilsContract {
    /// The handle; it holds nothing.
    pub fn new() -> (utils: UtilsContract) {
        UtilsContract {  }
    }

    /// Simple interest on `amount` at `interest_rate` basis points per annum
    /// over `term` days, or `None` where it does not fit in 64 bits.
    pub fn calculate_interest_rate(&self, amount: u64, interest_rate: u64, term: u64) -> (interest: Option<u64>)
        ensures
            interest == if interest_due(amount as nat, interest_rate as nat, term as nat) <= u64::MAX {
                Some(interest_due(amount as nat, interest_rate as nat, term as nat) as u64)
            } else {
                None
            },
    {
        calculate_interest_rate(amount, interest_rate, term)
    }

    /// Converts `amount` of one token into another, given the oracle's rate
    /// for each token.
    pub fn convert_tokens(&self, from_token_rate: Option<u64>, to_token_rate: Option<u64>, amount: u64) -> (converted: Result<u64, LendError>)
        ensures
            converted == match pair_rate(from_token_rate, to_token_rate) {
                None => Err::<u64, LendError>(LendError::OracleUnavailable),
                Some(rate) => if rate.value_of(amount as nat) <= u64::MAX {
                    Ok(rate.value_of(amount as nat) as u64)
                } else {
                    Err(LendError::InvalidAmount)
                },
            },
    {
        match quote_pair(from_token_rate, to_token_rate) {
            None => Err(LendError::OracleUnavailable),
            Some(rate) => {
                let value: u128 = rate.worth(amount);
                if value <= u64::MAX as u128 {
                    Ok(value as u64)
                } else {
                    Err(LendError::InvalidAmount)
                }
            },
        }
    }
}

} // verus!
