//! Errors of the ledger.
use vstd::prelude::*;

verus! {

/// Why an operation was refused. Every error is fatal to the enclosing call.
#[derive(Clone, Copy, Debug, PartialEq, Eq, Structural)]
pub enum LendingError {
    /// A share or amount would go below zero.
    InsufficientBalance,
    /// A computed amount or share count came out as zero.
    ZeroAmountOrShares,
    /// The referenced asset is not listed.
    AssetNotFound,
    /// The referenced account does not exist.
    AccountNotFound,
    /// No price was given for a referenced asset.
    MissingPrice,
    /// The account to liquidate is not at risk.
    NotAtRisk,
    /// The liquidation would leave the account less healthy.
    HealthDecrease,
    /// The account's debt does not exceed its collateral.
    NotBadDebt,
    /// The account would hold too many collateral and borrowed assets.
    TooManyAssets,
    /// The price data is older than the allowed staleness.
    StalePriceData,
    /// An account tried to liquidate itself.
    SelfLiquidation,
    /// The liquidator took more discounted collateral than it repaid.
    InsufficientRepayment,
    /// The acting account would be left at risk.
    AtRisk,
    /// An amount or share count would leave the integer range.
    Overflow,
    /// The caller is not the owner.
    NotOwner,
    /// Closing accounts from the reserves is switched off.
    ForceClosingDisabled,
}

impl LendingError {
    /// A short description of the error.
    pub fn message(&self) -> (r: String) {
        match self {
            LendingError::InsufficientBalance => String::from_str("Not enough balance"),
            LendingError::ZeroAmountOrShares => String::from_str("Amount or shares can't be 0"),
            LendingError::AssetNotFound => String::from_str("Asset not found"),
            LendingError::AccountNotFound => String::from_str("Account not found"),
            LendingError::MissingPrice => String::from_str("Asset price is missing"),
            LendingError::NotAtRisk => String::from_str("The liquidation account is not at risk"),
            LendingError::HealthDecrease => String::from_str(
                "The health factor of liquidation account can't decrease",
            ),
            LendingError::NotBadDebt => String::from_str(
                "Total borrowed sum is not greater than total collateral",
            ),
            LendingError::TooManyAssets => String::from_str("Too many assets"),
            LendingError::StalePriceData => String::from_str("Price data is stale"),
            LendingError::SelfLiquidation => String::from_str("Can't liquidate yourself"),
            LendingError::InsufficientRepayment => String::from_str("Not enough balances repaid"),
            LendingError::AtRisk => String::from_str("The account would be at risk"),
            LendingError::Overflow => String::from_str("Integer overflow"),
            LendingError::NotOwner => String::from_str("Not an owner"),
            LendingError::ForceClosingDisabled => String::from_str("Force closing is not enabled"),
        }
    }
}

} // verus!
