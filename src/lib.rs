//! Accounting core of a collateralized money market: fixed-point decimals,
//! share pools, the utilization rate curve, interest compounding, the risk
//! discount, liquidation and the farm reward accumulators.
//!
//! Numbers: `bignum` (unbounded naturals), `big_decimal` (fixed point),
//! `utils` (ratios and time units).
//! Markets: `pool`, `asset_config`, `asset`, `price`, `prices`.
//! Accounts and actions: `account`, `actions`, `risk`, `liquidation`,
//! `executor`, `affected`, `messages`, `conservation`, `views`.
//! Farms and operation: `farm`, `farming`, `admin`, `config`, `error`.

pub mod bignum;
pub mod big_decimal;
pub mod utils;

pub mod pool;
pub mod asset_config;
pub mod asset;
pub mod price;
pub mod prices;

pub mod account;
pub mod actions;
pub mod risk;
pub mod liquidation;
pub mod executor;
pub mod affected;
pub mod messages;
pub mod conservation;
pub mod views;

pub mod farm;
pub mod admin;
pub mod farming;
pub mod config;
pub mod error;
