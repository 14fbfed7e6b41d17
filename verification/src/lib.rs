//! Accounting core of a token-economy program.
//!
//! The library converts a user's deposited value into a locked-liquidity
//! position, computes a reward emission from that position with a
//! deterministic fixed-point logarithmic bonus curve, maintains per-user and
//! global cumulative ledgers under strict conservation invariants, classifies
//! users into discrete reward tiers, and enforces a tax-split protocol on
//! every transfer of the reward token.
//!
//! External collaborators (the liquidity exchange, the token-custody service,
//! the credential-issuance service) are represented at their interface
//! boundary only: callers obtain quotes and perform balance movements outside
//! this crate and hand the resulting plain values in.

pub mod account;
pub mod emission;
pub mod errors;
pub mod exchange;
pub mod ledger;
pub mod tax;
pub mod tier;
