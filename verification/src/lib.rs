//! Verified core of a token-swap aggregator program.
pub mod accounts;
pub mod distribution;
pub mod error;
pub mod processor;
pub mod spl;
