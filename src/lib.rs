//! A token sale: a fixed supply, shareholders with pre-assigned percentages,
//! a time-boxed sale in which participants buy credit with the native
//! currency, and one-shot payouts to shareholders and buyers.

pub mod contract;
pub mod pricing;
pub mod shares;
pub mod whitelist;
pub mod window;
