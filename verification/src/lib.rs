//! Incremental tracking of staking rewards for one blockchain account.
//!
//! The crate holds the rules of a periodic reconciliation job: which fetched
//! transactions are new, how each one is priced, how the ledger grows, and when
//! it is written back. Network and file access are left to the caller, which
//! hands over what it received and carries out what the reconciler asks for.
//!
//! - [`reconciler`] runs the job, step by step; [`model`] says what each step
//!   does, and [`laws`] what follows for every run.
//! - [`transactions`] and [`ether_price`] read the answers of the explorer and
//!   of the price oracle; [`json`] and [`reply`] hold what both have in common.
//! - [`ledger`] is the ledger in memory, [`store`] its text between runs.
//! - [`decimal`], [`digits`] and [`time`] are the numbers and dates of it all,
//!   [`error`] the failures, [`config`] the settings.

pub mod config;
pub mod decimal;
pub mod digits;
pub mod error;
pub mod ether_price;
pub mod json;
pub mod laws;
pub mod ledger;
pub mod model;
pub mod reconciler;
pub mod reply;
pub mod store;
pub mod time;
pub mod transactions;
