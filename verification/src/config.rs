//! The settings of one run. They are read once by the caller and passed by
//! reference to whatever needs them.

use vstd::prelude::*;

verus! {

/// Where the ledger is kept.
#[derive(Clone, Debug, PartialEq, Eq)]
pub struct Records {
    pub path: String,
}

/// Access to the blockchain explorer.
#[derive(Clone, Debug, PartialEq, Eq)]
pub struct EtherscanConfig {
    pub api_token: String,
    pub api_url: String,
}

/// Access to the price oracle.
#[derive(Clone, Debug, PartialEq, Eq)]
pub struct CoingeckoConfig {
    pub api_url: String,
}

/// The account whose rewards are tracked.
#[derive(Clone, Debug, PartialEq, Eq)]
pub struct Account {
    pub address: String,
}

/// Everything a run is configured with.
#[derive(Clone, Debug, PartialEq, Eq)]
pub struct Config {
    pub etherscan: EtherscanConfig,
    pub account: Account,
    pub coingecko: CoingeckoConfig,
    pub records: Records,
}

} // verus!
