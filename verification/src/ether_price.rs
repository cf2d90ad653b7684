//! The price oracle: what one unit of the asset cost on a given day.

use vstd::prelude::*;
use vstd::string::*;
use crate::config::Config;
use crate::decimal::Decimal;
use crate::error::{Failure, Mismatch};
use crate::json::{de_decimal, decimal_in, JsonValue, JsonView};
use crate::reply::{Reply, STATUS_OK};

verus! {

/// The part of the oracle's document that is read: the price of the asset on
/// the day that was asked for, in the fiat currency of the ledger.
#[derive(Clone, Debug, PartialEq, Eq)]
pub struct PriceResponse {
    pub current_price: JsonValue,
}

/// What a reply of the oracle amounts to.
pub open spec fn quote_result(reply: Reply<JsonView>) -> Result<Decimal, Failure> {
    match reply {
        Reply::Unreachable => Err(Failure::OracleUnavailable),
        Reply::Answered { status, body } => if status != STATUS_OK {
            Err(Failure::OracleResponseInvalid(Mismatch::Status(status)))
        } else {
            match body {
                Some(field) => match decimal_in(field) {
                    Some(price) => Ok(price),
                    None => Err(Failure::OracleResponseInvalid(Mismatch::Shape)),
                },
                None => Err(Failure::OracleResponseInvalid(Mismatch::Shape)),
            }
        },
    }
}

/// A reply of the oracle in specifications.
pub open spec fn oracle_reply_view(reply: Reply<PriceResponse>) -> Reply<JsonView> {
    match reply {
        Reply::Unreachable => Reply::Unreachable,
        Reply::Answered { status, body } => Reply::Answered {
            status,
            body: match body {
                Some(document) => Some(document.current_price@),
                None => None,
            },
        },
    }
}

/// Turns a reply of the oracle into the price, or into the failure that ends
/// the run.
pub fn get_price(reply: Reply<PriceResponse>) -> (result: Result<Decimal, Failure>)
    ensures
        result == quote_result(oracle_reply_view(reply)),
{
    match reply {
        Reply::Unreachable => Err(Failure::OracleUnavailable),
        Reply::Answered { status, body } => {
            if status != STATUS_OK {
                return Err(Failure::OracleResponseInvalid(Mismatch::Status(status)));
            }
            match body {
                Some(document) => match de_decimal(&document.current_price) {
                    Some(price) => Ok(price),
                    None => Err(Failure::OracleResponseInvalid(Mismatch::Shape)),
                },
                None => Err(Failure::OracleResponseInvalid(Mismatch::Shape)),
            }
        },
    }
}

/// The address under which the oracle tells the price of the asset on `day`.
pub open spec fn price_url_text(config: Config, day: Seq<char>) -> Seq<char> {
    config.coingecko.api_url@ + "/coins/ethereum/history?date="@ + day + "&localization=false"@
}

/// The address to ask for the price on `day`, which is written as the
/// reconciler hands it out.
pub fn price_url(config: &Config, day: &str) -> (url: String)
    ensures
        url@ == price_url_text(*config, day@),
{
    let mut url = config.coingecko.api_url.clone();
    url.append("/coins/ethereum/history?date=");
    url.append(day);
    url.append("&localization=false");
    url
}

} // verus!
