//! The transaction source: what the explorer reports for the account.

use vstd::prelude::*;
use vstd::string::*;
use crate::config::Config;
use crate::decimal::{lemma_reduced, pow10, reduced, Decimal, BASE_UNIT_SCALE};
use crate::error::{Failure, Mismatch};
use crate::json::{de_int, integer_in, JsonValue, JsonView};
use crate::reply::{Reply, STATUS_OK};
use crate::time::{timestamp_at, Timestamp, TimestampView, END_OF_9999};

verus! {

/// One entry of the explorer's list, as it came.
#[derive(Clone, Debug, PartialEq, Eq)]
pub struct Transaction {
    /// The identifier of the transaction.
    pub hash: JsonValue,
    /// Seconds since the start of 1970.
    pub time_stamp: JsonValue,
    /// The quantity that was moved, in the smallest units of the asset.
    pub value: JsonValue,
}

/// A [`Transaction`] in specifications.
pub struct RawView {
    pub hash: JsonView,
    pub time_stamp: JsonView,
    pub value: JsonView,
}

impl View for Transaction {
    type V = RawView;

    open spec fn view(&self) -> RawView {
        RawView { hash: self.hash@, time_stamp: self.time_stamp@, value: self.value@ }
    }
}

/// The entries in specifications, in their order.
pub open spec fn raws_view(entries: Seq<Transaction>) -> Seq<RawView> {
    Seq::new(entries.len(), |i: int| entries[i]@)
}

/// One transaction of the account, as far as a run needs it.
#[derive(Clone, Debug, PartialEq, Eq)]
pub struct ParsedTransaction {
    /// The explorer's identifier of the transaction.
    pub id: String,
    /// When the transaction took place.
    pub timestamp: Timestamp,
    /// The quantity of the asset that it moved.
    pub eth_value: Decimal,
}

/// A [`ParsedTransaction`] in specifications.
pub struct TransactionView {
    pub id: Seq<char>,
    pub timestamp: TimestampView,
    pub eth_value: Decimal,
}

impl View for ParsedTransaction {
    type V = TransactionView;

    open spec fn view(&self) -> TransactionView {
        TransactionView { id: self.id@, timestamp: self.timestamp@, eth_value: self.eth_value }
    }
}

/// The transactions in specifications, in their order.
pub open spec fn transactions_view(transactions: Seq<ParsedTransaction>) -> Seq<TransactionView> {
    Seq::new(transactions.len(), |i: int| transactions[i]@)
}

/// The quantity of the asset that `base` of its smallest units make up.
pub open spec fn asset_quantity(base: u128) -> Decimal {
    let r = reduced(base as nat, BASE_UNIT_SCALE as nat);
    Decimal { units: r.0 as u128, scale: r.1 as u8 }
}

/// The quantity is exact. It is in canonical form, and set back to the scale
/// of the smallest unit it is the number of smallest units again.
pub proof fn law_asset_quantity_is_exact(base: u128)
    ensures
        asset_quantity(base).is_canonical(),
        asset_quantity(base).scale <= BASE_UNIT_SCALE,
        asset_quantity(base).units * pow10((BASE_UNIT_SCALE - asset_quantity(base).scale) as nat)
            == base,
{
    lemma_reduced(base as nat, BASE_UNIT_SCALE as nat);
    let r = reduced(base as nat, BASE_UNIT_SCALE as nat);
    assert(r.0 <= base) by {
        crate::decimal::lemma_pow10_add((BASE_UNIT_SCALE - r.1) as nat, 0);
        assert(r.0 <= r.0 * pow10((BASE_UNIT_SCALE - r.1) as nat)) by (nonlinear_arith)
            requires
                pow10((BASE_UNIT_SCALE - r.1) as nat) > 0,
        ;
    }
}

/// The second that a time stamp field names: an unsigned integer for which
/// the calendar has a date.
pub open spec fn moment_in(field: JsonView) -> Option<TimestampView> {
    match integer_in(field) {
        Some(seconds) => if seconds <= i64::MAX {
            timestamp_at(seconds as i64)
        } else {
            None
        },
        None => None,
    }
}

/// What an entry of the explorer's list means: its hash is a string, its time
/// stamp names a second, and its value is an unsigned integer of up to 128
/// bits. An entry of another shape means nothing.
pub open spec fn transaction_of(entry: RawView) -> Option<TransactionView> {
    match (entry.hash, moment_in(entry.time_stamp), integer_in(entry.value)) {
        (JsonView::Text(id), Some(timestamp), Some(base)) => Some(
            TransactionView { id, timestamp, eth_value: asset_quantity(base) },
        ),
        _ => None,
    }
}

/// An entry that is sure to mean a transaction: its hash is a string, its
/// time stamp is an unsigned integer up to the end of the year 9999, and its
/// value is an unsigned integer of up to 128 bits.
pub open spec fn readable(entry: RawView) -> bool {
    &&& entry.hash is Text
    &&& integer_in(entry.time_stamp) matches Some(seconds) && seconds <= END_OF_9999
    &&& integer_in(entry.value) is Some
}

/// Every entry of the list is sure to mean a transaction.
pub open spec fn all_readable(entries: Seq<RawView>) -> bool {
    forall|i: int| 0 <= i < entries.len() ==> readable(#[trigger] entries[i])
}

/// What the explorer's list means: what its entries mean, in their order,
/// where each of them means something.
pub open spec fn transactions_of(entries: Seq<RawView>) -> Option<Seq<TransactionView>> {
    if forall|i: int| 0 <= i < entries.len() ==> (#[trigger] transaction_of(entries[i])) is Some {
        Some(Seq::new(entries.len(), |i: int| transaction_of(entries[i]).unwrap()))
    } else {
        None
    }
}

/// What a reply of the explorer amounts to.
pub open spec fn fetch_result(reply: Reply<Seq<RawView>>) -> Result<Seq<TransactionView>, Failure> {
    match reply {
        Reply::Unreachable => Err(Failure::SourceUnavailable),
        Reply::Answered { status, body } => if status != STATUS_OK {
            Err(Failure::SourceResponseInvalid(Mismatch::Status(status)))
        } else {
            match body {
                Some(entries) => match transactions_of(entries) {
                    Some(transactions) => Ok(transactions),
                    None => Err(Failure::SourceResponseInvalid(Mismatch::Shape)),
                },
                None => Err(Failure::SourceResponseInvalid(Mismatch::Shape)),
            }
        },
    }
}

/// A reply of the explorer in specifications.
pub open spec fn source_reply_view(reply: Reply<Vec<Transaction>>) -> Reply<Seq<RawView>> {
    match reply {
        Reply::Unreachable => Reply::Unreachable,
        Reply::Answered { status, body } => Reply::Answered {
            status,
            body: match body {
                Some(entries) => Some(raws_view(entries@)),
                None => None,
            },
        },
    }
}

/// A result of [`get_transactions`] in specifications.
pub open spec fn fetched_view(result: Result<Vec<ParsedTransaction>, Failure>) -> Result<
    Seq<TransactionView>,
    Failure,
> {
    match result {
        Ok(transactions) => Ok(transactions_view(transactions@)),
        Err(failure) => Err(failure),
    }
}

/// Reads the second that a time stamp field names.
fn parse_moment(field: &JsonValue) -> (moment: Option<Timestamp>)
    ensures
        match moment {
            Some(timestamp) => moment_in(field@) == Some(timestamp@),
            None => moment_in(field@).is_none(),
        },
        integer_in(field@) matches Some(seconds) && seconds <= END_OF_9999 ==> moment is Some,
{
    match de_int(field) {
        Some(seconds) => if seconds <= i64::MAX as u128 {
            Timestamp::from_seconds(seconds as i64)
        } else {
            None
        },
        None => None,
    }
}

/// Reads one entry of the explorer's list.
pub fn parse_transaction(entry: &Transaction) -> (parsed: Option<ParsedTransaction>)
    ensures
        match parsed {
            Some(transaction) => transaction_of(entry@) == Some(transaction@),
            None => transaction_of(entry@).is_none(),
        },
        readable(entry@) ==> parsed is Some,
{
    let id = match &entry.hash {
        JsonValue::Text(text) => text.clone(),
        _ => {
            return None;
        },
    };
    let timestamp = match parse_moment(&entry.time_stamp) {
        Some(timestamp) => timestamp,
        None => {
            return None;
        },
    };
    let base = match de_int(&entry.value) {
        Some(base) => base,
        None => {
            return None;
        },
    };
    Some(ParsedTransaction { id, timestamp, eth_value: Decimal::from_base_units(base) })
}

/// Reads the explorer's list. One entry that cannot be read spoils the list:
/// a list with a gap would let a later run take a known transaction for a new
/// one.
pub fn parse_transactions(entries: &Vec<Transaction>) -> (parsed: Option<Vec<ParsedTransaction>>)
    ensures
        match parsed {
            Some(transactions) => transactions_of(raws_view(entries@)) == Some(
                transactions_view(transactions@),
            ),
            None => transactions_of(raws_view(entries@)).is_none(),
        },
        all_readable(raws_view(entries@)) ==> parsed is Some,
{
    let ghost raws = raws_view(entries@);
    let mut transactions: Vec<ParsedTransaction> = Vec::new();
    let mut i: usize = 0;
    while i < entries.len()
        invariant
            i <= entries.len(),
            raws == raws_view(entries@),
            transactions.len() == i,
            forall|k: int|
                0 <= k < i ==> (#[trigger] transaction_of(raws[k])) == Some(transactions@[k]@),
        decreases entries.len() - i,
    {
        match parse_transaction(&entries[i]) {
            Some(transaction) => {
                transactions.push(transaction);
            },
            None => {
                assert(transaction_of(raws[i as int]).is_none());
                assert(!readable(raws[i as int]));
                return None;
            },
        }
        i = i + 1;
    }
    proof {
        let meant = transactions_of(raws);
        assert(meant is Some);
        assert(meant.unwrap() =~= transactions_view(transactions@));
    }
    Some(transactions)
}

/// Turns a reply of the explorer into the account's transactions, in the
/// explorer's order, or into the failure that ends the run. A list without
/// entries is a good answer, and so is every list of readable entries.
pub fn get_transactions(reply: Reply<Vec<Transaction>>) -> (result: Result<
    Vec<ParsedTransaction>,
    Failure,
>)
    ensures
        fetched_view(result) == fetch_result(source_reply_view(reply)),
        reply matches Reply::Answered { status, body: Some(entries) } && status == STATUS_OK
            && all_readable(raws_view(entries@)) ==> result is Ok,
{
    match reply {
        Reply::Unreachable => Err(Failure::SourceUnavailable),
        Reply::Answered { status, body } => {
            if status != STATUS_OK {
                return Err(Failure::SourceResponseInvalid(Mismatch::Status(status)));
            }
            match body {
                Some(entries) => match parse_transactions(&entries) {
                    Some(transactions) => Ok(transactions),
                    None => Err(Failure::SourceResponseInvalid(Mismatch::Shape)),
                },
                None => Err(Failure::SourceResponseInvalid(Mismatch::Shape)),
            }
        },
    }
}

/// The address under which the explorer lists the account's transactions,
/// oldest first, over the whole range of blocks.
pub open spec fn transactions_url_text(config: Config) -> Seq<char> {
    config.etherscan.api_url@ + "?module=account&action=txlist&address="@ + config.account.address@
        + "&startblock=0&endblock=99999999&page=1&offset=10&sort=asc&apikey="@
        + config.etherscan.api_token@
}

/// The address to fetch the account's transactions from.
pub fn transactions_url(config: &Config) -> (url: String)
    ensures
        url@ == transactions_url_text(*config),
{
    let mut url = config.etherscan.api_url.clone();
    url.append("?module=account&action=txlist&address=");
    url.append(config.account.address.as_str());
    url.append("&startblock=0&endblock=99999999&page=1&offset=10&sort=asc&apikey=");
    url.append(config.etherscan.api_token.as_str());
    url
}

} // verus!
