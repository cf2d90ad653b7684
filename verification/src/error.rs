//! The ways in which a run fails. Each of them ends the run.

use vstd::prelude::*;
use vstd::string::*;
use crate::digits::{digits_of, text_of, unsigned_digits};

verus! {

/// What was wrong with a response that did arrive.
#[derive(Clone, Copy, Debug, PartialEq, Eq, Structural)]
pub enum Mismatch {
    /// The response came with this status code, which does not report success.
    Status(u16),
    /// The response reported success, but its body is not what was asked
    /// for.
    Shape,
}

/// Why a run ended without result.
#[derive(Clone, Copy, Debug, PartialEq, Eq, Structural)]
pub enum Failure {
    /// The stored ledger exists and cannot be read back.
    LedgerCorrupt,
    /// The request to the explorer did not complete.
    SourceUnavailable,
    /// The explorer answered something else than a list of transactions.
    SourceResponseInvalid(Mismatch),
    /// The request to the price oracle did not complete.
    OracleUnavailable,
    /// The price oracle answered something else than a price.
    OracleResponseInvalid(Mismatch),
}

/// What a response with a status code that does not report success, or of a
/// shape that was not asked for, is said to be. `wanted` names what was asked
/// for.
pub open spec fn mismatch_text(mismatch: Mismatch, wanted: Seq<char>) -> Seq<char> {
    match mismatch {
        Mismatch::Status(code) => "the request was answered with status code "@ + digits_of(
            code as nat,
        ),
        Mismatch::Shape => "the answer holds no "@ + wanted,
    }
}

/// The message of a failure: its kind, and what was observed.
pub open spec fn failure_text(failure: Failure) -> Seq<char> {
    match failure {
        Failure::LedgerCorrupt => "ledger corrupt: the stored ledger cannot be read back"@,
        Failure::SourceUnavailable => "source unavailable: the request did not complete"@,
        Failure::SourceResponseInvalid(mismatch) => "source response invalid: "@ + mismatch_text(
            mismatch,
            "list of transactions"@,
        ),
        Failure::OracleUnavailable => "oracle unavailable: the request did not complete"@,
        Failure::OracleResponseInvalid(mismatch) => "oracle response invalid: "@ + mismatch_text(
            mismatch,
            "price"@,
        ),
    }
}

impl Mismatch {
    /// Appends to `message` what was wrong with the response.
    fn explain(&self, message: &mut String, wanted: &str)
        ensures
            final(message)@ == old(message)@ + mismatch_text(*self, wanted@),
    {
        match self {
            Mismatch::Status(code) => {
                let digits = text_of(&unsigned_digits(*code as u128));
                message.append("the request was answered with status code ");
                message.append(digits.as_str());
                assert(message@ == old(message)@ + mismatch_text(*self, wanted@));
            },
            Mismatch::Shape => {
                message.append("the answer holds no ");
                message.append(wanted);
                assert(message@ == old(message)@ + mismatch_text(*self, wanted@));
            },
        }
    }
}

impl Failure {
    /// The message with which the run ends.
    pub fn describe(&self) -> (message: String)
        ensures
            message@ == failure_text(*self),
    {
        match self {
            Failure::LedgerCorrupt => String::from_str(
                "ledger corrupt: the stored ledger cannot be read back",
            ),
            Failure::SourceUnavailable => String::from_str(
                "source unavailable: the request did not complete",
            ),
            Failure::SourceResponseInvalid(mismatch) => {
                let mut message = String::from_str("source response invalid: ");
                mismatch.explain(&mut message, "list of transactions");
                message
            },
            Failure::OracleUnavailable => String::from_str(
                "oracle unavailable: the request did not complete",
            ),
            Failure::OracleResponseInvalid(mismatch) => {
                let mut message = String::from_str("oracle response invalid: ");
                mismatch.explain(&mut message, "price");
                message
            },
        }
    }
}

} // verus!
