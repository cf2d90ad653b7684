//! The reconciler as a mathematical state machine: what it holds, how each
//! event changes that, and what it asks for next.

use vstd::prelude::*;
use crate::decimal::{product, Decimal};
use crate::error::{Failure, Mismatch};
use crate::ledger::{ids_of, unique_ids, RecordView};
use crate::transactions::TransactionView;

verus! {

/// How a run ended.
#[derive(Clone, Copy, Debug, PartialEq, Eq, Structural)]
pub enum Outcome {
    /// The explorer reported no transaction at all.
    NothingFetched,
    /// Every fetched transaction was in the ledger already.
    Unchanged,
    /// New records were appended and the ledger was written back.
    Updated,
    /// The run was given up; nothing was written.
    Failed(Failure),
}

/// Where a run stands.
#[derive(Clone, Copy, Debug, PartialEq, Eq, Structural)]
pub enum Phase {
    /// Waiting for the stored ledger.
    LoadLedger,
    /// Waiting for the account's transactions.
    FetchTransactions,
    /// Pricing the new transactions one after the other.
    FilterAndEnrich,
    /// Waiting for the grown ledger to be written back.
    PersistIfChanged,
    /// Over.
    Done(Outcome),
}

/// What the reconciler holds.
pub struct State {
    pub phase: Phase,
    /// The ledger as loaded, with the records appended so far.
    pub ledger: Seq<RecordView>,
    /// The transactions of this run, in the order in which they were fetched.
    pub fetched: Seq<TransactionView>,
    /// How many of them have been dealt with.
    pub cursor: nat,
    /// Whether a record has been appended in this run.
    pub changed: bool,
    /// Whether the pause that goes before the next request to the oracle has
    /// been taken.
    pub paused: bool,
}

/// What the outside world reports to the reconciler.
pub enum EventView {
    LedgerLoaded(Result<Seq<RecordView>, Failure>),
    TransactionsFetched(Result<Seq<TransactionView>, Failure>),
    PauseElapsed,
    PriceQuoted(Result<Decimal, Failure>),
    LedgerSaved,
}

/// What the reconciler asks the outside world to do.
pub enum ActionView {
    LoadLedger,
    FetchTransactions,
    Pause,
    QuotePrice { day: Seq<char> },
    SaveLedger,
    Stop(Outcome),
}

/// The record of a transaction at a price; none where the value cannot be
/// held exactly.
pub open spec fn record_of(transaction: TransactionView, price: Decimal) -> Option<RecordView> {
    match product(transaction.eth_value, price) {
        Some(value) => Some(
            RecordView {
                transaction_id: transaction.id,
                date: transaction.timestamp.date_time,
                asset_amount: transaction.eth_value,
                unit_price: price,
                value,
            },
        ),
        None => None,
    }
}

/// The records with `record` behind them, unless they hold its transaction
/// already.
pub open spec fn with_record(records: Seq<RecordView>, record: RecordView) -> Seq<RecordView> {
    if ids_of(records).contains(record.transaction_id) {
        records
    } else {
        records.push(record)
    }
}

/// The first place at or after `from` of a fetched transaction that the ledger
/// does not hold; the number of fetched transactions where there is none.
pub open spec fn next_new(ledger: Seq<RecordView>, fetched: Seq<TransactionView>, from: nat) -> nat
    decreases fetched.len() - from,
{
    if from >= fetched.len() {
        fetched.len()
    } else if !ids_of(ledger).contains(fetched[from as int].id) {
        from
    } else {
        next_new(ledger, fetched, from + 1)
    }
}

/// The state after the reconciler has looked for the next new transaction from
/// `from` on: it goes on pricing where there is one, waits for the ledger to be
/// written where there is none and the ledger has grown, and is done where
/// nothing was new.
pub open spec fn seek(s: State, from: nat) -> State {
    let cursor = next_new(s.ledger, s.fetched, from);
    if cursor < s.fetched.len() {
        State { phase: Phase::FilterAndEnrich, cursor, paused: false, ..s }
    } else if s.changed {
        State { phase: Phase::PersistIfChanged, cursor, paused: false, ..s }
    } else {
        State { phase: Phase::Done(Outcome::Unchanged), cursor, paused: false, ..s }
    }
}

/// The state in which every run begins.
pub open spec fn initial() -> State {
    State {
        phase: Phase::LoadLedger,
        ledger: Seq::empty(),
        fetched: Seq::empty(),
        cursor: 0,
        changed: false,
        paused: false,
    }
}

/// The run is over, for the given reason.
pub open spec fn failed(s: State, failure: Failure) -> State {
    State { phase: Phase::Done(Outcome::Failed(failure)), ..s }
}

/// Whether the reconciler owes a pause before it may ask the oracle again:
/// it does after every request to the oracle, and not before the first.
pub open spec fn owes_pause(s: State) -> bool {
    s.changed && !s.paused
}

/// The state after an event. An event that the reconciler is not waiting for
/// changes nothing.
pub open spec fn step(s: State, event: EventView) -> State {
    match (s.phase, event) {
        (Phase::LoadLedger, EventView::LedgerLoaded(Ok(ledger))) => State {
            phase: Phase::FetchTransactions,
            ledger,
            ..s
        },
        (Phase::LoadLedger, EventView::LedgerLoaded(Err(failure))) => failed(s, failure),
        (Phase::FetchTransactions, EventView::TransactionsFetched(Ok(fetched))) => if fetched.len()
            == 0 {
            State { phase: Phase::Done(Outcome::NothingFetched), ..s }
        } else {
            seek(State { fetched, ..s }, 0)
        },
        (Phase::FetchTransactions, EventView::TransactionsFetched(Err(failure))) => failed(
            s,
            failure,
        ),
        (Phase::FilterAndEnrich, EventView::PauseElapsed) => if owes_pause(s) {
            State { paused: true, ..s }
        } else {
            s
        },
        (Phase::FilterAndEnrich, EventView::PriceQuoted(quote)) => if owes_pause(s) {
            s
        } else {
            match quote {
                Ok(price) => match record_of(s.fetched[s.cursor as int], price) {
                    Some(record) => seek(
                        State {
                            ledger: with_record(s.ledger, record),
                            changed: s.changed || !ids_of(s.ledger).contains(
                                record.transaction_id,
                            ),
                            ..s
                        },
                        s.cursor + 1,
                    ),
                    None => failed(s, Failure::OracleResponseInvalid(Mismatch::Shape)),
                },
                Err(failure) => failed(s, failure),
            }
        },
        (Phase::PersistIfChanged, EventView::LedgerSaved) => State {
            phase: Phase::Done(Outcome::Updated),
            ..s
        },
        _ => s,
    }
}

/// What the reconciler asks for in a state.
pub open spec fn request(s: State) -> ActionView {
    match s.phase {
        Phase::LoadLedger => ActionView::LoadLedger,
        Phase::FetchTransactions => ActionView::FetchTransactions,
        Phase::FilterAndEnrich => if owes_pause(s) {
            ActionView::Pause
        } else {
            ActionView::QuotePrice { day: s.fetched[s.cursor as int].timestamp.day }
        },
        Phase::PersistIfChanged => ActionView::SaveLedger,
        Phase::Done(outcome) => ActionView::Stop(outcome),
    }
}

/// What a state must satisfy to occur in a run: the ledger holds no
/// transaction twice, the reconciler prices a transaction only if the ledger
/// does not hold it, it waits for the ledger to be written only if the ledger
/// has grown, and it has paused only after a request to the oracle.
pub open spec fn valid(s: State) -> bool {
    &&& unique_ids(s.ledger)
    &&& s.phase is FilterAndEnrich ==> s.cursor < s.fetched.len() && !ids_of(s.ledger).contains(
        s.fetched[s.cursor as int].id,
    )
    &&& s.phase is PersistIfChanged ==> s.changed
    &&& s.paused ==> s.changed
}

/// What an event must satisfy to be reported: a loaded ledger holds no
/// transaction twice.
pub open spec fn sound(event: EventView) -> bool {
    event matches EventView::LedgerLoaded(Ok(ledger)) ==> unique_ids(ledger)
}

/// A bound on the number of events that a run can still take in once the
/// transactions are fetched.
pub open spec fn work(s: State) -> nat {
    match s.phase {
        Phase::FilterAndEnrich => (2 * (s.fetched.len() - s.cursor) + if owes_pause(s) {
            2int
        } else {
            1int
        }) as nat,
        Phase::PersistIfChanged => 1,
        _ => 0,
    }
}

/// The answers of the price oracle in a run, in the order in which they are
/// given.
pub type Quotes = Seq<Result<Decimal, Failure>>;

/// The event that follows a request once the transactions are fetched: a pause
/// elapses, the ledger is saved, and the oracle gives its next answer as long
/// as it has one.
pub open spec fn reply(s: State, quotes: Quotes) -> Option<EventView> {
    match request(s) {
        ActionView::Pause => Some(EventView::PauseElapsed),
        ActionView::QuotePrice { .. } => if quotes.len() > 0 {
            Some(EventView::PriceQuoted(quotes[0]))
        } else {
            None
        },
        ActionView::SaveLedger => Some(EventView::LedgerSaved),
        _ => None,
    }
}

/// The answers that the oracle has left after the reply to `s`.
pub open spec fn left(s: State, quotes: Quotes) -> Quotes {
    if request(s) is QuotePrice && quotes.len() > 0 {
        quotes.drop_first()
    } else {
        quotes
    }
}

/// The state in which a run rests when it goes on from `s` and every request
/// is answered as `reply` says.
pub open spec fn settle(s: State, quotes: Quotes) -> State
    decreases work(s),
{
    match reply(s, quotes) {
        Some(event) => if work(step(s, event)) < work(s) {
            settle(step(s, event), left(s, quotes))
        } else {
            s
        },
        None => s,
    }
}

/// The requests that the reconciler makes on that way, the one of `s` first.
pub open spec fn requests(s: State, quotes: Quotes) -> Seq<ActionView>
    decreases work(s),
{
    match reply(s, quotes) {
        Some(event) => if work(step(s, event)) < work(s) {
            seq![request(s)] + requests(step(s, event), left(s, quotes))
        } else {
            seq![request(s)]
        },
        None => seq![request(s)],
    }
}

/// All that the outside world answers in one run.
pub struct World {
    pub ledger: Result<Seq<RecordView>, Failure>,
    pub transactions: Result<Seq<TransactionView>, Failure>,
    pub quotes: Quotes,
}

/// The state of a run once the ledger is loaded.
pub open spec fn loaded(world: World) -> State {
    step(initial(), EventView::LedgerLoaded(world.ledger))
}

/// The state of a run once the transactions are fetched.
pub open spec fn fetched(world: World) -> State {
    step(loaded(world), EventView::TransactionsFetched(world.transactions))
}

/// The state in which a run in that world ends.
pub open spec fn run(world: World) -> State {
    settle(fetched(world), world.quotes)
}

/// The requests of a run in that world, first to last.
pub open spec fn run_requests(world: World) -> Seq<ActionView> {
    let before = if loaded(world).phase is FetchTransactions {
        seq![ActionView::LoadLedger, ActionView::FetchTransactions]
    } else {
        seq![ActionView::LoadLedger]
    };
    before + requests(fetched(world), world.quotes)
}

/// The transactions among `fetched` that are new to someone who knows the
/// transactions `known`: each in the place where it first occurs.
pub open spec fn fresh(known: Set<Seq<char>>, fetched: Seq<TransactionView>) -> Seq<
    TransactionView,
>
    decreases fetched.len(),
{
    if fetched.len() == 0 {
        Seq::empty()
    } else if known.contains(fetched[0].id) {
        fresh(known, fetched.drop_first())
    } else {
        seq![fetched[0]] + fresh(known.insert(fetched[0].id), fetched.drop_first())
    }
}

/// Why a transaction gets no record from the oracle's answer: the oracle
/// failed, or its price gives no value that can be held. `None` where it does
/// get one.
pub open spec fn refusal(transaction: TransactionView, quote: Result<Decimal, Failure>) -> Option<
    Failure,
> {
    match quote {
        Err(failure) => Some(failure),
        Ok(price) => if record_of(transaction, price) is Some {
            None
        } else {
            Some(Failure::OracleResponseInvalid(Mismatch::Shape))
        },
    }
}

/// The oracle answers for each of the transactions, in their order, with a
/// price that gives a record.
pub open spec fn all_priced(transactions: Seq<TransactionView>, quotes: Quotes) -> bool {
    &&& transactions.len() <= quotes.len()
    &&& forall|i: int|
        0 <= i < transactions.len() ==> (#[trigger] refusal(transactions[i], quotes[i])) is None
}

/// The oracle answers for the first `at` of the transactions with prices that
/// give records, and for the next one with what gives none.
pub open spec fn fails_at(
    transactions: Seq<TransactionView>,
    quotes: Quotes,
    at: int,
    failure: Failure,
) -> bool {
    &&& 0 <= at < transactions.len()
    &&& at < quotes.len()
    &&& refusal(transactions[at], quotes[at]) == Some(failure)
    &&& forall|i: int| 0 <= i < at ==> (#[trigger] refusal(transactions[i], quotes[i])) is None
}

/// The records of the transactions at the prices that the oracle answers with,
/// one for one.
pub open spec fn enriched(transactions: Seq<TransactionView>, quotes: Quotes) -> Seq<RecordView> {
    Seq::new(
        transactions.len(),
        |i: int| record_of(transactions[i], quotes[i]->Ok_0).unwrap(),
    )
}

} // verus!
