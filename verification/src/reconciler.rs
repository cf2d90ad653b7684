//! The reconciler: it merges what the explorer reports into the ledger.
//!
//! It does no outside work itself. It says what it needs next, the caller does
//! that and reports back, and so on until it asks the caller to stop:
//!
//! ```text
//! let mut reconciler = Reconciler::new();
//! loop {
//!     let event = match reconciler.action() { .. do as asked .. };
//!     reconciler = reconciler.react(event);
//! }
//! ```

use vstd::prelude::*;
use crate::decimal::Decimal;
use crate::error::{Failure, Mismatch};
use crate::ledger::{unique_ids, Ledger, LedgerRecord};
use crate::laws::{law_step_keeps_valid, lemma_seek_valid};
use crate::model::{
    initial, next_new, request, seek, step, valid, ActionView, EventView, Outcome, Phase, State,
};
use crate::transactions::{transactions_view, ParsedTransaction, TransactionView};

verus! {

/// The least pause between two requests to the price oracle, in milliseconds.
/// The oracle takes no more than 50 requests in 60 seconds.
pub const PACING_MILLIS: u64 = 1200;

/// What the outside world reports to the reconciler.
pub enum Event {
    /// The stored ledger was read, or could not be.
    LedgerLoaded(Result<Ledger, Failure>),
    /// The explorer answered, or did not.
    TransactionsFetched(Result<Vec<ParsedTransaction>, Failure>),
    /// The pause has been taken.
    PauseElapsed,
    /// The price oracle answered, or did not.
    PriceQuoted(Result<Decimal, Failure>),
    /// The ledger has been written back.
    LedgerSaved,
}

impl View for Event {
    type V = EventView;

    open spec fn view(&self) -> EventView {
        match self {
            Event::LedgerLoaded(Ok(ledger)) => EventView::LedgerLoaded(Ok(ledger@)),
            Event::LedgerLoaded(Err(failure)) => EventView::LedgerLoaded(Err(*failure)),
            Event::TransactionsFetched(Ok(fetched)) => EventView::TransactionsFetched(
                Ok(transactions_view(fetched@)),
            ),
            Event::TransactionsFetched(Err(failure)) => EventView::TransactionsFetched(
                Err(*failure),
            ),
            Event::PauseElapsed => EventView::PauseElapsed,
            Event::PriceQuoted(quote) => EventView::PriceQuoted(*quote),
            Event::LedgerSaved => EventView::LedgerSaved,
        }
    }
}

/// What the reconciler asks the outside world to do.
#[derive(Clone, Debug, PartialEq, Eq)]
pub enum Action {
    /// Read the stored ledger and report `LedgerLoaded`.
    LoadLedger,
    /// Ask the explorer for the account's transactions and report
    /// `TransactionsFetched`.
    FetchTransactions,
    /// Wait for `PACING_MILLIS` and report `PauseElapsed`.
    Pause,
    /// Ask the oracle for the price on that day and report `PriceQuoted`.
    QuotePrice { day: String },
    /// Write the reconciler's ledger back, all of it or nothing, and report
    /// `LedgerSaved`.
    SaveLedger,
    /// The run is over.
    Stop(Outcome),
}

impl View for Action {
    type V = ActionView;

    open spec fn view(&self) -> ActionView {
        match self {
            Action::LoadLedger => ActionView::LoadLedger,
            Action::FetchTransactions => ActionView::FetchTransactions,
            Action::Pause => ActionView::Pause,
            Action::QuotePrice { day } => ActionView::QuotePrice { day: day@ },
            Action::SaveLedger => ActionView::SaveLedger,
            Action::Stop(outcome) => ActionView::Stop(*outcome),
        }
    }
}

/// One run of the job.
pub struct Reconciler {
    phase: Phase,
    ledger: Ledger,
    fetched: Vec<ParsedTransaction>,
    cursor: usize,
    changed: bool,
    paused: bool,
}

impl View for Reconciler {
    type V = State;

    closed spec fn view(&self) -> State {
        State {
            phase: self.phase,
            ledger: self.ledger@,
            fetched: transactions_view(self.fetched@),
            cursor: self.cursor as nat,
            changed: self.changed,
            paused: self.paused,
        }
    }
}

impl Reconciler {
    /// What every reconciler satisfies: its state is one that occurs in a
    /// run.
    #[verifier::type_invariant]
    pub closed spec fn in_a_run(self) -> bool {
        valid(self@)
    }

    /// The state of a reconciler is valid.
    pub proof fn lemma_valid(self)
        requires
            self.in_a_run(),
        ensures
            valid(self@),
    {
    }

    /// A run at its beginning.
    pub fn new() -> (reconciler: Reconciler)
        ensures
            reconciler@ == initial(),
            valid(reconciler@),
    {
        let fetched: Vec<ParsedTransaction> = Vec::new();
        assert(transactions_view(fetched@) =~= Seq::<TransactionView>::empty());
        let ledger = Ledger::new();
        assert(valid(initial()));
        Reconciler {
            phase: Phase::LoadLedger,
            ledger,
            fetched,
            cursor: 0,
            changed: false,
            paused: false,
        }
    }

    /// The ledger as loaded, with the records appended so far.
    pub fn ledger(&self) -> (ledger: &Ledger)
        ensures
            ledger@ == self@.ledger,
    {
        &self.ledger
    }

    /// Where the run stands.
    pub fn phase(&self) -> (phase: Phase)
        ensures
            phase == self@.phase,
    {
        self.phase
    }

    /// What the reconciler needs next.
    pub fn action(&self) -> (action: Action)
        ensures
            action@ == request(self@),
    {
        proof {
            use_type_invariant(self);
        }
        match self.phase {
            Phase::LoadLedger => Action::LoadLedger,
            Phase::FetchTransactions => Action::FetchTransactions,
            Phase::FilterAndEnrich => if self.changed && !self.paused {
                Action::Pause
            } else {
                Action::QuotePrice { day: self.fetched[self.cursor].timestamp.day.clone() }
            },
            Phase::PersistIfChanged => Action::SaveLedger,
            Phase::Done(outcome) => Action::Stop(outcome),
        }
    }

    /// Looks for the next new transaction from `from` on and goes on from
    /// there.
    fn seek_from(
        ledger: Ledger,
        fetched: Vec<ParsedTransaction>,
        from: usize,
        changed: bool,
    ) -> (next: Reconciler)
        requires
            from <= fetched.len(),
            unique_ids(ledger@),
        ensures
            next@ == seek(
                State {
                    phase: Phase::FilterAndEnrich,
                    ledger: ledger@,
                    fetched: transactions_view(fetched@),
                    cursor: from as nat,
                    changed,
                    paused: false,
                },
                from as nat,
            ),
    {
        let mut cursor: usize = from;
        while cursor < fetched.len() && ledger.contains(fetched[cursor].id.as_str())
            invariant
                from <= cursor <= fetched.len(),
                next_new(ledger@, transactions_view(fetched@), cursor as nat) == next_new(
                    ledger@,
                    transactions_view(fetched@),
                    from as nat,
                ),
            decreases fetched.len() - cursor,
        {
            cursor = cursor + 1;
        }
        let phase = if cursor < fetched.len() {
            Phase::FilterAndEnrich
        } else if changed {
            Phase::PersistIfChanged
        } else {
            Phase::Done(Outcome::Unchanged)
        };
        proof {
            lemma_seek_valid(
                State {
                    phase: Phase::FilterAndEnrich,
                    ledger: ledger@,
                    fetched: transactions_view(fetched@),
                    cursor: from as nat,
                    changed,
                    paused: false,
                },
                from as nat,
            );
        }
        Reconciler { phase, ledger, fetched, cursor, changed, paused: false }
    }

    /// Takes in what the outside world reports. An event that the reconciler
    /// is not waiting for changes nothing.
    pub fn react(self, event: Event) -> (next: Reconciler)
        ensures
            next@ == step(self@, event@),
            valid(next@),
    {
        match &event {
            Event::LedgerLoaded(Ok(loaded)) => {
                proof {
                    use_type_invariant(loaded);
                    loaded.lemma_unique();
                }
            },
            _ => {},
        }
        proof {
            use_type_invariant(&self);
            law_step_keeps_valid(self@, event@);
        }
        let Reconciler { phase, ledger, fetched, cursor, changed, paused } = self;
        proof {
            use_type_invariant(&ledger);
            ledger.lemma_unique();
            assert(transactions_view(fetched@).len() == fetched.len());
        }
        match (phase, event) {
            (Phase::LoadLedger, Event::LedgerLoaded(Ok(loaded))) => Reconciler {
                phase: Phase::FetchTransactions,
                ledger: loaded,
                fetched,
                cursor,
                changed,
                paused,
            },
            (Phase::LoadLedger, Event::LedgerLoaded(Err(failure))) => Reconciler {
                phase: Phase::Done(Outcome::Failed(failure)),
                ledger,
                fetched,
                cursor,
                changed,
                paused,
            },
            (Phase::FetchTransactions, Event::TransactionsFetched(Ok(transactions))) => {
                if transactions.len() == 0 {
                    Reconciler {
                        phase: Phase::Done(Outcome::NothingFetched),
                        ledger,
                        fetched,
                        cursor,
                        changed,
                        paused,
                    }
                } else {
                    Reconciler::seek_from(ledger, transactions, 0, changed)
                }
            },
            (Phase::FetchTransactions, Event::TransactionsFetched(Err(failure))) => Reconciler {
                phase: Phase::Done(Outcome::Failed(failure)),
                ledger,
                fetched,
                cursor,
                changed,
                paused,
            },
            (Phase::FilterAndEnrich, Event::PauseElapsed) => Reconciler {
                phase,
                ledger,
                fetched,
                cursor,
                changed,
                paused: paused || changed,
            },
            (Phase::FilterAndEnrich, Event::PriceQuoted(quote)) => {
                if changed && !paused {
                    Reconciler { phase, ledger, fetched, cursor, changed, paused }
                } else {
                    match quote {
                        Ok(price) => {
                            let transaction = &fetched[cursor];
                            match transaction.eth_value.times(&price) {
                                Some(value) => {
                                    let record = LedgerRecord {
                                        transaction_id: transaction.id.clone(),
                                        date: transaction.timestamp.date_time.clone(),
                                        asset_amount: transaction.eth_value,
                                        unit_price: price,
                                        value,
                                    };
                                    let mut ledger = ledger;
                                    let added = ledger.append(record);
                                    Reconciler::seek_from(
                                        ledger,
                                        fetched,
                                        cursor + 1,
                                        changed || added,
                                    )
                                },
                                None => Reconciler {
                                    phase: Phase::Done(
                                        Outcome::Failed(
                                            Failure::OracleResponseInvalid(Mismatch::Shape),
                                        ),
                                    ),
                                    ledger,
                                    fetched,
                                    cursor,
                                    changed,
                                    paused,
                                },
                            }
                        },
                        Err(failure) => Reconciler {
                            phase: Phase::Done(Outcome::Failed(failure)),
                            ledger,
                            fetched,
                            cursor,
                            changed,
                            paused,
                        },
                    }
                }
            },
            (Phase::PersistIfChanged, Event::LedgerSaved) => Reconciler {
                phase: Phase::Done(Outcome::Updated),
                ledger,
                fetched,
                cursor,
                changed,
                paused,
            },
            (phase, _) => Reconciler { phase, ledger, fetched, cursor, changed, paused },
        }
    }
}

} // verus!
