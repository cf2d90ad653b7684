use staking_rewards::decimal::Decimal;
use staking_rewards::error::{Failure, Mismatch};
use staking_rewards::ledger::{Ledger, LedgerRecord};
use staking_rewards::model::{Outcome, Phase};
use staking_rewards::reconciler::{Action, Event, Reconciler, PACING_MILLIS};
use staking_rewards::store::{load, save};
use staking_rewards::time::Timestamp;
use staking_rewards::transactions::ParsedTransaction;

type Quote = Result<Decimal, Failure>;

/// What a run did, seen from outside.
struct Report {
    actions: Vec<Action>,
    saved: Vec<String>,
    ledger: Vec<LedgerRecord>,
    outcome: Outcome,
}

/// A store, an explorer and an oracle that answer as scripted.
fn run(
    stored: Option<&str>,
    fetched: Result<Vec<ParsedTransaction>, Failure>,
    quotes: Vec<Quote>,
) -> Report {
    let mut fetched = Some(fetched);
    let mut quotes = quotes.into_iter();
    let mut actions = Vec::new();
    let mut saved = Vec::new();
    let mut reconciler = Reconciler::new();
    loop {
        let action = reconciler.action();
        actions.push(action.clone());
        assert!(actions.len() < 1000, "the run does not end");
        let event = match action {
            Action::LoadLedger => Event::LedgerLoaded(load(stored.map(|text| text.as_bytes()))),
            Action::FetchTransactions => Event::TransactionsFetched(fetched.take().unwrap()),
            Action::Pause => Event::PauseElapsed,
            Action::QuotePrice { .. } => Event::PriceQuoted(quotes.next().unwrap()),
            Action::SaveLedger => {
                saved.push(save(reconciler.ledger()));
                Event::LedgerSaved
            }
            Action::Stop(outcome) => {
                assert_eq!(reconciler.phase(), Phase::Done(outcome));
                let ledger = reconciler.ledger().records().clone();
                return Report { actions, saved, ledger, outcome };
            }
        };
        reconciler = reconciler.react(event);
    }
}

fn transaction(id: &str, seconds: i64, amount: &str) -> ParsedTransaction {
    ParsedTransaction {
        id: id.to_string(),
        timestamp: Timestamp::from_seconds(seconds).unwrap(),
        eth_value: Decimal::parse(amount).unwrap(),
    }
}

fn price(text: &str) -> Quote {
    Ok(Decimal::parse(text).unwrap())
}

fn ask(day: &str) -> Action {
    Action::QuotePrice { day: day.to_string() }
}

fn ids(records: &[LedgerRecord]) -> Vec<&str> {
    records.iter().map(|record| record.transaction_id.as_str()).collect()
}

const DAY: i64 = 86_400;
const T0: i64 = 1_700_000_000;

const A_AND_B: &str = "transaction_id,date,asset_amount,unit_price,value\n\
                       A,2023-11-13 22:13:20,1.0,1000.0,1000.0\n\
                       B,2023-11-14 22:13:20,2.0,1500.25,3000.5\n";

#[test]
fn a_first_run_creates_the_ledger() {
    let fetched = vec![transaction("A", T0, "1"), transaction("B", T0 + DAY, "2")];
    let report = run(None, Ok(fetched), vec![price("1000"), price("1500.25")]);
    assert_eq!(report.outcome, Outcome::Updated);
    assert_eq!(
        report.actions,
        vec![
            Action::LoadLedger,
            Action::FetchTransactions,
            ask("14-11-2023"),
            Action::Pause,
            ask("15-11-2023"),
            Action::SaveLedger,
            Action::Stop(Outcome::Updated),
        ]
    );
    assert_eq!(
        report.saved,
        vec!["transaction_id,date,asset_amount,unit_price,value\n\
              A,2023-11-14 22:13:20,1.0,1000.0,1000.0\n\
              B,2023-11-15 22:13:20,2.0,1500.25,3000.5\n"
            .to_string()]
    );
}

#[test]
fn record_value_is_amount_times_price() {
    let report = run(None, Ok(vec![transaction("A", T0, "2.0")]), vec![price("1500.25")]);
    assert_eq!(report.ledger.len(), 1);
    let record = &report.ledger[0];
    assert_eq!(record.transaction_id, "A");
    assert_eq!(record.date, "2023-11-14 22:13:20");
    assert_eq!(record.asset_amount, Decimal { units: 2, scale: 0 });
    assert_eq!(record.unit_price, Decimal { units: 150025, scale: 2 });
    assert_eq!(record.value, Decimal { units: 30005, scale: 1 });
    assert_eq!(record.value.to_text(), "3000.5");
}

#[test]
fn order_preservation() {
    let fetched = vec![transaction("B", T0, "2"), transaction("C", T0 + DAY, "3")];
    let report = run(Some(A_AND_B), Ok(fetched), vec![price("2000")]);
    assert_eq!(report.outcome, Outcome::Updated);
    assert_eq!(ids(&report.ledger), vec!["A", "B", "C"]);
    assert_eq!(report.ledger[..2], load(Some(A_AND_B.as_bytes())).unwrap().records()[..]);
    assert_eq!(report.ledger[2].value, Decimal { units: 6000, scale: 0 });
    assert_eq!(
        report.actions,
        vec![
            Action::LoadLedger,
            Action::FetchTransactions,
            ask("15-11-2023"),
            Action::SaveLedger,
            Action::Stop(Outcome::Updated),
        ]
    );
    assert_eq!(
        report.saved,
        vec![format!("{}C,2023-11-15 22:13:20,3.0,2000.0,6000.0\n", A_AND_B)]
    );
}

#[test]
fn dedup_idempotence() {
    let fetched = vec![
        transaction("B", T0, "2"),
        transaction("C", T0 + DAY, "3"),
        transaction("D", T0 + 2 * DAY, "4"),
    ];
    let quotes = vec![price("2000"), price("2100")];
    let first = run(Some(A_AND_B), Ok(fetched.clone()), quotes);
    assert_eq!(ids(&first.ledger), vec!["A", "B", "C", "D"]);
    assert_eq!(first.saved.len(), 1);

    let second = run(Some(&first.saved[0]), Ok(fetched), Vec::new());
    assert_eq!(second.outcome, Outcome::Unchanged);
    assert_eq!(
        second.actions,
        vec![Action::LoadLedger, Action::FetchTransactions, Action::Stop(Outcome::Unchanged)]
    );
    assert!(second.saved.is_empty());
    assert_eq!(second.ledger, first.ledger);
    assert_eq!(ids(&second.ledger), vec!["A", "B", "C", "D"]);
}

#[test]
fn a_transaction_fetched_twice_is_priced_once() {
    let fetched = vec![
        transaction("C", T0, "3"),
        transaction("C", T0, "3"),
        transaction("D", T0 + DAY, "4"),
        transaction("C", T0, "3"),
    ];
    let report = run(Some(A_AND_B), Ok(fetched), vec![price("2000"), price("2100")]);
    assert_eq!(ids(&report.ledger), vec!["A", "B", "C", "D"]);
    assert_eq!(
        report.actions,
        vec![
            Action::LoadLedger,
            Action::FetchTransactions,
            ask("14-11-2023"),
            Action::Pause,
            ask("15-11-2023"),
            Action::SaveLedger,
            Action::Stop(Outcome::Updated),
        ]
    );
}

#[test]
fn empty_fetch_short_circuit() {
    for stored in [None, Some(""), Some(A_AND_B)] {
        let report = run(stored, Ok(Vec::new()), vec![price("1")]);
        assert_eq!(report.outcome, Outcome::NothingFetched);
        assert_eq!(
            report.actions,
            vec![
                Action::LoadLedger,
                Action::FetchTransactions,
                Action::Stop(Outcome::NothingFetched),
            ]
        );
        assert!(report.saved.is_empty());
        assert_eq!(report.ledger, *load(stored.map(|text| text.as_bytes())).unwrap().records());
    }
}

#[test]
fn fatal_propagation() {
    let fetched = vec![
        transaction("C", T0, "3"),
        transaction("D", T0 + DAY, "4"),
        transaction("E", T0 + 2 * DAY, "5"),
    ];
    let quotes = vec![price("2000"), Err(Failure::OracleUnavailable), price("2200")];
    let report = run(Some(A_AND_B), Ok(fetched), quotes);
    assert_eq!(report.outcome, Outcome::Failed(Failure::OracleUnavailable));
    assert_eq!(
        report.actions,
        vec![
            Action::LoadLedger,
            Action::FetchTransactions,
            ask("14-11-2023"),
            Action::Pause,
            ask("15-11-2023"),
            Action::Stop(Outcome::Failed(Failure::OracleUnavailable)),
        ]
    );
    assert!(report.saved.is_empty());
    let stored = load(Some(A_AND_B.as_bytes())).unwrap();
    assert_eq!(ids(stored.records()), vec!["A", "B"]);
}

#[test]
fn an_invalid_oracle_response_ends_the_run() {
    let failure = Failure::OracleResponseInvalid(Mismatch::Status(429));
    let report = run(None, Ok(vec![transaction("C", T0, "3")]), vec![Err(failure)]);
    assert_eq!(report.outcome, Outcome::Failed(failure));
    assert!(report.saved.is_empty());
}

#[test]
fn a_value_that_cannot_be_held_ends_the_run() {
    let huge = ParsedTransaction {
        id: "C".to_string(),
        timestamp: Timestamp::from_seconds(T0).unwrap(),
        eth_value: Decimal { units: u128::MAX, scale: 0 },
    };
    let report = run(None, Ok(vec![huge]), vec![price("2")]);
    assert_eq!(
        report.outcome,
        Outcome::Failed(Failure::OracleResponseInvalid(Mismatch::Shape))
    );
    assert!(report.saved.is_empty());
}

#[test]
fn a_corrupt_ledger_ends_the_run_before_the_fetch() {
    let report = run(Some("no,such,header\n"), Ok(vec![transaction("C", T0, "3")]), Vec::new());
    assert_eq!(report.outcome, Outcome::Failed(Failure::LedgerCorrupt));
    assert_eq!(
        report.actions,
        vec![Action::LoadLedger, Action::Stop(Outcome::Failed(Failure::LedgerCorrupt))]
    );
    assert!(report.saved.is_empty());
}

#[test]
fn a_failed_fetch_ends_the_run() {
    for failure in [
        Failure::SourceUnavailable,
        Failure::SourceResponseInvalid(Mismatch::Shape),
        Failure::SourceResponseInvalid(Mismatch::Status(503)),
    ] {
        let report = run(Some(A_AND_B), Err(failure), Vec::new());
        assert_eq!(report.outcome, Outcome::Failed(failure));
        assert_eq!(
            report.actions,
            vec![
                Action::LoadLedger,
                Action::FetchTransactions,
                Action::Stop(Outcome::Failed(failure)),
            ]
        );
        assert!(report.saved.is_empty());
    }
}

#[test]
fn pauses_stand_between_requests_to_the_oracle() {
    let fetched: Vec<ParsedTransaction> = (0..5)
        .map(|k| transaction(&format!("T{}", k), T0 + k * DAY, "1"))
        .collect();
    let quotes = vec![price("1"), price("2"), price("3"), price("4"), price("5")];
    let report = run(None, Ok(fetched), quotes);
    let kinds: Vec<&str> = report
        .actions
        .iter()
        .map(|action| match action {
            Action::LoadLedger => "load",
            Action::FetchTransactions => "fetch",
            Action::Pause => "pause",
            Action::QuotePrice { .. } => "quote",
            Action::SaveLedger => "save",
            Action::Stop(_) => "stop",
        })
        .collect();
    assert_eq!(
        kinds,
        vec![
            "load", "fetch", "quote", "pause", "quote", "pause", "quote", "pause", "quote",
            "pause", "quote", "save", "stop"
        ]
    );
    assert_eq!(PACING_MILLIS, 1200);
    assert!(PACING_MILLIS * 50 >= 60_000);
}

#[test]
fn known_transactions_cost_no_pause_and_no_request() {
    let fetched = vec![
        transaction("A", T0 - DAY, "1"),
        transaction("C", T0, "3"),
        transaction("B", T0, "2"),
        transaction("D", T0 + DAY, "4"),
        transaction("A", T0 - DAY, "1"),
    ];
    let report = run(Some(A_AND_B), Ok(fetched), vec![price("2000"), price("2100")]);
    assert_eq!(
        report.actions,
        vec![
            Action::LoadLedger,
            Action::FetchTransactions,
            ask("14-11-2023"),
            Action::Pause,
            ask("15-11-2023"),
            Action::SaveLedger,
            Action::Stop(Outcome::Updated),
        ]
    );
    assert_eq!(ids(&report.ledger), vec!["A", "B", "C", "D"]);
}

#[test]
fn events_that_are_not_awaited_change_nothing() {
    let reconciler = Reconciler::new();
    let reconciler = reconciler.react(Event::PauseElapsed);
    let reconciler = reconciler.react(Event::LedgerSaved);
    let reconciler = reconciler.react(Event::PriceQuoted(price("1")));
    let reconciler = reconciler.react(Event::TransactionsFetched(Ok(Vec::new())));
    assert_eq!(reconciler.action(), Action::LoadLedger);
    assert_eq!(reconciler.phase(), Phase::LoadLedger);

    let reconciler = reconciler.react(Event::LedgerLoaded(Ok(Ledger::new())));
    let reconciler = reconciler.react(Event::LedgerLoaded(Err(Failure::LedgerCorrupt)));
    assert_eq!(reconciler.action(), Action::FetchTransactions);

    let fetched = vec![transaction("A", T0, "1"), transaction("B", T0, "1")];
    let reconciler = reconciler.react(Event::TransactionsFetched(Ok(fetched)));
    let reconciler = reconciler.react(Event::PauseElapsed);
    let reconciler = reconciler.react(Event::LedgerSaved);
    assert_eq!(reconciler.action(), ask("14-11-2023"));
    assert_eq!(reconciler.phase(), Phase::FilterAndEnrich);

    let reconciler = reconciler.react(Event::PriceQuoted(price("1")));
    assert_eq!(reconciler.action(), Action::Pause);
    let reconciler = reconciler.react(Event::PriceQuoted(price("1")));
    assert_eq!(reconciler.action(), Action::Pause);
    assert_eq!(reconciler.ledger().len(), 1);
    let reconciler = reconciler.react(Event::PauseElapsed);
    let reconciler = reconciler.react(Event::PauseElapsed);
    assert_eq!(reconciler.action(), ask("14-11-2023"));

    let reconciler = reconciler.react(Event::PriceQuoted(price("1")));
    assert_eq!(reconciler.action(), Action::SaveLedger);
    assert_eq!(reconciler.phase(), Phase::PersistIfChanged);
    let reconciler = reconciler.react(Event::PriceQuoted(price("1")));
    let reconciler = reconciler.react(Event::PauseElapsed);
    assert_eq!(reconciler.action(), Action::SaveLedger);

    let reconciler = reconciler.react(Event::LedgerSaved);
    assert_eq!(reconciler.action(), Action::Stop(Outcome::Updated));
    let reconciler = reconciler.react(Event::LedgerSaved);
    let reconciler = reconciler.react(Event::LedgerLoaded(Ok(Ledger::new())));
    assert_eq!(reconciler.action(), Action::Stop(Outcome::Updated));
    assert_eq!(reconciler.ledger().len(), 2);
}
