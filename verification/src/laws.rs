//! What holds of every run of the reconciler.

use vstd::prelude::*;
use crate::decimal::Decimal;
use crate::error::Failure;
use crate::ledger::{ids_of, lemma_ids_push, lemma_unique_push, unique_ids, RecordView};
use crate::model::{
    all_priced, enriched, fails_at, fetched, fresh, initial, left, loaded, next_new, owes_pause,
    record_of, refusal, reply, request, requests, run, run_requests, seek, settle, sound, step,
    valid, with_record, work, ActionView, EventView, Outcome, Phase, Quotes, State, World,
};
use crate::transactions::TransactionView;

verus! {

/// Where the search for the next new transaction ends: at a transaction that
/// the ledger does not hold, or behind the last; and the ledger holds every
/// transaction that the search passed.
pub proof fn lemma_next_new(ledger: Seq<RecordView>, fetched: Seq<TransactionView>, from: nat)
    requires
        from <= fetched.len(),
    ensures
        from <= next_new(ledger, fetched, from) <= fetched.len(),
        next_new(ledger, fetched, from) < fetched.len() ==> !ids_of(ledger).contains(
            fetched[next_new(ledger, fetched, from) as int].id,
        ),
        forall|j: int|
            from <= j < next_new(ledger, fetched, from) ==> ids_of(ledger).contains(
                (#[trigger] fetched[j]).id,
            ),
    decreases fetched.len() - from,
{
    if from < fetched.len() && ids_of(ledger).contains(fetched[from as int].id) {
        lemma_next_new(ledger, fetched, from + 1);
    }
}

/// The search keeps a state valid.
pub proof fn lemma_seek_valid(s: State, from: nat)
    requires
        unique_ids(s.ledger),
        from <= s.fetched.len(),
    ensures
        valid(seek(s, from)),
{
    lemma_next_new(s.ledger, s.fetched, from);
}

/// Every state of a run is valid: the first one is, and every event that can
/// be reported leads from a valid state to a valid one. So the ledger holds no
/// transaction twice, at any time.
pub proof fn law_step_keeps_valid(s: State, event: EventView)
    requires
        valid(s),
        sound(event),
    ensures
        valid(initial()),
        valid(step(s, event)),
{
    match (s.phase, event) {
        (Phase::FetchTransactions, EventView::TransactionsFetched(Ok(fetched))) => {
            if fetched.len() > 0 {
                lemma_seek_valid(State { fetched, ..s }, 0);
            }
        },
        (Phase::FilterAndEnrich, EventView::PriceQuoted(Ok(price))) => {
            if !owes_pause(s) {
                match record_of(s.fetched[s.cursor as int], price) {
                    Some(record) => {
                        lemma_unique_push(s.ledger, record);
                        lemma_seek_valid(
                            State { ledger: with_record(s.ledger, record), changed: true, ..s },
                            s.cursor + 1,
                        );
                    },
                    None => {},
                }
            }
        },
        _ => {},
    }
}

/// Every reply brings a run nearer to its end.
pub proof fn law_progress(s: State, quotes: Quotes)
    requires
        valid(s),
        reply(s, quotes) is Some,
    ensures
        work(step(s, reply(s, quotes).unwrap())) < work(s),
{
    match (s.phase, reply(s, quotes).unwrap()) {
        (Phase::FilterAndEnrich, EventView::PriceQuoted(Ok(price))) => {
            match record_of(s.fetched[s.cursor as int], price) {
                Some(record) => {
                    lemma_next_new(with_record(s.ledger, record), s.fetched, s.cursor + 1);
                },
                None => {},
            }
        },
        _ => {},
    }
}

/// Transactions that the ledger holds are not new: the new ones from `from`
/// on are the new ones from where the search from `from` ends.
proof fn lemma_fresh_skips_known(
    ledger: Seq<RecordView>,
    fetched: Seq<TransactionView>,
    from: nat,
)
    requires
        from <= fetched.len(),
    ensures
        fresh(ids_of(ledger), fetched.skip(from as int)) == fresh(
            ids_of(ledger),
            fetched.skip(next_new(ledger, fetched, from) as int),
        ),
    decreases fetched.len() - from,
{
    if from < fetched.len() && ids_of(ledger).contains(fetched[from as int].id) {
        lemma_fresh_skips_known(ledger, fetched, from + 1);
        assert(fetched.skip(from as int).drop_first() == fetched.skip(from as int + 1));
    }
}

/// The new transactions from a new one on: that one, and then those that are
/// new to someone who knows it too.
proof fn lemma_fresh_unfold(ledger: Seq<RecordView>, fetched: Seq<TransactionView>, at: nat)
    requires
        at < fetched.len(),
        !ids_of(ledger).contains(fetched[at as int].id),
    ensures
        fresh(ids_of(ledger), fetched.skip(at as int)) == seq![fetched[at as int]] + fresh(
            ids_of(ledger).insert(fetched[at as int].id),
            fetched.skip(at as int + 1),
        ),
{
    assert(fetched.skip(at as int).drop_first() == fetched.skip(at as int + 1));
}

/// The days for which the oracle is asked, in the order of the requests.
pub open spec fn asked_days(trace: Seq<ActionView>) -> Seq<Seq<char>>
    decreases trace.len(),
{
    if trace.len() == 0 {
        Seq::empty()
    } else {
        match trace[0] {
            ActionView::QuotePrice { day } => seq![day] + asked_days(trace.drop_first()),
            _ => asked_days(trace.drop_first()),
        }
    }
}

/// The days of the transactions, one for one.
pub open spec fn days_of(transactions: Seq<TransactionView>) -> Seq<Seq<char>> {
    Seq::new(transactions.len(), |i: int| transactions[i].timestamp.day)
}

/// The days asked for in a trace that begins with `first`.
proof fn lemma_asked_days_push(first: ActionView, rest: Seq<ActionView>)
    ensures
        asked_days(seq![first] + rest) == if first is QuotePrice {
            seq![first->day] + asked_days(rest)
        } else {
            asked_days(rest)
        },
{
    assert((seq![first] + rest).drop_first() == rest);
}

/// What a price that gives a record does to a run: the record is appended,
/// the run goes on with the next new transaction or waits for the ledger to
/// be written, and the new transactions from there on are the ones that
/// followed the priced one.
proof fn lemma_after_quote(s: State, price: Decimal)
    requires
        valid(s),
        s.phase is FilterAndEnrich,
        !owes_pause(s),
        record_of(s.fetched[s.cursor as int], price) is Some,
    ensures
        ({
            let next = step(s, EventView::PriceQuoted(Ok(price)));
            let first = s.fetched[s.cursor as int];
            let new = fresh(ids_of(s.ledger), s.fetched.skip(s.cursor as int));
            let later = fresh(ids_of(next.ledger), next.fetched.skip(next.cursor as int));
            &&& valid(next)
            &&& next.fetched == s.fetched
            &&& next.ledger == s.ledger.push(record_of(first, price).unwrap())
            &&& new == seq![first] + later
            &&& next.phase is FilterAndEnrich || (next.phase is PersistIfChanged && later.len()
                == 0)
        }),
{
    let first = s.fetched[s.cursor as int];
    let record = record_of(first, price).unwrap();
    let grown = State { ledger: s.ledger.push(record), changed: true, ..s };
    let next = step(s, EventView::PriceQuoted(Ok(price)));
    assert(next == seek(grown, s.cursor + 1));
    lemma_fresh_unfold(s.ledger, s.fetched, s.cursor);
    lemma_ids_push(s.ledger, record);
    lemma_unique_push(s.ledger, record);
    lemma_seek_valid(grown, s.cursor + 1);
    lemma_fresh_skips_known(grown.ledger, s.fetched, s.cursor + 1);
    lemma_next_new(grown.ledger, s.fetched, s.cursor + 1);
    if !(next.phase is FilterAndEnrich) {
        assert(s.fetched.skip(next.cursor as int).len() == 0);
    }
}

/// A run in which the oracle prices every new transaction appends their
/// records in the order in which they were fetched and ends with the ledger
/// written back; the oracle is asked once for each of them, in that order, and
/// for nothing else.
proof fn lemma_settle_priced(s: State, quotes: Quotes)
    requires
        valid(s),
        s.phase is FilterAndEnrich,
        all_priced(fresh(ids_of(s.ledger), s.fetched.skip(s.cursor as int)), quotes),
    ensures
        settle(s, quotes).phase == Phase::Done(Outcome::Updated),
        settle(s, quotes).ledger == s.ledger + enriched(
            fresh(ids_of(s.ledger), s.fetched.skip(s.cursor as int)),
            quotes,
        ),
        asked_days(requests(s, quotes)) == days_of(
            fresh(ids_of(s.ledger), s.fetched.skip(s.cursor as int)),
        ),
    decreases work(s),
{
    let new = fresh(ids_of(s.ledger), s.fetched.skip(s.cursor as int));
    let first = s.fetched[s.cursor as int];
    lemma_fresh_unfold(s.ledger, s.fetched, s.cursor);
    law_progress(s, quotes);
    if owes_pause(s) {
        let paused = step(s, EventView::PauseElapsed);
        lemma_settle_priced(paused, quotes);
        lemma_asked_days_push(request(s), requests(paused, quotes));
    } else {
        assert(new[0] == first);
        assert(refusal(new[0], quotes[0]) is None);
        lemma_after_quote(s, quotes[0]->Ok_0);
        let next = step(s, EventView::PriceQuoted(quotes[0]));
        let rest = quotes.drop_first();
        assert(left(s, quotes) == rest);
        let later = fresh(ids_of(next.ledger), next.fetched.skip(next.cursor as int));
        assert(settle(s, quotes) == settle(next, rest));
        assert(requests(s, quotes) == seq![request(s)] + requests(next, rest));
        lemma_asked_days_push(request(s), requests(next, rest));
        if next.phase is FilterAndEnrich {
            assert(all_priced(later, rest)) by {
                assert forall|i: int| 0 <= i < later.len() implies (#[trigger] refusal(
                    later[i],
                    rest[i],
                )) is None by {
                    assert(later[i] == new[i + 1]);
                    assert(rest[i] == quotes[i + 1]);
                    assert(refusal(new[i + 1], quotes[i + 1]) is None);
                }
            }
            lemma_settle_priced(next, rest);
            assert(next.ledger + enriched(later, rest) =~= s.ledger + enriched(new, quotes)) by {
                let a = next.ledger + enriched(later, rest);
                let b = s.ledger + enriched(new, quotes);
                assert(a.len() == b.len());
                assert forall|i: int| 0 <= i < a.len() implies a[i] == b[i] by {
                    if i > s.ledger.len() {
                        let k = i - s.ledger.len();
                        assert(new[k] == later[k - 1]);
                        assert(quotes[k] == rest[k - 1]);
                    }
                }
            }
        } else {
            let saved = step(next, EventView::LedgerSaved);
            assert(settle(saved, rest) == saved);
            assert(settle(next, rest) == saved);
            assert(next.ledger =~= s.ledger + enriched(new, quotes));
            assert(requests(saved, rest) == seq![request(saved)]);
            lemma_asked_days_push(request(saved), Seq::empty());
            assert(seq![request(saved)] + Seq::<ActionView>::empty() == seq![request(saved)]);
            assert(requests(next, rest) == seq![request(next)] + seq![request(saved)]);
            lemma_asked_days_push(request(next), seq![request(saved)]);
        }
        assert(days_of(new) =~= seq![first.timestamp.day] + days_of(later));
    }
}

/// In a run in which the oracle's answer for a new transaction gives no
/// record, the oracle is asked for the new transactions up to that one, in
/// the order in which they were fetched, and for nothing after it.
proof fn lemma_asked_failed(s: State, quotes: Quotes, at: int, failure: Failure)
    requires
        valid(s),
        s.phase is FilterAndEnrich,
        fails_at(fresh(ids_of(s.ledger), s.fetched.skip(s.cursor as int)), quotes, at, failure),
    ensures
        asked_days(requests(s, quotes)) == days_of(
            fresh(ids_of(s.ledger), s.fetched.skip(s.cursor as int)).take(at + 1),
        ),
    decreases work(s),
{
    let new = fresh(ids_of(s.ledger), s.fetched.skip(s.cursor as int));
    let first = s.fetched[s.cursor as int];
    lemma_fresh_unfold(s.ledger, s.fetched, s.cursor);
    law_progress(s, quotes);
    if owes_pause(s) {
        let paused = step(s, EventView::PauseElapsed);
        lemma_asked_failed(paused, quotes, at, failure);
        lemma_asked_days_push(request(s), requests(paused, quotes));
    } else {
        assert(new[0] == first);
        let next = step(s, EventView::PriceQuoted(quotes[0]));
        let rest = quotes.drop_first();
        assert(left(s, quotes) == rest);
        assert(requests(s, quotes) == seq![request(s)] + requests(next, rest));
        lemma_asked_days_push(request(s), requests(next, rest));
        if at == 0 {
            assert(next.phase == Phase::Done(Outcome::Failed(failure)));
            assert(requests(next, rest) == seq![request(next)]);
            lemma_asked_days_push(request(next), Seq::empty());
            assert(seq![request(next)] + Seq::<ActionView>::empty() == seq![request(next)]);
            assert(days_of(new.take(1)) =~= seq![first.timestamp.day]);
        } else {
            assert(refusal(new[0], quotes[0]) is None);
            lemma_after_quote(s, quotes[0]->Ok_0);
            let later = fresh(ids_of(next.ledger), next.fetched.skip(next.cursor as int));
            assert(fails_at(later, rest, at - 1, failure)) by {
                assert(later[at - 1] == new[at]);
                assert(rest[at - 1] == quotes[at]);
                assert forall|i: int| 0 <= i < at - 1 implies (#[trigger] refusal(
                    later[i],
                    rest[i],
                )) is None by {
                    assert(later[i] == new[i + 1]);
                    assert(rest[i] == quotes[i + 1]);
                    assert(refusal(new[i + 1], quotes[i + 1]) is None);
                }
            }
            lemma_asked_failed(next, rest, at - 1, failure);
            assert(days_of(new.take(at + 1)) =~= seq![first.timestamp.day] + days_of(
                later.take(at),
            ));
        }
    }
}

/// The requests before the transactions are fetched ask the oracle for
/// nothing.
proof fn lemma_asked_in_run(world: World)
    ensures
        asked_days(run_requests(world)) == asked_days(requests(fetched(world), world.quotes)),
{
    let tail = requests(fetched(world), world.quotes);
    if loaded(world).phase is FetchTransactions {
        let after_load = seq![ActionView::FetchTransactions] + tail;
        assert(run_requests(world) =~= seq![ActionView::LoadLedger] + after_load);
        lemma_asked_days_push(ActionView::LoadLedger, after_load);
        lemma_asked_days_push(ActionView::FetchTransactions, tail);
    } else {
        assert(run_requests(world) =~= seq![ActionView::LoadLedger] + tail);
        lemma_asked_days_push(ActionView::LoadLedger, tail);
    }
}

/// The world in which the ledger is loaded, the transactions are fetched, and
/// the oracle gives the answers `quotes`.
pub open spec fn world_of(
    ledger: Seq<RecordView>,
    transactions: Seq<TransactionView>,
    quotes: Quotes,
) -> World {
    World { ledger: Ok(ledger), transactions: Ok(transactions), quotes }
}

/// How a run ends in which nothing fails.
pub open spec fn outcome_of(ledger: Seq<RecordView>, transactions: Seq<TransactionView>) -> Outcome {
    if transactions.len() == 0 {
        Outcome::NothingFetched
    } else if fresh(ids_of(ledger), transactions).len() == 0 {
        Outcome::Unchanged
    } else {
        Outcome::Updated
    }
}

/// Order is preserved. Where the oracle prices every new transaction, the
/// ledger at the end of the run is the loaded ledger, unchanged, followed by
/// the records of the new transactions in the order in which they were
/// fetched: no record is moved or dropped, and a transaction that was fetched
/// twice has one record. The oracle is asked once for each new transaction,
/// in that order, and for no other.
pub proof fn law_appends_in_fetch_order(
    ledger: Seq<RecordView>,
    transactions: Seq<TransactionView>,
    quotes: Quotes,
)
    requires
        unique_ids(ledger),
        all_priced(fresh(ids_of(ledger), transactions), quotes),
    ensures
        run(world_of(ledger, transactions, quotes)).ledger == ledger + enriched(
            fresh(ids_of(ledger), transactions),
            quotes,
        ),
        run(world_of(ledger, transactions, quotes)).phase == Phase::Done(
            outcome_of(ledger, transactions),
        ),
        asked_days(run_requests(world_of(ledger, transactions, quotes))) == days_of(
            fresh(ids_of(ledger), transactions),
        ),
{
    let world = world_of(ledger, transactions, quotes);
    let new = fresh(ids_of(ledger), transactions);
    let begun = State { fetched: transactions, ..loaded(world) };
    let s = fetched(world);
    assert(transactions.skip(0) == transactions);
    lemma_asked_in_run(world);
    if transactions.len() == 0 {
        assert(ledger + enriched(new, quotes) =~= ledger);
        assert(requests(s, quotes) == seq![request(s)]);
        lemma_asked_days_push(request(s), Seq::empty());
        assert(seq![request(s)] + Seq::<ActionView>::empty() == seq![request(s)]);
        assert(days_of(new) =~= Seq::<Seq<char>>::empty());
    } else {
        lemma_seek_valid(begun, 0);
        lemma_fresh_skips_known(ledger, transactions, 0);
        lemma_next_new(ledger, transactions, 0);
        assert(s == seek(begun, 0));
        if s.phase is FilterAndEnrich {
            lemma_fresh_unfold(ledger, transactions, s.cursor);
            lemma_settle_priced(s, quotes);
        } else {
            assert(transactions.skip(s.cursor as int).len() == 0);
            assert(ledger + enriched(new, quotes) =~= ledger);
            assert(requests(s, quotes) == seq![request(s)]);
            lemma_asked_days_push(request(s), Seq::empty());
            assert(seq![request(s)] + Seq::<ActionView>::empty() == seq![request(s)]);
            assert(days_of(new) =~= Seq::<Seq<char>>::empty());
        }
    }
}

/// An empty fetch is a run with nothing to do. Where the explorer reports no
/// transaction, the reconciler asks for the ledger and the transactions and
/// then stops: it never asks for the ledger to be written, whatever the ledger
/// holds and whatever the oracle would answer.
pub proof fn law_empty_fetch_stops(ledger: Seq<RecordView>, quotes: Quotes)
    ensures
        run_requests(world_of(ledger, Seq::empty(), quotes)) == seq![
            ActionView::LoadLedger,
            ActionView::FetchTransactions,
            ActionView::Stop(Outcome::NothingFetched),
        ],
        run(world_of(ledger, Seq::empty(), quotes)).ledger == ledger,
{
    let world = world_of(ledger, Seq::empty(), quotes);
    assert(requests(fetched(world), quotes) == seq![ActionView::Stop(Outcome::NothingFetched)]);
    assert(run_requests(world) =~= seq![
        ActionView::LoadLedger,
        ActionView::FetchTransactions,
        ActionView::Stop(Outcome::NothingFetched),
    ]);
}

/// Whoever knows a transaction more finds no transaction new that was not new
/// before, and every fetched transaction is known or among the new ones.
proof fn lemma_fresh_covers(known: Set<Seq<char>>, transactions: Seq<TransactionView>, i: int)
    requires
        0 <= i < transactions.len(),
    ensures
        known.contains(transactions[i].id) || exists|j: int|
            0 <= j < fresh(known, transactions).len() && (#[trigger] fresh(
                known,
                transactions,
            )[j]).id == transactions[i].id,
    decreases transactions.len(),
{
    let new = fresh(known, transactions);
    let first = transactions[0];
    let rest = transactions.drop_first();
    if known.contains(first.id) {
        if i > 0 {
            lemma_fresh_covers(known, rest, i - 1);
        }
    } else {
        let later = fresh(known.insert(first.id), rest);
        assert(new == seq![first] + later);
        if i == 0 {
            assert(new[0].id == transactions[i].id);
        } else {
            lemma_fresh_covers(known.insert(first.id), rest, i - 1);
            assert(rest[i - 1] == transactions[i]);
            if transactions[i].id == first.id {
                assert(new[0].id == transactions[i].id);
            } else if !known.contains(transactions[i].id) {
                let j = choose|j: int| 0 <= j < later.len() && (#[trigger] later[j]).id == rest[i - 1].id;
                assert(new[j + 1] == later[j]);
            }
        }
    }
}

/// A new transaction was fetched and is not known.
proof fn lemma_fresh_member(known: Set<Seq<char>>, transactions: Seq<TransactionView>, j: int)
    requires
        0 <= j < fresh(known, transactions).len(),
    ensures
        !known.contains(fresh(known, transactions)[j].id),
        exists|i: int|
            0 <= i < transactions.len() && #[trigger] transactions[i] == fresh(
                known,
                transactions,
            )[j],
    decreases transactions.len(),
{
    let new = fresh(known, transactions);
    let first = transactions[0];
    let rest = transactions.drop_first();
    if known.contains(first.id) {
        lemma_fresh_member(known, rest, j);
        let i = choose|i: int| 0 <= i < rest.len() && #[trigger] rest[i] == new[j];
        assert(transactions[i + 1] == new[j]);
    } else {
        let later = fresh(known.insert(first.id), rest);
        assert(new == seq![first] + later);
        if j == 0 {
            assert(transactions[0] == new[j]);
        } else {
            lemma_fresh_member(known.insert(first.id), rest, j - 1);
            assert(new[j] == later[j - 1]);
            let i = choose|i: int| 0 <= i < rest.len() && #[trigger] rest[i] == later[j - 1];
            assert(transactions[i + 1] == new[j]);
        }
    }
}

/// No two new transactions are the same transaction.
proof fn lemma_fresh_distinct(
    known: Set<Seq<char>>,
    transactions: Seq<TransactionView>,
    j: int,
    k: int,
)
    requires
        0 <= j < k < fresh(known, transactions).len(),
    ensures
        fresh(known, transactions)[j].id != fresh(known, transactions)[k].id,
    decreases transactions.len(),
{
    let new = fresh(known, transactions);
    let first = transactions[0];
    let rest = transactions.drop_first();
    if known.contains(first.id) {
        lemma_fresh_distinct(known, rest, j, k);
    } else {
        let later = fresh(known.insert(first.id), rest);
        assert(new == seq![first] + later);
        assert(new[k] == later[k - 1]);
        if j == 0 {
            lemma_fresh_member(known.insert(first.id), rest, k - 1);
        } else {
            assert(new[j] == later[j - 1]);
            lemma_fresh_distinct(known.insert(first.id), rest, j - 1, k - 1);
        }
    }
}

/// The new transactions are the unknown ones, each once. Every new
/// transaction was fetched and is not known; no two new transactions are the
/// same transaction; and every fetched transaction is known or among the new
/// ones.
pub proof fn law_new_transactions(known: Set<Seq<char>>, transactions: Seq<TransactionView>)
    ensures
        forall|j: int|
            0 <= j < fresh(known, transactions).len() ==> !known.contains(
                (#[trigger] fresh(known, transactions)[j]).id,
            ) && transactions.contains(fresh(known, transactions)[j]),
        forall|j: int, k: int|
            0 <= j < k < fresh(known, transactions).len() ==> (#[trigger] fresh(
                known,
                transactions,
            )[j]).id != (#[trigger] fresh(known, transactions)[k]).id,
        forall|i: int|
            0 <= i < transactions.len() ==> known.contains((#[trigger] transactions[i]).id)
                || exists|j: int|
                0 <= j < fresh(known, transactions).len() && (#[trigger] fresh(
                    known,
                    transactions,
                )[j]).id == transactions[i].id,
{
    let new = fresh(known, transactions);
    assert forall|j: int| 0 <= j < new.len() implies !known.contains((#[trigger] new[j]).id)
        && transactions.contains(new[j]) by {
        lemma_fresh_member(known, transactions, j);
    }
    assert forall|j: int, k: int| 0 <= j < k < new.len() implies (#[trigger] new[j]).id != (
    #[trigger] new[k]).id by {
        lemma_fresh_distinct(known, transactions, j, k);
    }
    assert forall|i: int| 0 <= i < transactions.len() implies known.contains(
        (#[trigger] transactions[i]).id,
    ) || exists|j: int| 0 <= j < new.len() && (#[trigger] new[j]).id == transactions[i].id by {
        lemma_fresh_covers(known, transactions, i);
    }
}

/// A ledger that holds every fetched transaction sends the search behind the
/// last of them.
proof fn lemma_nothing_new(ledger: Seq<RecordView>, transactions: Seq<TransactionView>, from: nat)
    requires
        from <= transactions.len(),
        forall|i: int|
            0 <= i < transactions.len() ==> ids_of(ledger).contains(
                (#[trigger] transactions[i]).id,
            ),
    ensures
        next_new(ledger, transactions, from) == transactions.len(),
    decreases transactions.len() - from,
{
    if from < transactions.len() {
        assert(ids_of(ledger).contains(transactions[from as int].id));
        lemma_nothing_new(ledger, transactions, from + 1);
    }
}

/// A run keeps its state valid to the end.
proof fn lemma_settle_valid(s: State, quotes: Quotes)
    requires
        valid(s),
    ensures
        valid(settle(s, quotes)),
    decreases work(s),
{
    match reply(s, quotes) {
        Some(event) => {
            law_step_keeps_valid(s, event);
            if work(step(s, event)) < work(s) {
                lemma_settle_valid(step(s, event), left(s, quotes));
            }
        },
        None => {},
    }
}

/// Deduplication is idempotent. After a run in which the oracle priced every
/// new transaction, the ledger holds each fetched transaction, and no
/// transaction twice. A second run that loads this ledger and fetches the same
/// transactions asks for the ledger and the transactions and then stops: it
/// asks the oracle for no price, does not ask for the ledger to be written, and
/// leaves the ledger as it is.
pub proof fn law_second_run_is_idle(
    ledger: Seq<RecordView>,
    transactions: Seq<TransactionView>,
    quotes: Quotes,
    later: Quotes,
)
    requires
        unique_ids(ledger),
        all_priced(fresh(ids_of(ledger), transactions), quotes),
    ensures
        ({
            let first = run(world_of(ledger, transactions, quotes));
            let second = world_of(first.ledger, transactions, later);
            &&& unique_ids(first.ledger)
            &&& forall|i: int|
                0 <= i < transactions.len() ==> ids_of(first.ledger).contains(
                    (#[trigger] transactions[i]).id,
                )
            &&& run(second).ledger == first.ledger
            &&& run_requests(second) == seq![
                ActionView::LoadLedger,
                ActionView::FetchTransactions,
                ActionView::Stop(
                    if transactions.len() == 0 {
                        Outcome::NothingFetched
                    } else {
                        Outcome::Unchanged
                    },
                ),
            ]
        }),
{
    let world = world_of(ledger, transactions, quotes);
    let first = run(world);
    let second = world_of(first.ledger, transactions, later);
    let new = fresh(ids_of(ledger), transactions);
    law_appends_in_fetch_order(ledger, transactions, quotes);
    assert(valid(fetched(world))) by {
        law_step_keeps_valid(initial(), EventView::LedgerLoaded(world.ledger));
        law_step_keeps_valid(loaded(world), EventView::TransactionsFetched(world.transactions));
    }
    lemma_settle_valid(fetched(world), world.quotes);
    assert forall|i: int| 0 <= i < transactions.len() implies ids_of(first.ledger).contains(
        (#[trigger] transactions[i]).id,
    ) by {
        lemma_fresh_covers(ids_of(ledger), transactions, i);
        if ids_of(ledger).contains(transactions[i].id) {
            let k = choose|k: int|
                0 <= k < ledger.len() && #[trigger] ledger[k].transaction_id == transactions[i].id;
            assert(first.ledger[k].transaction_id == transactions[i].id);
        } else {
            let j = choose|j: int| 0 <= j < new.len() && (#[trigger] new[j]).id == transactions[i].id;
            assert(refusal(new[j], quotes[j]) is None);
            assert(first.ledger[ledger.len() + j].transaction_id == transactions[i].id);
        }
    }
    let outcome = if transactions.len() == 0 {
        Outcome::NothingFetched
    } else {
        Outcome::Unchanged
    };
    if transactions.len() > 0 {
        lemma_nothing_new(first.ledger, transactions, 0);
    }
    assert(fetched(second).phase == Phase::Done(outcome));
    assert(fetched(second).ledger == first.ledger);
    assert(requests(fetched(second), later) == seq![ActionView::Stop(outcome)]);
    assert(run_requests(second) =~= seq![
        ActionView::LoadLedger,
        ActionView::FetchTransactions,
        ActionView::Stop(outcome),
    ]);
}

/// The ledger is never asked to be written.
pub open spec fn never_saves(trace: Seq<ActionView>) -> bool {
    forall|k: int| 0 <= k < trace.len() ==> !(#[trigger] trace[k] is SaveLedger)
}

/// A run in which the oracle's answer for a new transaction gives no record
/// ends there, and the ledger is not asked to be written.
proof fn lemma_settle_failed(s: State, quotes: Quotes, at: int, failure: Failure)
    requires
        valid(s),
        s.phase is FilterAndEnrich,
        fails_at(fresh(ids_of(s.ledger), s.fetched.skip(s.cursor as int)), quotes, at, failure),
    ensures
        settle(s, quotes).phase == Phase::Done(Outcome::Failed(failure)),
        never_saves(requests(s, quotes)),
    decreases work(s),
{
    let new = fresh(ids_of(s.ledger), s.fetched.skip(s.cursor as int));
    let first = s.fetched[s.cursor as int];
    lemma_fresh_unfold(s.ledger, s.fetched, s.cursor);
    law_progress(s, quotes);
    if owes_pause(s) {
        let paused = step(s, EventView::PauseElapsed);
        lemma_settle_failed(paused, quotes, at, failure);
        assert(requests(s, quotes) == seq![request(s)] + requests(paused, quotes));
    } else {
        assert(new[0] == first);
        let next = step(s, EventView::PriceQuoted(quotes[0]));
        let rest = quotes.drop_first();
        assert(left(s, quotes) == rest);
        assert(settle(s, quotes) == settle(next, rest));
        assert(requests(s, quotes) == seq![request(s)] + requests(next, rest));
        if at == 0 {
            assert(next.phase == Phase::Done(Outcome::Failed(failure)));
            assert(requests(next, rest) == seq![request(next)]);
        } else {
            assert(refusal(new[0], quotes[0]) is None);
            let record = record_of(first, quotes[0]->Ok_0).unwrap();
            let grown = State { ledger: s.ledger.push(record), changed: true, ..s };
            assert(next == seek(grown, s.cursor + 1));
            lemma_ids_push(s.ledger, record);
            lemma_unique_push(s.ledger, record);
            lemma_seek_valid(grown, s.cursor + 1);
            lemma_fresh_skips_known(grown.ledger, s.fetched, s.cursor + 1);
            lemma_next_new(grown.ledger, s.fetched, s.cursor + 1);
            let later = fresh(ids_of(next.ledger), s.fetched.skip(next.cursor as int));
            assert(new == seq![first] + later);
            assert(fails_at(later, rest, at - 1, failure)) by {
                assert(later[at - 1] == new[at]);
                assert(rest[at - 1] == quotes[at]);
                assert forall|i: int| 0 <= i < at - 1 implies (#[trigger] refusal(
                    later[i],
                    rest[i],
                )) is None by {
                    assert(later[i] == new[i + 1]);
                    assert(rest[i] == quotes[i + 1]);
                    assert(refusal(new[i + 1], quotes[i + 1]) is None);
                }
            }
            assert(s.fetched.skip(next.cursor as int).len() > 0) by {
                if next.cursor >= s.fetched.len() {
                    assert(s.fetched.skip(next.cursor as int).len() == 0);
                    assert(later.len() == 0);
                }
            }
            lemma_settle_failed(next, rest, at - 1, failure);
        }
    }
}

/// Failure is fatal and leaves the stored ledger alone. Where the oracle's
/// answer for one of the new transactions is a failure, or a price that gives
/// no value, while its answers for the new transactions before that one were
/// good, the run ends with that failure, and the reconciler never asks for the
/// ledger to be written: the records that it had made by then are given up
/// with the run. The oracle is asked for the new transactions up to the one
/// on which it fails, once each, and for none after it.
pub proof fn law_oracle_failure_aborts(
    ledger: Seq<RecordView>,
    transactions: Seq<TransactionView>,
    quotes: Quotes,
    at: int,
    failure: Failure,
)
    requires
        unique_ids(ledger),
        fails_at(fresh(ids_of(ledger), transactions), quotes, at, failure),
    ensures
        run(world_of(ledger, transactions, quotes)).phase == Phase::Done(
            Outcome::Failed(failure),
        ),
        never_saves(run_requests(world_of(ledger, transactions, quotes))),
        asked_days(run_requests(world_of(ledger, transactions, quotes))) == days_of(
            fresh(ids_of(ledger), transactions).take(at + 1),
        ),
{
    let world = world_of(ledger, transactions, quotes);
    let new = fresh(ids_of(ledger), transactions);
    let begun = State { fetched: transactions, ..loaded(world) };
    assert(transactions.skip(0) == transactions);
    lemma_seek_valid(begun, 0);
    lemma_fresh_skips_known(ledger, transactions, 0);
    lemma_next_new(ledger, transactions, 0);
    let s = fetched(world);
    assert(s == seek(begun, 0));
    if s.cursor >= transactions.len() {
        assert(transactions.skip(s.cursor as int).len() == 0);
    }
    lemma_settle_failed(s, quotes, at, failure);
    lemma_asked_failed(s, quotes, at, failure);
    lemma_asked_in_run(world);
    assert(never_saves(run_requests(world))) by {
        let tail = requests(s, quotes);
        assert(run_requests(world) =~= seq![ActionView::LoadLedger, ActionView::FetchTransactions]
            + tail);
    }
}

/// Among answers for the first `n` transactions, all give records or one is
/// the first that gives none.
proof fn lemma_decided_up_to(transactions: Seq<TransactionView>, quotes: Quotes, n: int)
    requires
        0 <= n <= transactions.len() <= quotes.len(),
    ensures
        (forall|i: int| 0 <= i < n ==> (#[trigger] refusal(transactions[i], quotes[i])) is None)
            || exists|at: int, failure: Failure| fails_at(transactions, quotes, at, failure),
    decreases n,
{
    if n > 0 {
        lemma_decided_up_to(transactions, quotes, n - 1);
        if forall|i: int|
            0 <= i < n - 1 ==> (#[trigger] refusal(transactions[i], quotes[i])) is None {
            let last = refusal(transactions[n - 1], quotes[n - 1]);
            if last is Some {
                assert(fails_at(transactions, quotes, n - 1, last->Some_0));
            }
        }
    }
}

/// Every run is decided by the oracle's answers. Where the ledger is loaded,
/// the transactions are fetched and the oracle answers for each new
/// transaction, one of two things holds. Each answer gives a record: then the
/// run ends as `law_appends_in_fetch_order` says. Or there is a first answer
/// that gives none: then the run ends with its failure, as
/// `law_oracle_failure_aborts` says, and the ledger is not written. A run is
/// never left with a part of its records written.
pub proof fn law_answers_decide_the_run(
    ledger: Seq<RecordView>,
    transactions: Seq<TransactionView>,
    quotes: Quotes,
)
    requires
        unique_ids(ledger),
        fresh(ids_of(ledger), transactions).len() <= quotes.len(),
    ensures
        all_priced(fresh(ids_of(ledger), transactions), quotes) ==> run(
            world_of(ledger, transactions, quotes),
        ).phase == Phase::Done(outcome_of(ledger, transactions)),
        !all_priced(fresh(ids_of(ledger), transactions), quotes) ==> exists|
            at: int,
            failure: Failure,
        |
            fails_at(fresh(ids_of(ledger), transactions), quotes, at, failure) && run(
                world_of(ledger, transactions, quotes),
            ).phase == Phase::Done(Outcome::Failed(failure)),
        !all_priced(fresh(ids_of(ledger), transactions), quotes) ==> never_saves(
            run_requests(world_of(ledger, transactions, quotes)),
        ),
{
    let new = fresh(ids_of(ledger), transactions);
    if all_priced(new, quotes) {
        law_appends_in_fetch_order(ledger, transactions, quotes);
    } else {
        lemma_decided_up_to(new, quotes, new.len() as int);
        let (at, failure) = choose|at: int, failure: Failure| fails_at(new, quotes, at, failure);
        law_oracle_failure_aborts(ledger, transactions, quotes, at, failure);
    }
}

/// Failures of the explorer and of the ledger store are fatal too. Where the
/// stored ledger cannot be read, or the explorer does not answer with a list
/// of transactions, the run ends with that failure at once: the reconciler
/// asks the oracle for no price and never asks for the ledger to be written.
pub proof fn law_early_failure_aborts(world: World)
    requires
        world.ledger is Err || world.transactions is Err,
    ensures
        run(world).phase == Phase::Done(
            Outcome::Failed(
                if world.ledger is Err {
                    world.ledger->Err_0
                } else {
                    world.transactions->Err_0
                },
            ),
        ),
        run_requests(world) == if world.ledger is Err {
            seq![ActionView::LoadLedger, ActionView::Stop(Outcome::Failed(world.ledger->Err_0))]
        } else {
            seq![
                ActionView::LoadLedger,
                ActionView::FetchTransactions,
                ActionView::Stop(Outcome::Failed(world.transactions->Err_0)),
            ]
        },
{
    let s = fetched(world);
    assert(requests(s, world.quotes) == seq![request(s)]);
    if world.ledger is Err {
        assert(run_requests(world) =~= seq![
            ActionView::LoadLedger,
            ActionView::Stop(Outcome::Failed(world.ledger->Err_0)),
        ]);
    } else {
        assert(run_requests(world) =~= seq![
            ActionView::LoadLedger,
            ActionView::FetchTransactions,
            ActionView::Stop(Outcome::Failed(world.transactions->Err_0)),
        ]);
    }
}

/// The requests keep the pace of the oracle: one is made to the oracle only
/// if none was made before (`asked`) or a pause was taken since the last one
/// (`rested`), and a pause is taken only where one is owed.
pub open spec fn paced(trace: Seq<ActionView>, asked: bool, rested: bool) -> bool
    decreases trace.len(),
{
    if trace.len() == 0 {
        true
    } else {
        match trace[0] {
            ActionView::QuotePrice { .. } => (!asked || rested) && paced(
                trace.drop_first(),
                true,
                false,
            ),
            ActionView::Pause => asked && !rested && paced(trace.drop_first(), asked, true),
            _ => paced(trace.drop_first(), asked, rested),
        }
    }
}

/// A run keeps the pace from any of its states on.
proof fn lemma_requests_paced(s: State, quotes: Quotes, asked: bool, rested: bool)
    requires
        valid(s),
        s.phase is FilterAndEnrich ==> asked == s.changed && rested == s.paused,
    ensures
        paced(requests(s, quotes), asked, rested),
    decreases work(s),
{
    let trace = requests(s, quotes);
    match reply(s, quotes) {
        Some(event) => {
            let next = step(s, event);
            law_progress(s, quotes);
            law_step_keeps_valid(s, event);
            let rest = requests(next, left(s, quotes));
            assert(trace == seq![request(s)] + rest);
            assert(trace.drop_first() == rest);
            match request(s) {
                ActionView::QuotePrice { .. } => {
                    lemma_requests_paced(next, left(s, quotes), true, false);
                },
                ActionView::Pause => {
                    lemma_requests_paced(next, left(s, quotes), asked, true);
                },
                _ => {
                    lemma_requests_paced(next, left(s, quotes), asked, rested);
                },
            }
        },
        None => {
            assert(trace.drop_first() == Seq::<ActionView>::empty());
            assert(paced(trace.drop_first(), true, false));
            assert(paced(trace.drop_first(), asked, rested));
        },
    }
}

/// Requests to the oracle are paced. In every run, whatever the world
/// answers, the reconciler takes a pause between any two requests to the
/// oracle and none before the first.
pub proof fn law_oracle_requests_are_paced(world: World)
    requires
        world.ledger matches Ok(ledger) ==> unique_ids(ledger),
    ensures
        paced(run_requests(world), false, false),
{
    let s = fetched(world);
    law_step_keeps_valid(initial(), EventView::LedgerLoaded(world.ledger));
    law_step_keeps_valid(loaded(world), EventView::TransactionsFetched(world.transactions));
    lemma_requests_paced(s, world.quotes, false, false);
    let tail = requests(s, world.quotes);
    if loaded(world).phase is FetchTransactions {
        let after_load = seq![ActionView::FetchTransactions] + tail;
        assert(run_requests(world) =~= seq![ActionView::LoadLedger] + after_load);
        assert(run_requests(world).drop_first() == after_load);
        assert(after_load.drop_first() == tail);
        assert(paced(after_load, false, false));
    } else {
        assert(run_requests(world) =~= seq![ActionView::LoadLedger] + tail);
        assert(run_requests(world).drop_first() == tail);
    }
}

/// Once the ledger is loaded, no event takes a record out of it, changes one
/// or moves one: the ledger after the event begins with the ledger before it.
pub proof fn law_step_keeps_records(s: State, event: EventView)
    requires
        !(s.phase is LoadLedger),
    ensures
        s.ledger.is_prefix_of(step(s, event).ledger),
{
    match (s.phase, event) {
        (Phase::FilterAndEnrich, EventView::PriceQuoted(Ok(price))) => {
            if !owes_pause(s) {
                match record_of(s.fetched[s.cursor as int], price) {
                    Some(record) => {
                        assert(s.ledger.is_prefix_of(with_record(s.ledger, record)));
                    },
                    None => {},
                }
            }
        },
        _ => {},
    }
}

/// A run keeps the records from any of its states on, and asks for the ledger
/// to be written only on its way to the outcome `Updated`.
proof fn lemma_settle_keeps_records(s: State, quotes: Quotes)
    requires
        valid(s),
        !(s.phase is LoadLedger),
    ensures
        s.ledger.is_prefix_of(settle(s, quotes).ledger),
        !never_saves(requests(s, quotes)) ==> settle(s, quotes).phase == Phase::Done(
            Outcome::Updated,
        ) && settle(s, quotes).ledger.len() > s.ledger.len() - if s.changed {
            1int
        } else {
            0int
        },
    decreases work(s),
{
    let trace = requests(s, quotes);
    match reply(s, quotes) {
        Some(event) => {
            let next = step(s, event);
            law_progress(s, quotes);
            law_step_keeps_valid(s, event);
            law_step_keeps_records(s, event);
            lemma_settle_keeps_records(next, left(s, quotes));
            let rest = requests(next, left(s, quotes));
            assert(trace == seq![request(s)] + rest);
            if request(s) is SaveLedger {
                assert(requests(next, left(s, quotes)) == seq![request(next)]);
            } else if !never_saves(trace) {
                let k = choose|k: int| 0 <= k < trace.len() && #[trigger] trace[k] is SaveLedger;
                assert(rest[k - 1] is SaveLedger);
            }
        },
        None => {},
    }
}

/// The ledger is append-only, and it is written only when it has grown. In
/// every run, whatever the world answers, the ledger at the end begins with
/// the ledger that was loaded. Where the reconciler asks for the ledger to be
/// written, the run ends with the outcome `Updated` and the ledger is longer
/// than the one that was loaded.
pub proof fn law_saves_only_what_grew(world: World)
    requires
        world.ledger matches Ok(ledger) ==> unique_ids(ledger),
    ensures
        world.ledger matches Ok(ledger) ==> ledger.is_prefix_of(run(world).ledger),
        !never_saves(run_requests(world)) ==> world.ledger is Ok && run(world).phase
            == Phase::Done(Outcome::Updated) && run(world).ledger.len()
            > world.ledger->Ok_0.len(),
{
    let s = fetched(world);
    law_step_keeps_valid(initial(), EventView::LedgerLoaded(world.ledger));
    law_step_keeps_valid(loaded(world), EventView::TransactionsFetched(world.transactions));
    let tail = requests(s, world.quotes);
    let trace = run_requests(world);
    if world.ledger is Ok {
        lemma_settle_keeps_records(s, world.quotes);
        if world.transactions is Ok {
            let transactions = world.transactions->Ok_0;
            if transactions.len() > 0 {
                assert(s == seek(State { fetched: transactions, ..loaded(world) }, 0));
            }
        }
        assert(!s.changed);
        assert(s.ledger == world.ledger->Ok_0);
        if !never_saves(trace) {
            let k = choose|k: int| 0 <= k < trace.len() && #[trigger] trace[k] is SaveLedger;
            assert(trace =~= seq![ActionView::LoadLedger, ActionView::FetchTransactions] + tail);
            assert(tail[k - 2] is SaveLedger);
        }
    } else {
        assert(tail == seq![request(s)]);
        assert(trace =~= seq![ActionView::LoadLedger] + tail);
    }
}

/// The ledger holds each transaction once, at the end of every run. Whatever
/// the world answers, where the loaded ledger holds no transaction twice, the
/// state in which the run ends is valid.
pub proof fn law_run_ends_valid(world: World)
    requires
        world.ledger matches Ok(ledger) ==> unique_ids(ledger),
    ensures
        valid(run(world)),
        unique_ids(run(world).ledger),
{
    law_step_keeps_valid(initial(), EventView::LedgerLoaded(world.ledger));
    law_step_keeps_valid(loaded(world), EventView::TransactionsFetched(world.transactions));
    lemma_settle_valid(fetched(world), world.quotes);
}

} // verus!
