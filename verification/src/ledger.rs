//! The ledger: the enriched records of all transactions seen so far, in the
//! order in which they were first seen, each transaction once.

use vstd::prelude::*;
use vstd::hash_set::StringHashSet;
use crate::decimal::Decimal;

verus! {

/// One transaction with its price and value.
#[derive(Clone, Debug, PartialEq, Eq)]
pub struct LedgerRecord {
    /// The explorer's identifier of the transaction.
    pub transaction_id: String,
    /// Date and time of the transaction.
    pub date: String,
    /// The quantity of the asset that was received.
    pub asset_amount: Decimal,
    /// The price of one unit of the asset on that day.
    pub unit_price: Decimal,
    /// `asset_amount` times `unit_price`.
    pub value: Decimal,
}

/// A [`LedgerRecord`] in specifications.
pub struct RecordView {
    pub transaction_id: Seq<char>,
    pub date: Seq<char>,
    pub asset_amount: Decimal,
    pub unit_price: Decimal,
    pub value: Decimal,
}

impl View for LedgerRecord {
    type V = RecordView;

    open spec fn view(&self) -> RecordView {
        RecordView {
            transaction_id: self.transaction_id@,
            date: self.date@,
            asset_amount: self.asset_amount,
            unit_price: self.unit_price,
            value: self.value,
        }
    }
}

/// The records in specifications, in their order.
pub open spec fn records_view(records: Seq<LedgerRecord>) -> Seq<RecordView> {
    Seq::new(records.len(), |i: int| records[i]@)
}

/// The identifiers that occur in the records.
pub open spec fn ids_of(records: Seq<RecordView>) -> Set<Seq<char>> {
    Set::new(|id: Seq<char>| exists|i: int| 0 <= i < records.len() && #[trigger] records[i].transaction_id == id)
}

/// No identifier occurs in two records.
pub open spec fn unique_ids(records: Seq<RecordView>) -> bool {
    forall|i: int, j: int|
        0 <= i < j < records.len() ==> #[trigger] records[i].transaction_id
            != #[trigger] records[j].transaction_id
}

/// A record more is an identifier more.
pub proof fn lemma_ids_push(records: Seq<RecordView>, record: RecordView)
    ensures
        ids_of(records.push(record)) == ids_of(records).insert(record.transaction_id),
{
    let after = records.push(record);
    assert forall|x: Seq<char>|
        ids_of(after).contains(x) == ids_of(records).insert(record.transaction_id).contains(
            x,
        ) by {
        if ids_of(after).contains(x) {
            let i = choose|i: int| 0 <= i < after.len() && #[trigger] after[i].transaction_id == x;
            if i < records.len() {
                assert(records[i].transaction_id == x);
            }
        }
        if ids_of(records).contains(x) {
            let i = choose|i: int|
                0 <= i < records.len() && #[trigger] records[i].transaction_id == x;
            assert(after[i].transaction_id == x);
        }
        if x == record.transaction_id {
            assert(after[records.len() as int].transaction_id == x);
        }
    }
    assert(ids_of(after) =~= ids_of(records).insert(record.transaction_id));
}

/// A record of a transaction that the others do not hold keeps every
/// transaction held once.
pub proof fn lemma_unique_push(records: Seq<RecordView>, record: RecordView)
    requires
        unique_ids(records),
        !ids_of(records).contains(record.transaction_id),
    ensures
        unique_ids(records.push(record)),
{
    let after = records.push(record);
    assert forall|i: int, j: int| 0 <= i < j < after.len() implies #[trigger] after[i].transaction_id
        != #[trigger] after[j].transaction_id by {
        if j == records.len() {
            assert(records[i].transaction_id == after[i].transaction_id);
        } else {
            assert(records[i].transaction_id != records[j].transaction_id);
        }
    }
}

/// The records of a ledger with the set of their identifiers.
pub struct Ledger {
    records: Vec<LedgerRecord>,
    ids: StringHashSet,
}

impl View for Ledger {
    type V = Seq<RecordView>;

    closed spec fn view(&self) -> Seq<RecordView> {
        records_view(self.records@)
    }
}

impl Ledger {
    /// What every ledger satisfies: its set of identifiers is the set of the
    /// identifiers of its records, and none of them occurs in two records.
    #[verifier::type_invariant]
    pub closed spec fn consistent(self) -> bool {
        &&& self.ids@ == ids_of(records_view(self.records@))
        &&& unique_ids(records_view(self.records@))
    }

    /// A ledger holds no transaction twice.
    pub proof fn lemma_unique(self)
        requires
            self.consistent(),
        ensures
            unique_ids(self@),
    {
    }

    /// The ledger without records.
    pub fn new() -> (ledger: Ledger)
        ensures
            ledger@ == Seq::<RecordView>::empty(),
            unique_ids(ledger@),
    {
        let records: Vec<LedgerRecord> = Vec::new();
        let ids = StringHashSet::new();
        assert(ids@ =~= ids_of(records_view(records@)));
        assert(records_view(records@) =~= Seq::<RecordView>::empty());
        Ledger { records, ids }
    }

    /// The number of records.
    pub fn len(&self) -> (n: usize)
        ensures
            n == self@.len(),
    {
        self.records.len()
    }

    /// Whether a record of the transaction `id` is in the ledger.
    pub fn contains(&self, id: &str) -> (known: bool)
        ensures
            known == ids_of(self@).contains(id@),
            unique_ids(self@),
    {
        proof {
            use_type_invariant(self);
        }
        self.ids.contains(id)
    }

    /// The records, oldest first.
    pub fn records(&self) -> (records: &Vec<LedgerRecord>)
        ensures
            records_view(records@) == self@,
            unique_ids(self@),
    {
        proof {
            use_type_invariant(self);
        }
        &self.records
    }

    /// Puts `record` behind the others, unless the ledger has a record of that
    /// transaction already: then the ledger stays as it is and the answer is
    /// `false`.
    pub fn append(&mut self, record: LedgerRecord) -> (added: bool)
        ensures
            added == !ids_of(old(self)@).contains(record@.transaction_id),
            final(self)@ == if added {
                old(self)@.push(record@)
            } else {
                old(self)@
            },
            unique_ids(final(self)@),
    {
        proof {
            use_type_invariant(&*self);
        }
        if self.ids.contains(record.transaction_id.as_str()) {
            return false;
        }
        let id = record.transaction_id.clone();
        let ghost before = records_view(self.records@);
        let mut taken = Ledger::new();
        std::mem::swap(self, &mut taken);
        let Ledger { mut records, mut ids } = taken;
        records.push(record);
        ids.insert(id);
        proof {
            assert(records_view(records@) == before.push(record@));
            lemma_ids_push(before, record@);
            lemma_unique_push(before, record@);
        }
        *self = Ledger { records, ids };
        true
    }
}

} // verus!
