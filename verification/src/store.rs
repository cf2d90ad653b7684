//! The ledger store: how the ledger is kept between runs, as rows of
//! comma-separated values under a header row.
//!
//! This module turns a ledger into the text of its file and back. Reading and
//! replacing the file is the caller's part; it replaces the file in one step,
//! so that a reader finds the old ledger or the new one and never a part of
//! either.

use vstd::prelude::*;
use vstd::string::*;
use crate::decimal::{decimal_reading, decimal_text, law_text_is_read_back, Decimal};
use crate::error::Failure;
use crate::ledger::{records_view, unique_ids, Ledger, LedgerRecord, RecordView};

verus! {

/// The number of columns.
pub const COLUMNS: usize = 5;

/// The rows that `csv` reads from `bytes`, the header row among them, each as
/// its fields; `None` where `csv` reports an error.
pub uninterp spec fn csv_rows(bytes: Seq<u8>) -> Option<Seq<Seq<Seq<char>>>>;

/// The line, with its end, that `csv` writes for a row of these fields.
pub uninterp spec fn csv_line(fields: Seq<Seq<char>>) -> Seq<char>;

/// The fields of a row in specifications.
pub open spec fn fields_view(fields: Seq<String>) -> Seq<Seq<char>> {
    Seq::new(fields.len(), |j: int| fields[j]@)
}

/// Rows in specifications.
pub open spec fn rows_view(rows: Seq<Vec<String>>) -> Seq<Seq<Seq<char>>> {
    Seq::new(rows.len(), |i: int| fields_view(rows[i]@))
}

/// `csv::Reader::into_records` on a reader over `bytes` that takes the first
/// row for a row like the others: the rows depend on the bytes alone, and there
/// are none where a row is reported as an error.
#[verifier::external_body]
fn read_rows(bytes: &[u8]) -> (rows: Option<Vec<Vec<String>>>)
    ensures
        match rows {
            Some(rows) => csv_rows(bytes@) == Some(rows_view(rows@)),
            None => csv_rows(bytes@).is_none(),
        },
{
    csv::ReaderBuilder::new()
        .has_headers(false)
        .from_reader(bytes)
        .into_records()
        .map(|row| row.map(|fields| fields.iter().map(String::from).collect()))
        .collect::<Result<Vec<Vec<String>>, csv::Error>>()
        .ok()
}

/// `csv::Writer::write_record` on a writer of its own, over a vector of
/// bytes: the line depends on the fields alone. There always is one: the first
/// record of a writer has no other to differ from in length, a vector takes
/// every byte, and what is written are the bytes of the fields with quotes,
/// commas and the line end between them, which is text whenever the fields
/// are.
#[verifier::external_body]
fn write_line(fields: &Vec<String>) -> (line: Option<String>)
    ensures
        line is Some,
        line matches Some(text) ==> text@ == csv_line(fields_view(fields@)),
{
    let mut writer = csv::Writer::from_writer(Vec::new());
    writer.write_record(fields).ok()?;
    String::from_utf8(writer.into_inner().ok()?).ok()
}

/// The names of the columns, in the order of the columns.
pub open spec fn header_fields() -> Seq<Seq<char>> {
    seq!["transaction_id"@, "date"@, "asset_amount"@, "unit_price"@, "value"@]
}

/// The fields of the row of a record.
pub open spec fn record_fields(record: RecordView) -> Seq<Seq<char>> {
    seq![
        record.transaction_id,
        record.date,
        decimal_text(record.asset_amount),
        decimal_text(record.unit_price),
        decimal_text(record.value),
    ]
}

/// The record that a row stands for: the row has one field for each column,
/// and the last three of them are decimals.
pub open spec fn record_in(fields: Seq<Seq<char>>) -> Option<RecordView> {
    if fields.len() == COLUMNS {
        match (decimal_reading(fields[2]), decimal_reading(fields[3]), decimal_reading(fields[4])) {
            (Some(asset_amount), Some(unit_price), Some(value)) => Some(
                RecordView {
                    transaction_id: fields[0],
                    date: fields[1],
                    asset_amount,
                    unit_price,
                    value,
                },
            ),
            _ => None,
        }
    } else {
        None
    }
}

/// The records that the rows after the header stand for, in their order.
pub open spec fn records_in(rows: Seq<Seq<Seq<char>>>) -> Seq<RecordView> {
    Seq::new((rows.len() - 1) as nat, |i: int| record_in(rows[i + 1]).unwrap())
}

/// The ledger that rows stand for. No row at all is the ledger without
/// records. Otherwise the first row names the columns, every other row stands
/// for a record, and no two of them for the same transaction. Rows of another
/// kind stand for nothing: a row is never passed over.
pub open spec fn ledger_in(rows: Seq<Seq<Seq<char>>>) -> Option<Seq<RecordView>> {
    if rows.len() == 0 {
        Some(Seq::empty())
    } else if rows[0] == header_fields() && (forall|i: int|
        1 <= i < rows.len() ==> (#[trigger] record_in(rows[i])) is Some) && unique_ids(
        records_in(rows),
    ) {
        Some(records_in(rows))
    } else {
        None
    }
}

/// The rows of a ledger: the header row, then one row for each record.
pub open spec fn ledger_rows(records: Seq<RecordView>) -> Seq<Seq<Seq<char>>> {
    seq![header_fields()] + Seq::new(records.len(), |i: int| record_fields(records[i]))
}

/// What a stored ledger amounts to. A store that does not exist yet holds the
/// ledger without records; one that exists holds what its rows stand for, and
/// is corrupt where they stand for nothing.
pub open spec fn load_result(stored: Option<Seq<u8>>) -> Result<Seq<RecordView>, Failure> {
    match stored {
        None => Ok(Seq::empty()),
        Some(bytes) => match csv_rows(bytes) {
            Some(rows) => match ledger_in(rows) {
                Some(records) => Ok(records),
                None => Err(Failure::LedgerCorrupt),
            },
            None => Err(Failure::LedgerCorrupt),
        },
    }
}

/// A result of [`load`] in specifications.
pub open spec fn loaded_view(result: Result<Ledger, Failure>) -> Result<Seq<RecordView>, Failure> {
    match result {
        Ok(ledger) => Ok(ledger@),
        Err(failure) => Err(failure),
    }
}

/// The three decimals of a record are in canonical form.
pub open spec fn canonical(record: RecordView) -> bool {
    &&& record.asset_amount.is_canonical()
    &&& record.unit_price.is_canonical()
    &&& record.value.is_canonical()
}

/// The rows of a ledger stand for that ledger. Where no transaction has two
/// records and every decimal is in canonical form, the rows that are written
/// for the ledger are rows that stand for it, record by record.
pub proof fn law_rows_are_read_back(records: Seq<RecordView>)
    requires
        unique_ids(records),
        forall|i: int| 0 <= i < records.len() ==> canonical(#[trigger] records[i]),
    ensures
        ledger_in(ledger_rows(records)) == Some(records),
{
    let rows = ledger_rows(records);
    assert forall|i: int| 1 <= i < rows.len() implies (#[trigger] record_in(rows[i])) == Some(
        records[i - 1],
    ) by {
        let record = records[i - 1];
        assert(canonical(record));
        assert(rows[i] == record_fields(record));
        law_text_is_read_back(record.asset_amount);
        law_text_is_read_back(record.unit_price);
        law_text_is_read_back(record.value);
    }
    assert(records_in(rows) =~= records);
}

/// The names of the columns.
pub fn header() -> (fields: Vec<String>)
    ensures
        fields_view(fields@) == header_fields(),
{
    let mut fields: Vec<String> = Vec::new();
    fields.push(String::from_str("transaction_id"));
    fields.push(String::from_str("date"));
    fields.push(String::from_str("asset_amount"));
    fields.push(String::from_str("unit_price"));
    fields.push(String::from_str("value"));
    assert(fields_view(fields@) =~= header_fields());
    fields
}

/// The row of a record.
pub fn fields_of(record: &LedgerRecord) -> (fields: Vec<String>)
    ensures
        fields_view(fields@) == record_fields(record@),
{
    let mut fields: Vec<String> = Vec::new();
    fields.push(record.transaction_id.clone());
    fields.push(record.date.clone());
    fields.push(record.asset_amount.to_text());
    fields.push(record.unit_price.to_text());
    fields.push(record.value.to_text());
    assert(fields_view(fields@) =~= record_fields(record@));
    fields
}

/// The record that a row stands for.
pub fn record_from(fields: &Vec<String>) -> (record: Option<LedgerRecord>)
    ensures
        match record {
            Some(record) => record_in(fields_view(fields@)) == Some(record@),
            None => record_in(fields_view(fields@)).is_none(),
        },
{
    if fields.len() != COLUMNS {
        return None;
    }
    let ghost view = fields_view(fields@);
    assert(view[2] == fields@[2]@ && view[3] == fields@[3]@ && view[4] == fields@[4]@);
    assert(view[0] == fields@[0]@ && view[1] == fields@[1]@);
    let asset_amount = match Decimal::parse(fields[2].as_str()) {
        Some(number) => number,
        None => {
            return None;
        },
    };
    let unit_price = match Decimal::parse(fields[3].as_str()) {
        Some(number) => number,
        None => {
            return None;
        },
    };
    let value = match Decimal::parse(fields[4].as_str()) {
        Some(number) => number,
        None => {
            return None;
        },
    };
    Some(
        LedgerRecord {
            transaction_id: fields[0].clone(),
            date: fields[1].clone(),
            asset_amount,
            unit_price,
            value,
        },
    )
}

/// Whether two rows have the same fields.
fn same_fields(left: &Vec<String>, right: &Vec<String>) -> (same: bool)
    ensures
        same == (fields_view(left@) == fields_view(right@)),
{
    if left.len() != right.len() {
        assert(fields_view(left@).len() != fields_view(right@).len());
        return false;
    }
    let mut j: usize = 0;
    while j < left.len()
        invariant
            j <= left.len() == right.len(),
            forall|k: int| 0 <= k < j ==> left@[k]@ == right@[k]@,
        decreases left.len() - j,
    {
        if left[j] != right[j] {
            assert(fields_view(left@)[j as int] != fields_view(right@)[j as int]);
            return false;
        }
        j = j + 1;
    }
    assert(fields_view(left@) =~= fields_view(right@));
    true
}

/// The ledger that rows stand for.
pub fn ledger_from_rows(rows: &Vec<Vec<String>>) -> (ledger: Option<Ledger>)
    ensures
        match ledger {
            Some(ledger) => ledger_in(rows_view(rows@)) == Some(ledger@),
            None => ledger_in(rows_view(rows@)).is_none(),
        },
{
    let ghost all = rows_view(rows@);
    let mut ledger = Ledger::new();
    if rows.len() == 0 {
        return Some(ledger);
    }
    let names = header();
    assert(all[0] == fields_view(rows@[0]@));
    if !same_fields(&rows[0], &names) {
        return None;
    }
    let mut i: usize = 1;
    while i < rows.len()
        invariant
            1 <= i <= rows.len(),
            all == rows_view(rows@),
            all[0] == header_fields(),
            unique_ids(ledger@),
            ledger@.len() == i - 1,
            forall|k: int| 1 <= k < i ==> (#[trigger] record_in(all[k])) is Some,
            forall|k: int| 0 <= k < i - 1 ==> #[trigger] ledger@[k] == record_in(all[k + 1]).unwrap(),
        decreases rows.len() - i,
    {
        assert(all[i as int] == fields_view(rows@[i as int]@));
        let record = match record_from(&rows[i]) {
            Some(record) => record,
            None => {
                return None;
            },
        };
        let ghost before = ledger@;
        let ghost added = record@;
        if !ledger.append(record) {
            proof {
                let k = choose|k: int|
                    0 <= k < before.len() && #[trigger] before[k].transaction_id
                        == added.transaction_id;
                let found = records_in(all);
                assert(found[k] == before[k]);
                assert(found[i - 1] == added);
                assert(found[k].transaction_id == found[i - 1].transaction_id);
            }
            return None;
        }
        i = i + 1;
    }
    assert(ledger@ =~= records_in(all));
    Some(ledger)
}

/// Reads a stored ledger back. `stored` is what the store holds, or `None`
/// where it does not exist yet.
pub fn load(stored: Option<&[u8]>) -> (result: Result<Ledger, Failure>)
    ensures
        loaded_view(result) == load_result(
            match stored {
                Some(bytes) => Some(bytes@),
                None => None,
            },
        ),
{
    match stored {
        None => Ok(Ledger::new()),
        Some(bytes) => match read_rows(bytes) {
            Some(rows) => match ledger_from_rows(&rows) {
                Some(ledger) => Ok(ledger),
                None => Err(Failure::LedgerCorrupt),
            },
            None => Err(Failure::LedgerCorrupt),
        },
    }
}

/// The rows of a ledger: the header row, then one row for each record.
pub fn rows_of(ledger: &Ledger) -> (rows: Vec<Vec<String>>)
    ensures
        rows_view(rows@) == ledger_rows(ledger@),
{
    let records = ledger.records();
    let mut rows: Vec<Vec<String>> = Vec::new();
    rows.push(header());
    let mut i: usize = 0;
    while i < records.len()
        invariant
            i <= records.len(),
            records_view(records@) == ledger@,
            rows.len() == i + 1,
            fields_view(rows@[0]@) == header_fields(),
            forall|k: int|
                0 <= k < i ==> fields_view(#[trigger] rows@[k + 1]@) == record_fields(ledger@[k]),
        decreases records.len() - i,
    {
        assert(records@[i as int]@ == ledger@[i as int]);
        rows.push(fields_of(&records[i]));
        i = i + 1;
    }
    proof {
        let made = rows_view(rows@);
        let wanted = ledger_rows(ledger@);
        assert(made.len() == wanted.len());
        assert forall|k: int| 0 <= k < made.len() implies made[k] == wanted[k] by {
            if k > 0 {
                assert(fields_view(rows@[(k - 1) + 1]@) == record_fields(ledger@[k - 1]));
            }
        }
        assert(made =~= wanted);
    }
    rows
}

/// The lines that `csv` writes for the rows, one for one.
pub open spec fn lines_of(rows: Seq<Seq<Seq<char>>>) -> Seq<Seq<char>> {
    Seq::new(rows.len(), |i: int| csv_line(rows[i]))
}

/// The lines, one behind the other.
pub open spec fn joined_text(lines: Seq<Seq<char>>) -> Seq<char>
    decreases lines.len(),
{
    if lines.len() == 0 {
        Seq::empty()
    } else {
        joined_text(lines.drop_last()) + lines.last()
    }
}

/// Writes each row as a line.
pub fn write_lines(rows: &Vec<Vec<String>>) -> (lines: Vec<String>)
    ensures
        fields_view(lines@) == lines_of(rows_view(rows@)),
{
    let ghost all = rows_view(rows@);
    let mut lines: Vec<String> = Vec::new();
    let mut i: usize = 0;
    while i < rows.len()
        invariant
            i <= rows.len(),
            all == rows_view(rows@),
            lines.len() == i,
            forall|k: int| 0 <= k < i ==> (#[trigger] csv_line(all[k])) == lines@[k]@,
        decreases rows.len() - i,
    {
        assert(all[i as int] == fields_view(rows@[i as int]@));
        lines.push(write_line(&rows[i]).unwrap());
        i = i + 1;
    }
    assert(fields_view(lines@) =~= lines_of(all));
    lines
}

/// Puts the lines one behind the other.
pub fn join_lines(lines: &Vec<String>) -> (text: String)
    ensures
        text@ == joined_text(fields_view(lines@)),
{
    let ghost all = fields_view(lines@);
    let mut text = String::new();
    let mut i: usize = 0;
    while i < lines.len()
        invariant
            i <= lines.len(),
            all == fields_view(lines@),
            text@ == joined_text(all.take(i as int)),
        decreases lines.len() - i,
    {
        proof {
            assert(all.take(i + 1).drop_last() == all.take(i as int));
            assert(all.take(i + 1).last() == lines@[i as int]@);
        }
        text.append(lines[i].as_str());
        i = i + 1;
    }
    assert(all.take(lines.len() as int) == all);
    text
}

/// The text of a stored ledger: the lines of its rows, one behind the other.
pub open spec fn ledger_text(records: Seq<RecordView>) -> Seq<char> {
    joined_text(lines_of(ledger_rows(records)))
}

/// The text under which a ledger is stored, all of it.
pub fn save(ledger: &Ledger) -> (text: String)
    ensures
        text@ == ledger_text(ledger@),
{
    let rows = rows_of(ledger);
    let lines = write_lines(&rows);
    join_lines(&lines)
}

} // verus!
