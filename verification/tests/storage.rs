use staking_rewards::decimal::Decimal;
use staking_rewards::error::Failure;
use staking_rewards::ledger::{Ledger, LedgerRecord};
use staking_rewards::store::{
    fields_of, header, join_lines, ledger_from_rows, load, record_from, rows_of, save,
    write_lines, COLUMNS,
};

fn record(id: &str, amount: &str, price: &str) -> LedgerRecord {
    let asset_amount = Decimal::parse(amount).unwrap();
    let unit_price = Decimal::parse(price).unwrap();
    LedgerRecord {
        transaction_id: id.to_string(),
        date: "2023-11-14 22:13:20".to_string(),
        asset_amount,
        unit_price,
        value: asset_amount.times(&unit_price).unwrap(),
    }
}

fn ledger_of(records: Vec<LedgerRecord>) -> Ledger {
    let mut ledger = Ledger::new();
    for record in records {
        assert!(ledger.append(record));
    }
    ledger
}

fn row(fields: [&str; 5]) -> Vec<String> {
    fields.iter().map(|field| field.to_string()).collect()
}

const HEADER: &str = "transaction_id,date,asset_amount,unit_price,value\n";

#[test]
fn a_ledger_takes_each_transaction_once() {
    let mut ledger = Ledger::new();
    assert_eq!(ledger.len(), 0);
    assert!(!ledger.contains("0xa"));
    assert!(ledger.append(record("0xa", "2", "1500.25")));
    assert!(ledger.append(record("0xb", "1", "10")));
    assert!(!ledger.append(record("0xa", "7", "7")));
    assert_eq!(ledger.len(), 2);
    assert!(ledger.contains("0xa"));
    assert!(ledger.contains("0xb"));
    assert!(!ledger.contains("0xc"));
    assert_eq!(ledger.records(), &vec![record("0xa", "2", "1500.25"), record("0xb", "1", "10")]);
}

#[test]
fn a_store_that_does_not_exist_holds_the_empty_ledger() {
    assert_eq!(load(None).unwrap().len(), 0);
}

#[test]
fn an_empty_store_holds_the_empty_ledger() {
    assert_eq!(load(Some(b"")).unwrap().len(), 0);
    assert_eq!(load(Some(HEADER.as_bytes())).unwrap().len(), 0);
}

#[test]
fn a_ledger_is_stored_under_its_header() {
    let ledger = ledger_of(vec![record("0xa", "2.0", "1500.25"), record("0xb", "0.5", "1000")]);
    assert_eq!(
        save(&ledger),
        "transaction_id,date,asset_amount,unit_price,value\n\
         0xa,2023-11-14 22:13:20,2.0,1500.25,3000.5\n\
         0xb,2023-11-14 22:13:20,0.5,1000.0,500.0\n"
    );
    assert_eq!(save(&Ledger::new()), HEADER);
    assert_eq!(COLUMNS, 5);
}

#[test]
fn what_is_saved_is_loaded_back() {
    let mut odd = record("id, with \"quotes\"", "0.000000000000000001", "123456789.123456789");
    odd.date = "line\nbreak".to_string();
    let records = vec![record("0xa", "2.0", "1500.25"), odd, record("", "0", "0")];
    let ledger = ledger_of(records.clone());
    let text = save(&ledger);
    let loaded = load(Some(text.as_bytes())).unwrap();
    assert_eq!(loaded.records(), &records);
    assert_eq!(save(&loaded), text);
}

#[test]
fn rows_stand_for_records() {
    let fields = row(["0xa", "2023-11-14 22:13:20", "2", "1500.250", "3000.5"]);
    assert_eq!(record_from(&fields), Some(record("0xa", "2.0", "1500.25")));
    assert_eq!(fields_of(&record("0xa", "2.0", "1500.25")), row([
        "0xa",
        "2023-11-14 22:13:20",
        "2.0",
        "1500.25",
        "3000.5",
    ]));
    assert_eq!(header(), row(["transaction_id", "date", "asset_amount", "unit_price", "value"]));
    let ledger = ledger_of(vec![record("0xa", "2.0", "1500.25")]);
    assert_eq!(rows_of(&ledger), vec![header(), fields_of(&record("0xa", "2.0", "1500.25"))]);
    assert_eq!(ledger_from_rows(&rows_of(&ledger)).unwrap().records(), ledger.records());
    assert_eq!(ledger_from_rows(&Vec::new()).unwrap().len(), 0);
}

#[test]
fn the_value_of_a_row_is_taken_as_written() {
    let fields = row(["0xa", "then", "2", "3", "7"]);
    let read = record_from(&fields).unwrap();
    assert_eq!(read.value, Decimal { units: 7, scale: 0 });
}

#[test]
fn malformed_rows_make_the_ledger_corrupt() {
    let corrupt = [
        "transaction_id,date,asset_amount,unit_price\n0xa,then,1,2\n",
        "transaction_id,date,asset_amount,unit_price,value,more\n0xa,then,1,2,2,x\n",
        "date,transaction_id,asset_amount,unit_price,value\nthen,0xa,1,2,2\n",
        "transaction_id,date,eth_value,eth_price,gains\n0xa,then,1,2,2\n",
        "0xa,then,1,2,2\n",
        "transaction_id,date,asset_amount,unit_price,value\n0xa,then,1,2\n",
        "transaction_id,date,asset_amount,unit_price,value\n0xa,then,1,2,2,9\n",
        "transaction_id,date,asset_amount,unit_price,value\n0xa,then,one,2,2\n",
        "transaction_id,date,asset_amount,unit_price,value\n0xa,then,1,,2\n",
        "transaction_id,date,asset_amount,unit_price,value\n0xa,then,1,2,-2\n",
        "transaction_id,date,asset_amount,unit_price,value\n0xa,then,1,2,2\n0xb,then,1,2\n",
        "transaction_id,date,asset_amount,unit_price,value\n0xa,then,1,2,2\n0xa,later,3,4,12\n",
    ];
    for text in corrupt {
        assert_eq!(load(Some(text.as_bytes())).err(), Some(Failure::LedgerCorrupt), "{}", text);
    }
    let not_text = [HEADER.as_bytes(), &[b'0', 0xff, b',', b'a', b',', b'1', b',', b'1', b',', b'1', b'\n']].concat();
    assert_eq!(load(Some(&not_text)).err(), Some(Failure::LedgerCorrupt));
}

#[test]
fn rows_are_never_passed_over() {
    let rows = vec![
        header(),
        row(["0xa", "then", "1", "2", "2"]),
        row(["0xb", "then", "x", "2", "2"]),
        row(["0xc", "then", "1", "2", "2"]),
    ];
    assert!(ledger_from_rows(&rows).is_none());
    let rows = vec![header(), row(["0xa", "then", "1", "2", "2"]), row(["0xa", "then", "1", "2", "2"])];
    assert!(ledger_from_rows(&rows).is_none());
    let rows = vec![row(["0xa", "then", "1", "2", "2"])];
    assert!(ledger_from_rows(&rows).is_none());
}

#[test]
fn lines_are_written_one_behind_the_other() {
    let rows = vec![row(["a", "b c", "d,e", "f\"g", ""]), row(["1", "2", "3", "4", "5"])];
    let lines = write_lines(&rows);
    assert_eq!(lines, vec!["a,b c,\"d,e\",\"f\"\"g\",\n".to_string(), "1,2,3,4,5\n".to_string()]);
    assert_eq!(join_lines(&lines), "a,b c,\"d,e\",\"f\"\"g\",\n1,2,3,4,5\n");
    assert_eq!(write_lines(&Vec::new()), Vec::<String>::new());
    assert_eq!(join_lines(&Vec::new()), "");
    assert_eq!(join_lines(&vec!["ab".to_string(), "".to_string(), "c".to_string()]), "abc");
}
