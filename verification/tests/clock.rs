use staking_rewards::time::{Timestamp, DAY_PATTERN, END_OF_9999};

#[test]
fn a_second_has_a_date_and_a_day() {
    let stamp = Timestamp::from_seconds(1_700_000_000).unwrap();
    assert_eq!(stamp.seconds, 1_700_000_000);
    assert_eq!(stamp.date_time, "2023-11-14 22:13:20");
    assert_eq!(stamp.day, "14-11-2023");
}

#[test]
fn the_day_is_taken_in_utc() {
    let last = Timestamp::from_seconds(1_672_531_199).unwrap();
    assert_eq!(last.date_time, "2022-12-31 23:59:59");
    assert_eq!(last.day, "31-12-2022");
    let first = Timestamp::from_seconds(1_672_531_200).unwrap();
    assert_eq!(first.date_time, "2023-01-01 00:00:00");
    assert_eq!(first.day, "01-01-2023");
}

#[test]
fn the_epoch_and_the_time_before_it_are_dates_too() {
    let epoch = Timestamp::from_seconds(0).unwrap();
    assert_eq!(epoch.date_time, "1970-01-01 00:00:00");
    assert_eq!(epoch.day, "01-01-1970");
    let before = Timestamp::from_seconds(-1).unwrap();
    assert_eq!(before.date_time, "1969-12-31 23:59:59");
    assert_eq!(before.day, "31-12-1969");
}

#[test]
fn seconds_beyond_the_calendar_have_no_timestamp() {
    assert_eq!(Timestamp::from_seconds(i64::MAX), None);
    assert_eq!(Timestamp::from_seconds(i64::MIN), None);
    assert_eq!(Timestamp::from_seconds(8_210_266_876_800), None);
    assert!(Timestamp::from_seconds(8_210_266_876_799).is_some());
}

#[test]
fn every_second_up_to_the_end_of_9999_has_a_timestamp() {
    assert_eq!(END_OF_9999, 253_402_300_799);
    let last = Timestamp::from_seconds(END_OF_9999).unwrap();
    assert_eq!(last.date_time, "9999-12-31 23:59:59");
    assert_eq!(last.day, "31-12-9999");
    let mut seconds = 0;
    while seconds <= END_OF_9999 {
        assert!(Timestamp::from_seconds(seconds).is_some());
        seconds += 86_399 * 7919;
    }
}

#[test]
fn the_day_pattern_is_day_month_year() {
    assert_eq!(DAY_PATTERN, "%d-%m-%Y");
}
