use chrono::{DateTime, Duration, Utc};
use muse::records::ParseError;
use muse::sorting::sort_stably;
use muse::timestamp::Timestamp;
use muse::weight::{trend, Trend, Weight, WeightLog, WeightLogEntry};

fn stamp(instant: DateTime<Utc>) -> Timestamp {
    Timestamp::new(instant.timestamp(), instant.timestamp_subsec_nanos())
}

fn instant(stamp: Timestamp) -> DateTime<Utc> {
    DateTime::from_timestamp(stamp.secs, stamp.nanos).unwrap()
}

fn day(n: i64) -> Timestamp {
    Timestamp::new(1_546_300_800 + n * 86_400, 0)
}

fn entry(tenths: u32, timestamp: Timestamp) -> WeightLogEntry {
    WeightLogEntry::of(Weight(tenths)).at(timestamp)
}

#[test]
fn weight_log_entries_can_be_constructed_with_just_weight() {
    let weight = Weight(760);
    let now = Utc::now();

    let entry = WeightLogEntry::of(weight);

    assert_eq!(entry.weight(), weight);
    assert!(now - instant(entry.timestamp()) < Duration::milliseconds(100));
}

#[test]
fn weight_log_entries_can_be_constructed_with_weight_and_timestamp() {
    let weight = Weight(760);
    let timestamp = stamp(Utc::now());

    let entry = WeightLogEntry::of(weight).at(timestamp);

    assert_eq!(entry.weight(), weight);
    assert_eq!(entry.timestamp(), timestamp);
}

#[test]
fn weight_log_entries_can_be_inserted() {
    let mut log = WeightLog::new();

    log.insert(WeightLogEntry::of(Weight(760)));

    assert_eq!(log.len(), 1);
}

#[test]
fn weight_log_entries_are_inserted_in_ascending_date_order() {
    let weight = Weight(760);
    let now = Utc::now();
    let older_timestamp = now - Duration::days(1);
    let mut log = WeightLog::new();
    log.insert(WeightLogEntry::of(weight).at(stamp(now)));

    log.insert(WeightLogEntry::of(weight).at(stamp(older_timestamp)));

    let timestamps = log.as_slice().iter().map(WeightLogEntry::timestamp).collect::<Vec<_>>();
    assert_eq!(&timestamps, &[stamp(older_timestamp), stamp(now)]);
}

#[test]
fn weight_log_can_be_constructed_empty() {
    let log = WeightLog::new();

    assert_eq!(log.len(), 0);
}

#[test]
fn weight_log_can_be_construct_with_valid_csv() {
    let csv = [
        "weight,timestamp",
        "760,2019-01-01T00:06:00+00:00",
        "750,2019-01-02T00:06:00+00:00",
        "740,2019-01-03T00:06:00+00:00",
    ]
    .join("\n");

    let log = WeightLog::from_csv(csv.as_bytes()).unwrap();

    assert_eq!(log.len(), 3);
}

#[test]
fn weight_log_cannot_be_constructed_with_csv_missing_header_fields() {
    let csv = [
        "760,2019-01-01T00:06:00+00:00",
        "750,2019-01-02T00:06:00+00:00",
        "740,2019-01-03T00:06:00+00:00",
    ]
    .join("\n");

    let log = WeightLog::from_csv(csv.as_bytes());

    assert!(log.is_err());
}

#[test]
fn weight_log_cannot_be_constructed_with_invalid_weight_values() {
    let csv = ["weight,timestamp", "76.05,2019-01-01T00:06:00+00:00"].join("\n");

    let log = WeightLog::from_csv(csv.as_bytes());

    assert!(log.is_err());
}

#[test]
fn weight_log_cannot_be_constructed_with_invalid_timestamp_values() {
    let csv = ["weight,timestamp", "760,2019-01-01T00:06:00+00:00:00"].join("\n");

    let log = WeightLog::from_csv(csv.as_bytes());

    assert!(log.is_err());
}

#[test]
fn weight_log_calculates_the_moving_average() {
    let first_entry = WeightLogEntry::of(Weight(760)).at(stamp(Utc::now() - Duration::days(3)));
    let second_entry = WeightLogEntry::of(Weight(757)).at(stamp(Utc::now() - Duration::days(2)));
    let third_entry = WeightLogEntry::of(Weight(753)).at(stamp(Utc::now() - Duration::days(1)));
    let log = WeightLog(vec![first_entry, second_entry, third_entry]);

    let moving_average = log.moving_average(2);

    assert_eq!(moving_average[0], WeightLogEntry::of(Weight(758)).at(second_entry.timestamp()));
    assert_eq!(moving_average[1], WeightLogEntry::of(Weight(755)).at(third_entry.timestamp()));
}

#[test]
fn moving_average_has_one_entry_per_window() {
    let log = WeightLog(vec![entry(760, day(0)), entry(757, day(1)), entry(753, day(2))]);

    assert_eq!(log.moving_average(2).len(), 2);
    assert_eq!(log.moving_average(3), vec![entry(756, day(2))]);
    assert_eq!(log.moving_average(1), vec![entry(760, day(0)), entry(757, day(1)), entry(753, day(2))]);
}

#[test]
fn moving_average_of_too_few_entries_is_empty() {
    let log = WeightLog(vec![entry(760, day(0)), entry(757, day(1))]);

    assert!(log.moving_average(3).is_empty());
    assert!(WeightLog::new().moving_average(1).is_empty());
}

#[test]
fn moving_average_does_not_overflow_on_heavy_weights() {
    let log = WeightLog(vec![entry(u32::MAX, day(0)), entry(u32::MAX, day(1)), entry(u32::MAX - 1, day(2))]);

    let averages = log.moving_average(3);

    assert_eq!(averages, vec![entry(u32::MAX - 1, day(2))]);
}

#[test]
fn moving_average_follows_stored_order() {
    let log = WeightLog(vec![entry(700, day(5)), entry(800, day(1))]);

    assert_eq!(log.moving_average(2), vec![entry(750, day(1))]);
}

#[test]
fn in_order_inserts_keep_the_insertion_sequence() {
    let entries = vec![entry(760, day(0)), entry(750, day(1)), entry(755, day(1)), entry(740, day(2))];
    let mut log = WeightLog::new();

    for entry in &entries {
        log.insert(*entry);
    }

    assert_eq!(log.as_slice(), entries.as_slice());
}

#[test]
fn out_of_order_insert_sorts_the_log() {
    let mut log = WeightLog::new();
    log.insert(entry(750, day(2)));

    log.insert(entry(760, day(1)));

    assert_eq!(log.as_slice(), &[entry(760, day(1)), entry(750, day(2))]);
}

#[test]
fn resort_keeps_entries_of_one_instant_in_insertion_order() {
    let mut log = WeightLog::new();
    log.insert(entry(1, day(2)));
    log.insert(entry(2, day(2)));
    log.insert(entry(3, day(3)));
    log.insert(entry(4, day(2)));
    log.insert(entry(5, day(1)));
    log.insert(entry(6, day(1)));

    assert_eq!(
        log.as_slice(),
        &[
            entry(5, day(1)),
            entry(6, day(1)),
            entry(1, day(2)),
            entry(2, day(2)),
            entry(4, day(2)),
            entry(3, day(3)),
        ]
    );
}

#[test]
fn resort_sorts_a_log_that_was_loaded_out_of_order() {
    let mut log = WeightLog(vec![entry(1, day(3)), entry(2, day(1)), entry(3, day(2))]);

    log.insert(entry(4, day(1)));

    assert_eq!(
        log.as_slice(),
        &[entry(2, day(1)), entry(4, day(1)), entry(3, day(2)), entry(1, day(3))]
    );
}

#[test]
fn insert_without_resort_leaves_an_unsorted_log_as_it_is() {
    let mut log = WeightLog(vec![entry(1, day(3)), entry(2, day(1))]);

    log.insert(entry(3, day(1)));

    assert_eq!(log.as_slice(), &[entry(1, day(3)), entry(2, day(1)), entry(3, day(1))]);
}

#[test]
fn instants_compare_by_seconds_then_nanoseconds() {
    let mut log = WeightLog::new();
    log.insert(entry(1, Timestamp::new(10, 5)));
    log.insert(entry(2, Timestamp::new(10, 4)));
    log.insert(entry(3, Timestamp::new(-1, 999_999_999)));
    log.insert(entry(4, Timestamp::new(9, 1_500_000_000)));

    assert_eq!(
        log.as_slice(),
        &[
            entry(3, Timestamp::new(-1, 999_999_999)),
            entry(4, Timestamp::new(9, 1_500_000_000)),
            entry(2, Timestamp::new(10, 4)),
            entry(1, Timestamp::new(10, 5)),
        ]
    );
    assert!(Timestamp::new(9, 1_500_000_000).is_before(&Timestamp::new(10, 4)));
    assert!(!Timestamp::new(10, 4).is_before(&Timestamp::new(10, 4)));
}

#[test]
fn csv_round_trip_keeps_rows_in_order() {
    let csv = [
        "weight,timestamp",
        "76.0,2019-01-01T00:06:00Z",
        "75.0,2019-01-02T00:06:00Z",
        "74.0,2019-01-03T00:06:00Z",
    ]
    .join("\n");

    let log = WeightLog::from_csv(csv.as_bytes()).unwrap();

    assert_eq!(log.len(), 3);
    assert_eq!(
        log.as_slice(),
        &[
            entry(760, Timestamp::new(1_546_301_160, 0)),
            entry(750, Timestamp::new(1_546_387_560, 0)),
            entry(740, Timestamp::new(1_546_473_960, 0)),
        ]
    );
}

#[test]
fn csv_rows_are_not_sorted_on_load() {
    let csv = "weight,timestamp\n75.5,2019-01-02T00:00:00Z\n76,2019-01-01T00:00:00Z\n";

    let log = WeightLog::from_csv(csv.as_bytes()).unwrap();

    assert_eq!(log.as_slice(), &[entry(755, day(1)), entry(760, day(0))]);
}

#[test]
fn csv_timestamp_with_offset_is_taken_to_utc() {
    let csv = "weight,timestamp\n76.0,2019-01-01T01:00:00.25+01:00\n";

    let log = WeightLog::from_csv(csv.as_bytes()).unwrap();

    assert_eq!(log.as_slice(), &[entry(760, Timestamp::new(1_546_300_800, 250_000_000))]);
}

#[test]
fn csv_failures_name_their_cause() {
    let rows = "76.0,2019-01-01T00:06:00Z";
    assert_eq!(WeightLog::from_csv(b"").unwrap_err(), ParseError::Header);
    assert_eq!(WeightLog::from_csv(rows.as_bytes()).unwrap_err(), ParseError::Header);
    assert_eq!(
        WeightLog::from_csv(b"timestamp,weight\n2019-01-01T00:06:00Z,76.0").unwrap_err(),
        ParseError::Header
    );
    assert_eq!(
        WeightLog::from_csv(b"weight,timestamp,note\n76.0,2019-01-01T00:06:00Z,x").unwrap_err(),
        ParseError::Header
    );
    assert_eq!(
        WeightLog::from_csv(b"weight,timestamp\n76.0").unwrap_err(),
        ParseError::Record
    );
    assert_eq!(
        WeightLog::from_csv(b"weight,timestamp\n76.05,2019-01-01T00:06:00Z").unwrap_err(),
        ParseError::Weight
    );
    assert_eq!(
        WeightLog::from_csv(b"weight,timestamp\n76.0,2019-01-01T00:06:00+00:00:00").unwrap_err(),
        ParseError::Timestamp
    );
    assert_eq!(
        WeightLog::from_csv(b"weight,timestamp\n76.0,2019-01-01T00:06:00Z\n\xff,x").unwrap_err(),
        ParseError::Csv
    );
}

#[test]
fn csv_first_failing_row_decides() {
    let csv = "weight,timestamp\n76.0,yesterday\nheavy,2019-01-01T00:06:00Z\n";
    assert_eq!(WeightLog::from_csv(csv.as_bytes()).unwrap_err(), ParseError::Timestamp);

    let csv = "weight,timestamp\nheavy,yesterday\n";
    assert_eq!(WeightLog::from_csv(csv.as_bytes()).unwrap_err(), ParseError::Weight);
}

#[test]
fn csv_with_header_alone_is_an_empty_log() {
    let log = WeightLog::from_csv(b"weight,timestamp\n").unwrap();

    assert_eq!(log.len(), 0);
}

#[test]
fn records_are_read_as_given() {
    let records = vec![
        vec!["weight".to_string(), "timestamp".to_string()],
        vec!["80.5".to_string(), "2019-01-01T00:00:00Z".to_string()],
    ];

    let log = WeightLog::from_records(&records).unwrap();

    assert_eq!(log.as_slice(), &[entry(805, day(0))]);
}

#[test]
fn trend_compares_the_last_two_averages() {
    assert_eq!(trend(&[]), None);
    assert_eq!(trend(&[entry(760, day(0))]), None);
    assert_eq!(trend(&[entry(760, day(0)), entry(758, day(1))]), Some(Trend::Down));
    assert_eq!(trend(&[entry(760, day(0)), entry(760, day(1))]), Some(Trend::Flat));
    assert_eq!(trend(&[entry(700, day(0)), entry(760, day(1)), entry(761, day(2))]), Some(Trend::Up));
}

#[test]
fn stable_sort_orders_by_instant_and_keeps_ties() {
    let mut entries = vec![
        entry(1, day(3)),
        entry(2, day(1)),
        entry(3, day(3)),
        entry(4, day(2)),
        entry(5, day(1)),
    ];

    sort_stably(&mut entries);

    assert_eq!(
        entries,
        vec![entry(2, day(1)), entry(5, day(1)), entry(4, day(2)), entry(1, day(3)), entry(3, day(3))]
    );

    let mut none: Vec<WeightLogEntry> = Vec::new();
    sort_stably(&mut none);
    assert!(none.is_empty());
}
