use mdds::config::Config;
use mdds::engine::{
    FileDecodeOutcome, StreamSession, StreamStep, plan_query, run_materialized,
    validate_time_slice,
};
use mdds::error::QueryError;
use mdds::fs::TimeSlice;
use mdds::records::{Message, RawEntry, collect_messages, decode_message, filter_messages};

const DAY_05: i64 = 1554422400000; // 2019-04-05T00:00:00Z
const DAY_06: i64 = 1554508800000; // 2019-04-06T00:00:00Z

fn entry(ms: i64, payload: &str) -> RawEntry {
    RawEntry {
        timestamp_millis: ms,
        timestamp_sec: ms.div_euclid(1000),
        timestamp_sub_sec: ms.rem_euclid(1000) as i32,
        data: payload.as_bytes().to_vec(),
    }
}

fn shape(ms: &[Message]) -> Vec<(i64, String)> {
    ms.iter().map(|m| (m.timestamp_millis, m.data.clone())).collect()
}

#[test]
fn validate_requires_both_bounds() {
    assert!(matches!(validate_time_slice(None, Some(5)), Err(QueryError::InvalidQuery)));
    assert!(matches!(validate_time_slice(Some(5), None), Err(QueryError::InvalidQuery)));
    assert!(matches!(validate_time_slice(None, None), Err(QueryError::InvalidQuery)));
}

#[test]
fn validate_rejects_inverted_interval() {
    // `from` after `to` is a caller error, rejected before any I/O.
    assert!(matches!(validate_time_slice(Some(10), Some(9)), Err(QueryError::InvalidQuery)));
}

#[test]
fn validate_accepts_ordered_interval() {
    let ts = validate_time_slice(Some(DAY_05), Some(DAY_06)).unwrap();
    assert_eq!(ts, TimeSlice { from_millis: DAY_05, to_millis: DAY_06 });
    // A point interval is well-formed.
    assert!(validate_time_slice(Some(7), Some(7)).is_ok());
}

#[test]
fn plan_query_builds_finder_from_config() {
    let config = Config::default();
    let f = plan_query(
        &config,
        "binance".to_string(),
        "spot".to_string(),
        "trade".to_string(),
        "ethusdt".to_string(),
        Some(DAY_05),
        Some(DAY_06),
    )
    .unwrap();
    assert_eq!(f.base_path, "data/market_data");
    assert_eq!(f.parquet_file_extension, "parquet");
    assert_eq!(f.symbol, "ethusdt");
    assert_eq!(f.path_for_symbol(), "data/market_data/binance/spot/trade");
}

#[test]
fn plan_query_rejects_invalid_before_any_io() {
    let config = Config::default();
    let r = plan_query(
        &config,
        "binance".to_string(),
        "spot".to_string(),
        "trade".to_string(),
        "ethusdt".to_string(),
        Some(DAY_06),
        Some(DAY_05),
    );
    assert!(matches!(r, Err(QueryError::InvalidQuery)));
}

#[test]
fn config_defaults() {
    let c = Config::default();
    assert_eq!(c.server_address, "0.0.0.0:8080");
    assert_eq!(c.parquet_data_path, "data");
    assert_eq!(c.market_data_path, "data/market_data");
    assert_eq!(c.parquet_reader_record_batch_size, 1024);
    assert_eq!(c.parquet_file_extension, "parquet");
}

#[test]
fn decode_message_keeps_timestamps_and_text() {
    let m = decode_message(entry(42, "hello")).unwrap();
    assert_eq!(m.timestamp_millis, 42);
    assert_eq!(m.data, "hello");
}

#[test]
fn decode_message_rejects_malformed_payload() {
    let e = RawEntry { timestamp_millis: 1, timestamp_sec: 0, timestamp_sub_sec: 1, data: vec![0xff, 0xfe] };
    assert!(decode_message(e).is_none());
}

#[test]
fn collect_messages_skips_bad_payloads_keeps_order() {
    let entries = vec![
        entry(1, "a"),
        RawEntry { timestamp_millis: 2, timestamp_sec: 0, timestamp_sub_sec: 2, data: vec![0x80] },
        entry(3, "c"),
    ];
    let ms = collect_messages(entries);
    assert_eq!(shape(&ms), vec![(1, "a".to_string()), (3, "c".to_string())]);
}

#[test]
fn filter_messages_is_inclusive_and_order_preserving() {
    let ms = collect_messages(vec![entry(5, "x"), entry(10, "y"), entry(20, "z"), entry(21, "w")]);
    let kept = filter_messages(ms, &TimeSlice { from_millis: 10, to_millis: 20 });
    assert_eq!(shape(&kept), vec![(10, "y".to_string()), (20, "z".to_string())]);
}

#[test]
fn point_interval_keeps_exactly_that_millisecond() {
    // With from == to, only records carrying that exact timestamp remain.
    let ms = collect_messages(vec![entry(99, "a"), entry(100, "b"), entry(100, "c"), entry(101, "d")]);
    let kept = filter_messages(ms, &TimeSlice { from_millis: 100, to_millis: 100 });
    assert_eq!(shape(&kept), vec![(100, "b".to_string()), (100, "c".to_string())]);
}

#[test]
fn two_day_scenario_returns_all_five_in_file_order() {
    // Files for 2019-04-05 (10:00, 14:00, 23:00) and 2019-04-06 (01:00,
    // 12:00), interval 2019-04-05T00:00:00Z ..= 2019-04-06T23:59:59Z:
    // all five records, file order then intra-file order.
    let file_05 = vec![
        entry(DAY_05 + 10 * 3600000, "r1"),
        entry(DAY_05 + 14 * 3600000, "r2"),
        entry(DAY_05 + 23 * 3600000, "r3"),
    ];
    let file_06 = vec![entry(DAY_06 + 3600000, "r4"), entry(DAY_06 + 12 * 3600000, "r5")];
    let slice = TimeSlice { from_millis: DAY_05, to_millis: DAY_06 + 86399000 };
    let r = run_materialized(
        vec![FileDecodeOutcome::Entries(file_05), FileDecodeOutcome::Entries(file_06)],
        &slice,
    )
    .unwrap();
    assert_eq!(
        shape(&r),
        vec![
            (DAY_05 + 36000000, "r1".to_string()),
            (DAY_05 + 50400000, "r2".to_string()),
            (DAY_05 + 82800000, "r3".to_string()),
            (DAY_06 + 3600000, "r4".to_string()),
            (DAY_06 + 43200000, "r5".to_string()),
        ]
    );
}

#[test]
fn hundred_millisecond_window_scenario() {
    // The whole day's file is decoded; only the 100ms window survives.
    let noon = DAY_05 + 12 * 3600000;
    let file = vec![
        entry(DAY_05 + 10 * 3600000, "early"),
        entry(noon, "w0"),
        entry(noon + 50, "w1"),
        entry(noon + 100, "w2"),
        entry(noon + 101, "late"),
    ];
    let slice = TimeSlice { from_millis: noon, to_millis: noon + 100 };
    let r = run_materialized(vec![FileDecodeOutcome::Entries(file)], &slice).unwrap();
    assert_eq!(
        shape(&r),
        vec![
            (noon, "w0".to_string()),
            (noon + 50, "w1".to_string()),
            (noon + 100, "w2".to_string()),
        ]
    );
}

#[test]
fn no_files_is_empty_success() {
    let slice = TimeSlice { from_millis: DAY_05, to_millis: DAY_06 };
    let r = run_materialized(vec![], &slice).unwrap();
    assert!(r.is_empty());
}

#[test]
fn first_file_failure_decides_the_error() {
    let slice = TimeSlice { from_millis: DAY_05, to_millis: DAY_06 };
    let r = run_materialized(
        vec![FileDecodeOutcome::Entries(vec![entry(DAY_05, "ok")]), FileDecodeOutcome::OpenFailed],
        &slice,
    );
    assert!(matches!(r, Err(QueryError::OpenFailed)));
    let r = run_materialized(
        vec![FileDecodeOutcome::DecodeFailed, FileDecodeOutcome::OpenFailed],
        &slice,
    );
    assert!(matches!(r, Err(QueryError::DecodeFailed)));
}

#[test]
fn same_query_twice_same_result() {
    // Idempotence against an unmodified archive.
    let slice = TimeSlice { from_millis: DAY_05, to_millis: DAY_06 };
    let make_outcomes = || {
        vec![
            FileDecodeOutcome::Entries(vec![entry(DAY_05 + 5, "a"), entry(DAY_05 + 6, "b")]),
            FileDecodeOutcome::Entries(vec![entry(DAY_06 - 1, "c")]),
        ]
    };
    let r1 = run_materialized(make_outcomes(), &slice).unwrap();
    let r2 = run_materialized(make_outcomes(), &slice).unwrap();
    assert_eq!(shape(&r1), shape(&r2));
}

#[test]
fn stream_session_walks_files_in_order() {
    let slice = TimeSlice { from_millis: DAY_05, to_millis: DAY_06 };
    let mut s = StreamSession::new(vec!["p1".to_string(), "p2".to_string()], slice);
    assert_eq!(s.next_file(), Some("p1".to_string()));
    assert_eq!(s.next_file(), Some("p2".to_string()));
    assert_eq!(s.next_file(), None);
}

#[test]
fn stream_session_emits_skips_and_fails() {
    let slice = TimeSlice { from_millis: 100, to_millis: 200 };
    let mut s = StreamSession::new(vec!["p".to_string()], slice);
    assert_eq!(s.next_file(), Some("p".to_string()));
    match s.on_entry(entry(150, "in")) {
        StreamStep::Emit(m) => {
            assert_eq!(m.timestamp_millis, 150);
            assert_eq!(m.data, "in");
        },
        _ => panic!("expected an emitted record"),
    }
    assert!(matches!(s.on_entry(entry(50, "out")), StreamStep::Skip));
    let bad = RawEntry { timestamp_millis: 150, timestamp_sec: 0, timestamp_sub_sec: 150, data: vec![0xc0] };
    assert!(matches!(s.on_entry(bad), StreamStep::Fail(QueryError::RecordDecodeFailed)));
    // A failed stream is terminated: no further file is opened.
    assert_eq!(s.next_file(), None);
}

#[test]
fn stream_session_file_failure_terminates() {
    let slice = TimeSlice { from_millis: 100, to_millis: 200 };
    let mut s = StreamSession::new(vec!["p1".to_string(), "p2".to_string()], slice);
    assert_eq!(s.next_file(), Some("p1".to_string()));
    assert_eq!(s.on_file_failed(), QueryError::OpenFailed);
    assert_eq!(s.next_file(), None);
}
