use mdds::date::Date;
use mdds::error::QueryError;
use mdds::file_finder::FileFinder;
use mdds::fs::{FileMetadata, TimeSlice, extract_date_from_filename, files_in_time_slice};

const DAY_05: i64 = 1554422400000; // 2019-04-05T00:00:00Z
const DAY_06: i64 = 1554508800000; // 2019-04-06T00:00:00Z

fn finder(slice: TimeSlice) -> FileFinder {
    FileFinder {
        parquet_file_extension: "parquet".to_string(),
        base_path: "data/market_data".to_string(),
        exchange: "binance".to_string(),
        market_type: "spot".to_string(),
        stream: "trade".to_string(),
        symbol: "ethusdt".to_string(),
        time_slice: slice,
    }
}

#[test]
fn symbol_path_is_fixed_order_concatenation() {
    let f = finder(TimeSlice { from_millis: DAY_05, to_millis: DAY_06 });
    assert_eq!(f.path_for_symbol(), "data/market_data/binance/spot/trade");
}

#[test]
fn filename_matching_exact_pattern() {
    // The pattern is literal: symbol, a dot, the date part, the extension.
    let r = extract_date_from_filename("ethusdt.2019-04-05.parquet", "ethusdt", ".parquet");
    assert_eq!(r.as_deref(), Some("2019-04-05"));
}

#[test]
fn filename_matching_no_accidental_prefix() {
    // A longer symbol must not match a shorter query symbol.
    let r = extract_date_from_filename("ethusdt2.2019-04-05.parquet", "ethusdt", ".parquet");
    assert_eq!(r, None);
    // And the other way round.
    let r = extract_date_from_filename("ethusdt.2019-04-05.parquet", "ethusdt2", ".parquet");
    assert_eq!(r, None);
}

#[test]
fn filename_matching_wrong_extension() {
    assert_eq!(extract_date_from_filename("ethusdt.2019-04-05.csv", "ethusdt", ".parquet"), None);
    assert_eq!(extract_date_from_filename("ethusdt.2019-04-05", "ethusdt", ".parquet"), None);
}

#[test]
fn filename_matching_too_short() {
    // Prefix and suffix would overlap: no date part can exist.
    assert_eq!(extract_date_from_filename("ethusdt.parquet", "ethusdt", ".parquet"), None);
    // Exactly adjacent: an empty date part is handed back (it fails to
    // parse later, so the file is skipped, not an error).
    assert_eq!(
        extract_date_from_filename("ethusdt..parquet", "ethusdt", ".parquet").as_deref(),
        Some("")
    );
}

#[test]
fn day_filter_is_inclusive_on_dates() {
    let metas = vec![
        FileMetadata { path: "a/ethusdt.2019-04-04.parquet".to_string(), date: Date { year: 2019, month: 4, day: 4 } },
        FileMetadata { path: "a/ethusdt.2019-04-05.parquet".to_string(), date: Date { year: 2019, month: 4, day: 5 } },
        FileMetadata { path: "a/ethusdt.2019-04-06.parquet".to_string(), date: Date { year: 2019, month: 4, day: 6 } },
        FileMetadata { path: "a/ethusdt.2019-04-07.parquet".to_string(), date: Date { year: 2019, month: 4, day: 7 } },
    ];
    // Interval covering parts of the 5th and 6th: both days' files stay.
    let slice = TimeSlice { from_millis: DAY_05 + 3600000, to_millis: DAY_06 + 3600000 };
    let kept = files_in_time_slice(&metas, &slice);
    assert_eq!(
        kept,
        vec![
            "a/ethusdt.2019-04-05.parquet".to_string(),
            "a/ethusdt.2019-04-06.parquet".to_string(),
        ]
    );
}

#[test]
fn find_files_orders_by_date() {
    // Listing order is arbitrary; the result is ascending by filename date.
    let listing = vec![
        "ethusdt.2019-04-06.parquet".to_string(),
        "notes.txt".to_string(),
        "ethusdt.2019-04-05.parquet".to_string(),
        "btcusdt.2019-04-05.parquet".to_string(),
        "ethusdt.not-a-date.parquet".to_string(),
    ];
    let f = finder(TimeSlice { from_millis: DAY_05, to_millis: DAY_06 + 86399999 });
    let r = f.find_files(Some(listing)).unwrap();
    assert_eq!(
        r,
        vec![
            "data/market_data/binance/spot/trade/ethusdt.2019-04-05.parquet".to_string(),
            "data/market_data/binance/spot/trade/ethusdt.2019-04-06.parquet".to_string(),
        ]
    );
}

#[test]
fn find_files_point_interval_selects_one_day() {
    let listing = vec![
        "ethusdt.2019-04-05.parquet".to_string(),
        "ethusdt.2019-04-06.parquet".to_string(),
    ];
    let f = finder(TimeSlice { from_millis: DAY_05 + 43200000, to_millis: DAY_05 + 43200000 });
    let r = f.find_files(Some(listing)).unwrap();
    assert_eq!(r, vec!["data/market_data/binance/spot/trade/ethusdt.2019-04-05.parquet".to_string()]);
}

#[test]
fn find_files_no_matches_is_empty_success() {
    // A valid directory with nothing for this symbol: empty, not an error.
    let listing = vec!["btcusdt.2019-04-05.parquet".to_string(), "readme.md".to_string()];
    let f = finder(TimeSlice { from_millis: DAY_05, to_millis: DAY_06 });
    let r = f.find_files(Some(listing)).unwrap();
    assert_eq!(r, Vec::<String>::new());
}

#[test]
fn find_files_failed_listing_is_an_error() {
    // A directory that cannot be listed is an error, never an empty result.
    let f = finder(TimeSlice { from_millis: DAY_05, to_millis: DAY_06 });
    assert_eq!(f.find_files(None), Err(QueryError::DirectoryUnavailable));
}

#[test]
fn time_slice_contains_millis_inclusive() {
    let slice = TimeSlice { from_millis: 100, to_millis: 200 };
    assert!(slice.contains_millis(100));
    assert!(slice.contains_millis(200));
    assert!(!slice.contains_millis(99));
    assert!(!slice.contains_millis(201));
}

#[test]
fn time_slice_day_projection() {
    let slice = TimeSlice { from_millis: DAY_05 + 1, to_millis: DAY_06 + 86399999 };
    assert_eq!(slice.from_day(), 17991);
    assert_eq!(slice.to_day(), 17992);
    // Negative instants round toward minus infinity.
    let before_epoch = TimeSlice { from_millis: -1, to_millis: 0 };
    assert_eq!(before_epoch.from_day(), -1);
    assert_eq!(before_epoch.to_day(), 0);
}
