use mdds::date::{Date, days_in_month, is_leap_year, parse_date};

#[test]
fn leap_years() {
    assert!(is_leap_year(2000));
    assert!(is_leap_year(2020));
    assert!(!is_leap_year(1900));
    assert!(!is_leap_year(2019));
    assert!(is_leap_year(0));
}

#[test]
fn month_lengths() {
    assert_eq!(days_in_month(2019, 1), 31);
    assert_eq!(days_in_month(2019, 2), 28);
    assert_eq!(days_in_month(2020, 2), 29);
    assert_eq!(days_in_month(2019, 4), 30);
    assert_eq!(days_in_month(2019, 12), 31);
}

#[test]
fn parse_valid_dates() {
    assert_eq!(parse_date("2019-04-05"), Some(Date { year: 2019, month: 4, day: 5 }));
    assert_eq!(parse_date("2020-02-29"), Some(Date { year: 2020, month: 2, day: 29 }));
    assert_eq!(parse_date("0000-01-01"), Some(Date { year: 0, month: 1, day: 1 }));
    assert_eq!(parse_date("9999-12-31"), Some(Date { year: 9999, month: 12, day: 31 }));
}

#[test]
fn parse_rejects_bad_shapes() {
    assert_eq!(parse_date(""), None);
    assert_eq!(parse_date("2019-4-5"), None);
    assert_eq!(parse_date("19-04-05"), None);
    assert_eq!(parse_date("2019/04/05"), None);
    assert_eq!(parse_date("2019-04-051"), None);
    assert_eq!(parse_date("2019-04-0a"), None);
    assert_eq!(parse_date("x019-04-05"), None);
}

#[test]
fn parse_rejects_impossible_dates() {
    assert_eq!(parse_date("2019-02-29"), None);
    assert_eq!(parse_date("2019-13-01"), None);
    assert_eq!(parse_date("2019-00-10"), None);
    assert_eq!(parse_date("2019-04-31"), None);
    assert_eq!(parse_date("2019-04-00"), None);
}

#[test]
fn day_numbers_around_epoch() {
    assert_eq!(Date { year: 1970, month: 1, day: 1 }.day_number(), 0);
    assert_eq!(Date { year: 1970, month: 1, day: 2 }.day_number(), 1);
    assert_eq!(Date { year: 1969, month: 12, day: 31 }.day_number(), -1);
}

#[test]
fn day_numbers_known_dates() {
    assert_eq!(Date { year: 2019, month: 4, day: 5 }.day_number(), 17991);
    assert_eq!(Date { year: 2019, month: 4, day: 6 }.day_number(), 17992);
    assert_eq!(Date { year: 2000, month: 3, day: 1 }.day_number(), 11017);
    assert_eq!(Date { year: 2020, month: 2, day: 29 }.day_number(), 18321);
    assert_eq!(Date { year: 0, month: 1, day: 1 }.day_number(), -719528);
    assert_eq!(Date { year: 9999, month: 12, day: 31 }.day_number(), 2932896);
}
