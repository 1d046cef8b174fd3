use lexgate::dates::{format_date, parse_date, Date};
use lexgate::text::parse_i32;

#[test]
fn plain_date_parses() {
    let d = parse_date("2023-05-17").unwrap();
    assert_eq!(d, Date { year: 2023, month: 5, day: 17 });
}

#[test]
fn leap_day_parses_in_leap_years_only() {
    assert_eq!(parse_date("2024-02-29"), Some(Date { year: 2024, month: 2, day: 29 }));
    assert_eq!(parse_date("2023-02-29"), None);
    assert_eq!(parse_date("1900-02-29"), None);
    assert_eq!(parse_date("2000-02-29"), Some(Date { year: 2000, month: 2, day: 29 }));
}

#[test]
fn out_of_range_fields_are_rejected() {
    assert_eq!(parse_date("2023-13-01"), None);
    assert_eq!(parse_date("2023-00-10"), None);
    assert_eq!(parse_date("2023-04-31"), None);
    assert_eq!(parse_date("2023-04-00"), None);
}

#[test]
fn loose_shapes_are_rejected() {
    assert_eq!(parse_date("2023-5-07"), None);
    assert_eq!(parse_date("20230507"), None);
    assert_eq!(parse_date("2023-05-07 "), None);
    assert_eq!(parse_date(""), None);
    assert_eq!(parse_date("05-07-2023"), None);
}

#[test]
fn format_pads_every_field() {
    let d = Date { year: 1, month: 2, day: 3 };
    assert_eq!(format_date(&d), "0001-02-03");
    let d = Date { year: 2024, month: 11, day: 30 };
    assert_eq!(format_date(&d), "2024-11-30");
}

#[test]
fn integers_parse_as_std_does() {
    assert_eq!(parse_i32("42"), Some(42));
    assert_eq!(parse_i32("-7"), Some(-7));
    assert_eq!(parse_i32("+0"), Some(0));
    assert_eq!(parse_i32("2147483647"), Some(i32::MAX));
    assert_eq!(parse_i32("-2147483648"), Some(i32::MIN));
    assert_eq!(parse_i32("2147483648"), None);
    assert_eq!(parse_i32("-2147483649"), None);
    assert_eq!(parse_i32("abc"), None);
    assert_eq!(parse_i32(""), None);
    assert_eq!(parse_i32("+"), None);
    assert_eq!(parse_i32(" 1"), None);
    assert_eq!(parse_i32("007"), Some(7));
}
