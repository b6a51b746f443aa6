use terraform_module_data::dates::{parse_day, timestamp_date};

#[test]
fn timestamps_have_a_calendar_date() {
    let day = |s: &str| timestamp_date(s);
    assert_eq!(day("2024-01-01T00:00:00Z"), Some(String::from("2024-01-01")));
    assert_eq!(day("1996-12-19T16:39:57-08:00"), Some(String::from("1996-12-19")));
    assert_eq!(day("2024-12-31T23:59:59.999999999+23:59"), Some(String::from("2024-12-31")));
    assert_eq!(day("2024-01-01T00:00:00-23:59"), Some(String::from("2024-01-01")));
    assert_eq!(day("0000-01-01T00:00:00+00:00"), Some(String::from("0000-01-01")));
    assert_eq!(day("9999-12-31T23:59:59Z"), Some(String::from("9999-12-31")));
    assert_eq!(day("2016-12-31T23:59:60Z"), Some(String::from("2016-12-31")));
    assert_eq!(day("2024-02-29 12:00:00z"), Some(String::from("2024-02-29")));
}

#[test]
fn what_is_no_timestamp_has_no_date() {
    for s in [
        "",
        "2024-01-01",
        "2024-01-01T00:00:00",
        "2023-02-29T00:00:00Z",
        "2024-13-01T00:00:00Z",
        "2024-01-01T24:00:00Z",
        "2024-01-01T00:00:00+24:00",
        " 2024-01-01T00:00:00Z",
        "2024-01-01T00:00:00Z ",
        "24-01-01T00:00:00Z",
        "Mon, 01 Jan 2024 00:00:00 GMT",
        "１９９６-12-19T16:39:57Z",
    ] {
        assert_eq!(timestamp_date(s), None, "{:?}", s);
    }
}

#[test]
fn days_are_read_as_year_month_and_day() {
    assert_eq!(parse_day("2024-01-01"), Some(String::from("2024-01-01")));
    assert_eq!(parse_day("2024-02-29"), Some(String::from("2024-02-29")));
    assert_eq!(parse_day("2024-1-2"), Some(String::from("2024-01-02")));
    assert_eq!(parse_day("0001-01-01"), Some(String::from("0001-01-01")));
    for s in ["", "2023-02-29", "2024-00-01", "2024-01-32", "2024-01-01T00:00:00Z", "2024/01/01", "x"] {
        assert_eq!(parse_day(s), None, "{:?}", s);
    }
}
