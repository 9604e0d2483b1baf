use gitapi::dates::render_date;
use gitapi::{parse_date_to_string, parse_string_to_date, GitApiError};

#[test]
fn iso_date_renders_canonical() {
    assert_eq!(
        parse_date_to_string("2024-01-02T10:00:00+00:00").unwrap(),
        "01/02/2024 10:00"
    );
}

#[test]
fn iso_date_with_nonzero_offset_keeps_clock() {
    // The display format shows the fields as written, in their own
    // offset; no clock shifting happens.
    assert_eq!(
        parse_date_to_string("2024-06-15T23:59:59-07:30").unwrap(),
        "06/15/2024 23:59"
    );
}

#[test]
fn iso_date_zulu_accepted() {
    assert_eq!(
        parse_date_to_string("2024-12-31T00:05:00Z").unwrap(),
        "12/31/2024 00:05"
    );
}

#[test]
fn default_format_renders_canonical() {
    assert_eq!(
        parse_date_to_string("Tue Jan 2 10:00:00 2024 +0000").unwrap(),
        "01/02/2024 10:00"
    );
}

#[test]
fn default_format_space_padded_day() {
    assert_eq!(
        parse_date_to_string("Fri Mar  7 08:15:00 2025 -0500").unwrap(),
        "03/07/2025 08:15"
    );
}

#[test]
fn unparseable_date_is_an_error() {
    assert!(matches!(
        parse_date_to_string("not a date"),
        Err(GitApiError::DateParseError)
    ));
    assert!(matches!(
        parse_date_to_string(""),
        Err(GitApiError::DateParseError)
    ));
}

#[test]
fn calendar_is_checked() {
    // February 30th does not exist; February 29th exists only in leap
    // years.
    assert!(parse_date_to_string("2024-02-30T10:00:00+00:00").is_err());
    assert!(parse_date_to_string("2024-02-29T10:00:00+00:00").is_ok());
    assert!(parse_date_to_string("2023-02-29T10:00:00+00:00").is_err());
}

#[test]
fn canonical_string_round_trips() {
    // Parsing a canonical display string and re-rendering it yields
    // the same string.
    let s = "01/02/2024 10:00";
    let d = parse_string_to_date(s).unwrap();
    assert_eq!(render_date(&d), s);

    let t = "12/31/1999 23:59";
    let e = parse_string_to_date(t).unwrap();
    assert_eq!(render_date(&e), t);
}

#[test]
fn canonical_parse_reads_fields() {
    let d = parse_string_to_date("01/02/2024 10:30").unwrap();
    assert_eq!(d.year, 2024);
    assert_eq!(d.month, 1);
    assert_eq!(d.day, 2);
    assert_eq!(d.hour, 10);
    assert_eq!(d.minute, 30);
}

#[test]
fn canonical_parse_rejects_malformed() {
    assert!(parse_string_to_date("1/2/2024 10:30").is_err());
    assert!(parse_string_to_date("01-02-2024 10:30").is_err());
    assert!(parse_string_to_date("13/02/2024 10:30").is_err());
    assert!(matches!(
        parse_string_to_date("garbage"),
        Err(GitApiError::DateParseError)
    ));
}
