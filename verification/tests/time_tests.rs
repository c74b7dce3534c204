use ssubmit::parse_time;

#[test]
fn test_parse_time_milliseconds() {
    let s = "4ms";

    let actual = parse_time(s).unwrap();
    let expected = "0:1";

    assert_eq!(actual, expected)
}

#[test]
fn test_parse_time_seconds() {
    let s = "4s";

    let actual = parse_time(s).unwrap();
    let expected = "0:4";

    assert_eq!(actual, expected)
}

#[test]
fn test_parse_time_minutes() {
    let s = "4m";

    let actual = parse_time(s).unwrap();
    let expected = "4:0";

    assert_eq!(actual, expected)
}

#[test]
fn test_parse_time_hours_in_minutes() {
    let s = "400m";

    let actual = parse_time(s).unwrap();
    let expected = "6:40:0";

    assert_eq!(actual, expected)
}

#[test]
fn test_parse_time_hours() {
    let s = "3H";

    let actual = parse_time(s).unwrap();
    let expected = "3:0:0";

    assert_eq!(actual, expected)
}

#[test]
fn test_parse_time_hours_and_minutes() {
    let s = "3h46min";

    let actual = parse_time(s).unwrap();
    let expected = "3:46:0";

    assert_eq!(actual, expected)
}

#[test]
fn test_parse_time_hours_and_minutes_with_space() {
    let s = "3h 46min";

    let actual = parse_time(s).unwrap();
    let expected = "3:46:0";

    assert_eq!(actual, expected)
}

#[test]
fn test_parse_time_days_and_seconds() {
    let s = "1d4s";

    let actual = parse_time(s).unwrap();
    let expected = "24:0:4";

    assert_eq!(actual, expected)
}

#[test]
fn test_parse_time_slurm_minute_second_format_no_parsing() {
    let s = "3:45";

    let actual = parse_time(s).unwrap();
    let expected = "3:45";

    assert_eq!(actual, expected)
}

#[test]
fn test_parse_time_slurm_hours_minute_second_format_no_parsing() {
    let s = "1:3:45";

    let actual = parse_time(s).unwrap();
    let expected = "1:3:45";

    assert_eq!(actual, expected)
}

#[test]
fn test_parse_time_slurm_days_hours_format_no_parsing() {
    let s = "1-12";

    let actual = parse_time(s).unwrap();
    let expected = "1-12";

    assert_eq!(actual, expected)
}

#[test]
fn test_parse_time_slurm_days_hours_minutes_format_no_parsing() {
    let s = "1-12:30";

    let actual = parse_time(s).unwrap();
    let expected = "1-12:30";

    assert_eq!(actual, expected)
}

#[test]
fn test_parse_time_slurm_days_hours_minutes_seconds_format_no_parsing() {
    let s = "1-12:30:12";

    let actual = parse_time(s).unwrap();
    let expected = "1-12:30:12";

    assert_eq!(actual, expected)
}

#[test]
fn test_parse_time_no_units() {
    let s = "3";

    let actual = parse_time(s).unwrap();
    let expected = "3";

    assert_eq!(actual, expected)
}

#[test]
fn test_parse_time_zero() {
    let s = "0";

    let actual = parse_time(s).unwrap();
    let expected = "0";

    assert_eq!(actual, expected)
}

#[test]
fn test_parse_time_float_not_supported() {
    let s = "1.5d";

    let actual = parse_time(s).unwrap_err();

    assert!(actual.starts_with("1.5d is not a valid time:"))
}

#[test]
fn test_parse_time_missing_unit_is_seconds() {
    let s = "5m3";

    let actual = parse_time(s).unwrap();
    let expected = "5:3";

    assert_eq!(actual, expected)
}

#[test]
fn test_parse_time_idempotent_on_own_output() {
    for s in ["4ms", "400m", "1d4s", "3h46min", "666s", "90061s"] {
        let once = parse_time(s).unwrap();
        let twice = parse_time(&once).unwrap();
        assert_eq!(once, twice);
    }
}

#[test]
fn test_parse_time_unknown_unit_fails() {
    let s = "5q";

    let actual = parse_time(s).unwrap_err();

    assert!(actual.starts_with("5q is not a valid time:"))
}

#[test]
fn test_parse_time_out_of_range_fails() {
    let s = "999999999999999999y";

    let actual = parse_time(s).unwrap_err();

    assert!(actual.starts_with("999999999999999999y is not a valid time:"))
}

#[test]
fn test_parse_time_long_unit_words() {
    assert_eq!(parse_time("2 hours").unwrap(), "2:0:0");
    assert_eq!(parse_time("90 seconds").unwrap(), "1:30");
    assert_eq!(parse_time("1 week").unwrap(), "168:0:0");
}
