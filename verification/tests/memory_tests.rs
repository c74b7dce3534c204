use ssubmit::parse_memory;

#[test]
fn test_parse_memory_kilobytes() {
    let s = "4kb";
    let actual = parse_memory(s).unwrap();
    let expected = "4K";
    assert_eq!(actual, expected);
}

#[test]
fn test_parse_memory_kilobytes_over_megabyte_rounds() {
    let s = "4000kb";
    let actual = parse_memory(s).unwrap();
    let expected = "4M";
    assert_eq!(actual, expected);
}

#[test]
fn test_parse_memory_megabytes() {
    let s = "4mb";
    let actual = parse_memory(s).unwrap();
    let expected = "4M";
    assert_eq!(actual, expected);
}

#[test]
fn test_parse_memory_megabytes_single_m() {
    let s = "4m";
    let actual = parse_memory(s).unwrap();
    let expected = "4M";
    assert_eq!(actual, expected);
}

#[test]
fn test_parse_memory_megabytes_single_m_upper() {
    let s = "4M";
    let actual = parse_memory(s).unwrap();
    let expected = "4M";
    assert_eq!(actual, expected);
}

#[test]
fn test_parse_memory_megabytes_single_m_upper_space() {
    let s = "4 M";
    let actual = parse_memory(s).unwrap();
    let expected = "4M";
    assert_eq!(actual, expected);
}

#[test]
fn test_parse_memory_megabytes_one_upper_one_lower_space() {
    let s = "4 Mb";
    let actual = parse_memory(s).unwrap();
    let expected = "4M";
    assert_eq!(actual, expected);
}

#[test]
fn test_parse_memory_gigabytes() {
    let s = "5g";
    let actual = parse_memory(s).unwrap();
    let expected = "5000M";
    assert_eq!(actual, expected);
}

#[test]
fn test_parse_memory_terabytes() {
    let s = "1t";
    let actual = parse_memory(s).unwrap();
    let expected = "1000000M";
    assert_eq!(actual, expected);
}

#[test]
fn test_parse_memory_float() {
    let s = "1.5gb";
    let actual = parse_memory(s).unwrap();
    let expected = "1500M";
    assert_eq!(actual, expected);
}

#[test]
fn test_parse_memory_float_round_up() {
    let s = "50.7mb";
    let actual = parse_memory(s).unwrap();
    let expected = "51M";
    assert_eq!(actual, expected);
}

#[test]
fn test_parse_memory_float_round_up_if_below_half() {
    let s = "50.1mb";
    let actual = parse_memory(s).unwrap();
    let expected = "51M";
    assert_eq!(actual, expected);
}

#[test]
fn test_parse_memory_always_round_up() {
    let s = "5001kb";
    let actual = parse_memory(s).unwrap();
    let expected = "6M";
    assert_eq!(actual, expected);
}

#[test]
fn test_parse_memory_float_less_than_megabyte_returns_kilobyte() {
    let s = "0.56M";
    let actual = parse_memory(s).unwrap();
    let expected = "560K";
    assert_eq!(actual, expected);
}

#[test]
fn test_parse_memory_no_unit() {
    let s = "5000";
    let actual = parse_memory(s).unwrap();
    let expected = "5000M";
    assert_eq!(actual, expected);
}

#[test]
fn test_parse_memory_less_than_kilobyte() {
    let s = "50b";
    let actual = parse_memory(s).unwrap();
    let expected = "1K";
    assert_eq!(actual, expected);
}

#[test]
fn parse_memory_invalid_unit() {
    let s = "5z";
    let actual = parse_memory(s).unwrap_err();
    assert!(actual.starts_with("the character 'z' is incorrect"));
}

#[test]
fn parse_memory_zero() {
    let s = "0";
    let actual = parse_memory(s).unwrap();
    let expected = "0";
    assert_eq!(actual, expected);
}

#[test]
fn parse_memory_binary_units() {
    assert_eq!(parse_memory("4kib").unwrap(), "5K");
    assert_eq!(parse_memory("1MiB").unwrap(), "2M");
    assert_eq!(parse_memory("1gi").unwrap(), "1074M");
}

#[test]
fn parse_memory_bad_number_naming_character() {
    let actual = parse_memory("x4m").unwrap_err();
    assert!(actual.starts_with("the character 'x' is not a number"));
}

#[test]
fn parse_memory_dot_without_digits_fails() {
    let actual = parse_memory("4.m").unwrap_err();
    assert!(actual.starts_with("the character 'm' is not a number"));
}

#[test]
fn parse_memory_blank_fails() {
    let actual = parse_memory("   ").unwrap_err();
    assert!(actual.starts_with("the character 'M' is not a number"));
}

#[test]
fn parse_memory_too_long_fails() {
    let actual = parse_memory("99999999999999999999999m").unwrap_err();
    assert_eq!(actual, "value number is too long");
}

#[test]
fn parse_memory_trailing_garbage_fails() {
    let actual = parse_memory("4mb7").unwrap_err();
    assert!(actual.starts_with("the character '7' is incorrect"));
}

#[test]
fn parse_memory_zero_value_with_unit() {
    assert_eq!(parse_memory("0kb").unwrap(), "0K");
    assert_eq!(parse_memory("0.0").unwrap(), "0K");
}
