use tams::timestamp::{Timestamp, NANOS_PER_SEC};


// -- Parsing --

#[test]
fn parse_zero() {
    let ts: Timestamp = "0:0".parse().unwrap();
    assert_eq!(ts.nanos, 0);
}

#[test]
fn parse_positive() {
    let ts: Timestamp = "8:399999999".parse().unwrap();
    assert_eq!(ts.nanos, 8 * NANOS_PER_SEC + 399_999_999);
}

#[test]
fn parse_negative() {
    let ts: Timestamp = "-1:500000000".parse().unwrap();
    assert_eq!(ts.nanos, -500_000_000);
}

#[test]
fn parse_large_tai() {
    let ts: Timestamp = "1694429247:0".parse().unwrap();
    assert_eq!(ts.nanos, 1_694_429_247 * NANOS_PER_SEC);
}

#[test]
fn parse_large_tai_with_nanos() {
    let ts: Timestamp = "1694429247:40000000".parse().unwrap();
    assert_eq!(ts.nanos, 1_694_429_247 * NANOS_PER_SEC + 40_000_000);
}

#[test]
fn parse_negative_large() {
    let ts: Timestamp = "-100:0".parse().unwrap();
    assert_eq!(ts.nanos, -100 * NANOS_PER_SEC);
}

// -- Parse errors --

#[test]
fn parse_error_missing_colon() {
    assert!("12345".parse::<Timestamp>().is_err());
}

#[test]
fn parse_error_leading_zero_seconds() {
    assert!("01:0".parse::<Timestamp>().is_err());
}

#[test]
fn parse_error_leading_zero_nanos() {
    assert!("0:01".parse::<Timestamp>().is_err());
}

#[test]
fn parse_error_nanos_too_large() {
    assert!("0:1000000000".parse::<Timestamp>().is_err());
}

#[test]
fn parse_error_empty_parts() {
    assert!(":0".parse::<Timestamp>().is_err());
    assert!("0:".parse::<Timestamp>().is_err());
}

#[test]
fn parse_error_letters() {
    assert!("abc:0".parse::<Timestamp>().is_err());
    assert!("0:abc".parse::<Timestamp>().is_err());
}

// -- Display --

#[test]
fn display_zero() {
    assert_eq!(Timestamp::new(0).to_string(), "0:0");
}

#[test]
fn display_positive() {
    let ts = Timestamp::from_secs_nanos(8, 399999999);
    assert_eq!(ts.to_string(), "8:399999999");
}

#[test]
fn display_negative() {
    let ts = Timestamp::new(-500_000_000);
    assert_eq!(ts.to_string(), "-1:500000000");
}

#[test]
fn display_negative_exact_seconds() {
    let ts = Timestamp::new(-100 * NANOS_PER_SEC);
    assert_eq!(ts.to_string(), "-100:0");
}

// -- Round-trip --

#[test]
fn timestamp_round_trip_parse_display() {
    let cases = [
        "0:0",
        "8:399999999",
        "-1:500000000",
        "1694429247:40000000",
        "-100:0",
    ];
    for case in cases {
        let ts: Timestamp = case.parse().unwrap();
        assert_eq!(ts.to_string(), case, "round-trip failed for '{}'", case);
    }
}

// -- Ordering --

#[test]
fn ordering_negative_lt_zero() {
    let neg: Timestamp = "-1:0".parse().unwrap();
    let zero: Timestamp = "0:0".parse().unwrap();
    assert!(neg < zero);
}

#[test]
fn ordering_zero_lt_positive() {
    let zero: Timestamp = "0:0".parse().unwrap();
    let pos: Timestamp = "1:0".parse().unwrap();
    assert!(zero < pos);
}

#[test]
fn ordering_subsecond() {
    let a: Timestamp = "0:100000000".parse().unwrap();
    let b: Timestamp = "0:200000000".parse().unwrap();
    assert!(a < b);
}

// -- Serde --

#[test]
fn secs_and_subsec_nanos() {
    let ts = Timestamp::from_secs_nanos(42, 123456789);
    assert_eq!(ts.secs(), 42);
    assert_eq!(ts.subsec_nanos(), 123456789);
}

#[test]
fn secs_and_subsec_nanos_negative() {
    let ts: Timestamp = "-1:500000000".parse().unwrap();
    assert_eq!(ts.secs(), -1);
    assert_eq!(ts.subsec_nanos(), 500000000);
}

// -- Error descriptions --

fn parse_message(s: &str) -> String {
    Timestamp::parse(s).unwrap_err().message().to_string()
}

#[test]
fn error_message_missing_colon() {
    assert_eq!(parse_message("100"), "missing colon in '100'");
    assert_eq!(Timestamp::parse("100").unwrap_err().to_string(), "invalid timestamp: missing colon in '100'");
}

#[test]
fn error_message_seconds_shape() {
    assert_eq!(parse_message("-:0"), "invalid seconds: '-'");
    assert_eq!(parse_message("1a:0"), "invalid seconds: '1a'");
    assert_eq!(parse_message("-01:0"), "leading zeros in seconds: '-01'");
}

#[test]
fn error_message_nanoseconds_shape() {
    assert_eq!(parse_message("1:"), "invalid nanoseconds: ''");
    assert_eq!(parse_message("1:0x"), "invalid nanoseconds: '0x'");
    assert_eq!(parse_message("1:007"), "leading zeros in nanoseconds: '007'");
}

#[test]
fn error_message_out_of_range() {
    assert_eq!(parse_message("1:1000000000"), "nanoseconds out of range: 1000000000");
    assert_eq!(
        parse_message("1:1000000000000000000000000000000000000000"),
        "nanoseconds overflow '1000000000000000000000000000000000000000': number too large to fit in target type"
    );
    assert_eq!(
        parse_message("170141183460469231731687303715884105728:0"),
        "seconds overflow '170141183460469231731687303715884105728': number too large to fit in target type"
    );
    assert_eq!(
        parse_message("-170141183460469231731687303715884105729:0"),
        "seconds overflow '-170141183460469231731687303715884105729': number too small to fit in target type"
    );
    assert_eq!(
        parse_message("170141183460469231731687303715884105:0"),
        "seconds overflow '170141183460469231731687303715884105': number too large to fit in target type"
    );
}

#[test]
fn extreme_counts_parse() {
    let max: Timestamp = "170141183460469231731687303715:884105727".parse().unwrap();
    assert_eq!(max.nanos, i128::MAX);
    let min: Timestamp = "-170141183460469231731687303716:115894272".parse().unwrap();
    assert_eq!(min.nanos, i128::MIN);
}
