use tuxsplit::codec::{parse, ParseError, TimeFormat};

#[test]
fn format_duration_millis() {
    let f = TimeFormat::millis();
    assert_eq!(f.format_duration(25_000), "0:00:25.000");
    assert_eq!(f.format_duration(3_723_045), "1:02:03.045");
    assert_eq!(f.format_duration(0), "0:00:00.000");
    assert_eq!(f.format_duration(36_000_000_007), "10000:00:00.007");
}

#[test]
fn format_duration_precision() {
    assert_eq!(TimeFormat::new(0).format_duration(61_789), "0:01:01");
    assert_eq!(TimeFormat::new(1).format_duration(61_789), "0:01:01.7");
    assert_eq!(TimeFormat::new(2).format_duration(61_789), "0:01:01.78");
    assert_eq!(TimeFormat::new(9).format_duration(61_789), "0:01:01.789");
}

#[test]
fn format_time_span_absent_is_empty() {
    let f = TimeFormat::millis();
    assert_eq!(f.format_time_span(None), "");
    assert_eq!(f.format_time_span(Some(10_000)), "0:00:10.000");
}

#[test]
fn parse_forms() {
    assert_eq!(parse("25"), Ok(25_000));
    assert_eq!(parse("25.5"), Ok(25_500));
    assert_eq!(parse("25.05"), Ok(25_050));
    assert_eq!(parse("1:00.000"), Ok(60_000));
    assert_eq!(parse("1:02:03.045"), Ok(3_723_045));
    assert_eq!(parse("0:00:25.000"), Ok(25_000));
}

#[test]
fn parse_rejects_negative() {
    assert_eq!(parse("-1:00.000"), Err(ParseError::Negative));
}

#[test]
fn parse_rejects_malformed() {
    assert_eq!(parse(""), Err(ParseError::Malformed));
    assert_eq!(parse("abc"), Err(ParseError::Malformed));
    assert_eq!(parse("1:60"), Err(ParseError::Malformed));
    assert_eq!(parse("1:5"), Err(ParseError::Malformed));
    assert_eq!(parse("1:00:00:00"), Err(ParseError::Malformed));
    assert_eq!(parse("1.2345"), Err(ParseError::Malformed));
    assert_eq!(parse("--1"), Err(ParseError::Malformed));
    assert_eq!(parse("1."), Err(ParseError::Malformed));
}

#[test]
fn parse_rejects_out_of_range() {
    assert_eq!(parse("99999999999999999999"), Err(ParseError::OutOfRange));
    assert_eq!(parse("18446744073709551:00"), Err(ParseError::OutOfRange));
}

#[test]
fn parse_format_round_trip() {
    let f = TimeFormat::millis();
    for ms in [0u64, 1, 999, 1_000, 59_999, 60_000, 3_599_999, 3_600_000, 123_456_789, u64::MAX] {
        assert_eq!(parse(&f.format_duration(ms)), Ok(ms));
    }
}
