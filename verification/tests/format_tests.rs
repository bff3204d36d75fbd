use stock_analyzer::dates::Date;
use stock_analyzer::decimal::Decimal;
use stock_analyzer::errors::PipeError;

fn parse_dec(s: &str) -> Option<Decimal> {
    Decimal::parse(&s.as_bytes().to_vec())
}

fn parse_date(s: &str) -> Option<Date> {
    Date::parse(&s.as_bytes().to_vec())
}

#[test]
fn decimal_parse_plain_forms() {
    assert_eq!(parse_dec("100.5"), Some(Decimal { neg: false, mant: 1005, scale: 1 }));
    assert_eq!(parse_dec("101"), Some(Decimal { neg: false, mant: 101, scale: 0 }));
    assert_eq!(parse_dec("0.50"), Some(Decimal { neg: false, mant: 50, scale: 2 }));
    assert_eq!(parse_dec("-3.25"), Some(Decimal { neg: true, mant: 325, scale: 2 }));
    assert_eq!(parse_dec("007.5"), Some(Decimal { neg: false, mant: 75, scale: 1 }));
}

#[test]
fn decimal_parse_rejects_other_forms() {
    assert_eq!(parse_dec("bad"), None);
    assert_eq!(parse_dec(""), None);
    assert_eq!(parse_dec("-"), None);
    assert_eq!(parse_dec("."), None);
    assert_eq!(parse_dec(".5"), None);
    assert_eq!(parse_dec("5."), None);
    assert_eq!(parse_dec("1.2.3"), None);
    assert_eq!(parse_dec("1e5"), None);
    assert_eq!(parse_dec("1.2345678"), None); // more than six fractional digits
    assert_eq!(parse_dec("1000000000000"), None); // mantissa at the limit
}

#[test]
fn decimal_format_round_trip() {
    for d in [
        Decimal { neg: false, mant: 1005, scale: 1 },
        Decimal { neg: false, mant: 101, scale: 0 },
        Decimal { neg: false, mant: 50, scale: 2 },
        Decimal { neg: true, mant: 325, scale: 2 },
        Decimal { neg: false, mant: 0, scale: 1 },
        Decimal { neg: false, mant: 999999999999, scale: 6 },
    ] {
        let s = d.format();
        assert_eq!(Decimal::parse(&s), Some(d));
    }
    assert_eq!(Decimal { neg: false, mant: 1005, scale: 1 }.format(), b"100.5".to_vec());
    assert_eq!(Decimal { neg: false, mant: 50, scale: 2 }.format(), b"0.50".to_vec());
}

#[test]
fn date_parse_strict_calendar() {
    assert_eq!(parse_date("2024-01-01"), Some(Date { year: 2024, month: 1, day: 1 }));
    assert_eq!(parse_date("2024-02-29"), Some(Date { year: 2024, month: 2, day: 29 }));
    assert_eq!(parse_date("2023-02-29"), None); // not a leap year
    assert_eq!(parse_date("1900-02-29"), None); // century, not a leap year
    assert_eq!(parse_date("2000-02-29"), Some(Date { year: 2000, month: 2, day: 29 }));
    assert_eq!(parse_date("2024-13-01"), None);
    assert_eq!(parse_date("2024-00-01"), None);
    assert_eq!(parse_date("2024-04-31"), None);
    assert_eq!(parse_date("2024-1-01"), None); // widths are fixed
    assert_eq!(parse_date("2024/01/01"), None);
    assert_eq!(parse_date("2024-01-011"), None);
}

#[test]
fn date_format_round_trip() {
    for d in [
        Date { year: 2024, month: 1, day: 1 },
        Date { year: 7, month: 12, day: 31 },
        Date { year: 9999, month: 2, day: 28 },
    ] {
        assert_eq!(Date::parse(&d.format()), Some(d));
    }
    assert_eq!(Date { year: 7, month: 12, day: 31 }.format(), b"0007-12-31".to_vec());
}

#[test]
fn error_messages_name_each_failure() {
    assert!(PipeError::MissingSeries.message().contains("Time Series (Daily)"));
    assert!(!PipeError::Io.message().is_empty());
    assert!(!PipeError::PredictorFailed.message().is_empty());
    assert!(!PipeError::ResultUnreadable.message().is_empty());
    assert!(!PipeError::StoreWrite.message().is_empty());
}
