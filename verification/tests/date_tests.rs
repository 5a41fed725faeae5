use sudut_buku::date::{parse_date, Date};

#[test]
fn parses_a_plain_date() {
    let d = parse_date("2025-12-01");
    assert_eq!(d, Some(Date { year: 2025, month: 12, day: 1 }));
}

#[test]
fn rejects_malformed_strings() {
    assert_eq!(parse_date(""), None);
    assert_eq!(parse_date("20251201"), None);
    assert_eq!(parse_date("2025-1-01"), None);
    assert_eq!(parse_date("2025/12/01"), None);
    assert_eq!(parse_date("abcd-ef-gh"), None);
    assert_eq!(parse_date("2025-12-01x"), None);
}

#[test]
fn rejects_impossible_dates() {
    assert_eq!(parse_date("2025-13-01"), None);
    assert_eq!(parse_date("2025-00-10"), None);
    assert_eq!(parse_date("2025-04-31"), None);
    assert_eq!(parse_date("2025-12-00"), None);
}

#[test]
fn knows_leap_years() {
    assert_eq!(parse_date("2024-02-29"), Some(Date { year: 2024, month: 2, day: 29 }));
    assert_eq!(parse_date("2025-02-29"), None);
    assert_eq!(parse_date("1900-02-29"), None);
    assert_eq!(parse_date("2000-02-29"), Some(Date { year: 2000, month: 2, day: 29 }));
}

#[test]
fn orders_dates_by_calendar() {
    let a = Date { year: 2025, month: 10, day: 10 };
    let b = Date { year: 2025, month: 10, day: 11 };
    let c = Date { year: 2026, month: 1, day: 1 };
    assert!(a.le(&b));
    assert!(!b.le(&a));
    assert!(b.le(&c));
    assert!(a.le(&a));
}
