//! Tests for the date model, the overlap predicate, and the input validators.

use reservas::date::{overlaps, Date};
use reservas::input_validator::{DateValidator, EmailValidator, PasswordValidator, Validator};

fn d(s: &str) -> Date {
    Date::parse(s).unwrap()
}

#[test]
fn parse_accepts_plain_dates() {
    assert_eq!(Date::parse("2025-03-01"), Some(Date { year: 2025, month: 3, day: 1 }));
    assert_eq!(Date::parse("0001-01-01"), Some(Date { year: 1, month: 1, day: 1 }));
    assert_eq!(Date::parse("9999-12-31"), Some(Date { year: 9999, month: 12, day: 31 }));
}

#[test]
fn parse_rejects_malformed_strings() {
    assert_eq!(Date::parse(""), None);
    assert_eq!(Date::parse("2025-3-01"), None);
    assert_eq!(Date::parse("2025-03-1"), None);
    assert_eq!(Date::parse("2025/03/01"), None);
    assert_eq!(Date::parse("25-03-011"), None);
    assert_eq!(Date::parse("2025-03-01x"), None);
    assert_eq!(Date::parse("abcd-ef-gh"), None);
}

#[test]
fn parse_rejects_impossible_days() {
    assert_eq!(Date::parse("2025-00-10"), None);
    assert_eq!(Date::parse("2025-13-10"), None);
    assert_eq!(Date::parse("2025-04-31"), None);
    assert_eq!(Date::parse("2025-01-00"), None);
    assert_eq!(Date::parse("2025-01-32"), None);
}

#[test]
fn parse_knows_leap_years() {
    assert_eq!(Date::parse("2024-02-29"), Some(Date { year: 2024, month: 2, day: 29 }));
    assert_eq!(Date::parse("2025-02-29"), None);
    assert_eq!(Date::parse("2000-02-29"), Some(Date { year: 2000, month: 2, day: 29 }));
    assert_eq!(Date::parse("1900-02-29"), None);
}

#[test]
fn parse_agrees_with_chrono() {
    let samples = [
        "2025-03-01",
        "2024-02-29",
        "2025-02-29",
        "2025-04-31",
        "2025-12-31",
        "2025-00-01",
        "2025-13-01",
        "0001-01-01",
        "1900-02-29",
        "2000-02-29",
    ];
    for s in samples {
        let ours = Date::parse(s);
        let theirs = chrono::NaiveDate::parse_from_str(s, "%Y-%m-%d").ok();
        assert_eq!(ours.is_some(), theirs.is_some(), "disagreement on {}", s);
    }
}

#[test]
fn format_round_trips() {
    for s in ["2025-03-01", "0001-01-01", "9999-12-31", "2024-02-29"] {
        let date = d(s);
        assert_eq!(date.to_ymd_string(), s);
        assert_eq!(Date::parse(&date.to_ymd_string()), Some(date));
    }
}

#[test]
fn dates_compare_by_calendar_value() {
    assert!(d("2025-02-01").le(&d("2025-10-01")));
    assert!(!d("2025-10-01").le(&d("2025-02-01")));
    assert!(d("2024-12-31").le(&d("2025-01-01")));
    assert!(d("2025-03-05").le(&d("2025-03-05")));
}

#[test]
fn overlap_boundary_touch_counts() {
    // A = [2025-01-10, 2025-01-15], B = [2025-01-15, 2025-01-20]: the shared
    // boundary day is an overlap.
    assert!(overlaps(&d("2025-01-10"), &d("2025-01-15"), &d("2025-01-15"), &d("2025-01-20")));
}

#[test]
fn overlap_disjoint_ranges_do_not_overlap() {
    // A = [2025-01-10, 2025-01-14], B = [2025-01-15, 2025-01-20].
    assert!(!overlaps(&d("2025-01-10"), &d("2025-01-14"), &d("2025-01-15"), &d("2025-01-20")));
}

#[test]
fn overlap_containment_counts_both_ways() {
    // A contains B entirely.
    assert!(overlaps(&d("2025-01-01"), &d("2025-01-31"), &d("2025-01-10"), &d("2025-01-15")));
    // B contains A entirely.
    assert!(overlaps(&d("2025-01-10"), &d("2025-01-15"), &d("2025-01-01"), &d("2025-01-31")));
}

#[test]
fn overlap_is_symmetric_on_samples() {
    let cases = [
        ("2025-01-10", "2025-01-15", "2025-01-15", "2025-01-20"),
        ("2025-01-10", "2025-01-14", "2025-01-15", "2025-01-20"),
        ("2025-01-01", "2025-01-31", "2025-01-10", "2025-01-15"),
    ];
    for (a1, a2, b1, b2) in cases {
        assert_eq!(
            overlaps(&d(a1), &d(a2), &d(b1), &d(b2)),
            overlaps(&d(b1), &d(b2), &d(a1), &d(a2))
        );
    }
}

#[test]
fn date_validator_parses_and_rejects() {
    let v = DateValidator;
    // The accepted triple comes back as (year, day, month).
    assert_eq!(v.validate("2025-03-01").ok(), Some((2025, 1, 3)));
    assert_eq!(v.validate("2024-02-29").ok(), Some((2024, 29, 2)));
    assert!(v.validate("2025-02-29").is_err());
    assert!(v.validate("not a date").is_err());
    assert!(v.validate("2025-3-1").is_err());
}

#[test]
fn email_validator_accepts_plain_addresses() {
    let v = EmailValidator;
    assert!(v.validate("user@example.com").is_ok());
    assert!(v.validate("a@b.c").is_ok());
    assert!(v.validate("first.last@sub.domain.org").is_ok());
}

#[test]
fn email_validator_rejects_malformed_addresses() {
    let v = EmailValidator;
    assert!(v.validate("").is_err());
    assert!(v.validate("userexample.com").is_err());
    assert!(v.validate("user@com").is_err());
    assert!(v.validate("@example.com").is_err());
    assert!(v.validate("user@.").is_err());
    assert!(v.validate("user@example.").is_err());
    assert!(v.validate("us er@example.com").is_err());
    assert!(v.validate("user@@example.com").is_err());
    assert!(v.validate("user@example\n.com").is_err());
}

#[test]
fn password_validator_wants_five_characters() {
    let v = PasswordValidator;
    assert!(v.validate("abcde").is_ok());
    assert!(v.validate("abcd").is_err());
    assert!(v.validate("").is_err());
    assert!(v.validate("longer password").is_ok());
}

#[test]
fn validation_error_carries_its_message() {
    let v = PasswordValidator;
    let e = v.validate("x").unwrap_err();
    assert_eq!(e.message(), "Password must be at least 5 characters long");
}
