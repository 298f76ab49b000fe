use zitadel_core::civil_time::{chrono_format_utc, parse_auth_time};

#[test]
fn formats_the_epoch() {
    assert_eq!(chrono_format_utc(0), "1970-01-01T00:00:00");
}

#[test]
fn formats_a_leap_day() {
    assert_eq!(chrono_format_utc(951782400), "2000-02-29T00:00:00");
    assert_eq!(chrono_format_utc(1700000000), "2023-11-14T22:13:20");
}

#[test]
fn formats_times_before_the_epoch() {
    assert_eq!(chrono_format_utc(-1), "1969-12-31T23:59:59");
    assert_eq!(chrono_format_utc(-62135596800), "0001-01-01T00:00:00");
    assert_eq!(chrono_format_utc(-62135596801), "0000-12-31T23:59:59");
    assert_eq!(chrono_format_utc(-62167219201), "-001-12-31T23:59:59");
}

#[test]
fn formats_years_past_four_digits() {
    assert_eq!(chrono_format_utc(253402300799), "9999-12-31T23:59:59");
    assert_eq!(chrono_format_utc(253402300800), "10000-01-01T00:00:00");
}

#[test]
fn formats_the_extreme_timestamps_without_panicking() {
    assert!(!chrono_format_utc(i64::MAX).is_empty());
    assert!(!chrono_format_utc(i64::MIN).is_empty());
}

#[test]
fn auth_time_reads_epochs_and_timestamps() {
    assert_eq!(parse_auth_time("1700000000"), Some(1700000000));
    assert_eq!(parse_auth_time("2024-01-02 03:04:05"), Some(1704164645));
    assert_eq!(parse_auth_time("2024-13-01 00:00:00"), Some(1735689600));
    assert_eq!(parse_auth_time("1969-12-31 23:59:59"), Some(31535999));
    assert_eq!(parse_auth_time("2024-01-02T03:04:05"), None);
    assert_eq!(parse_auth_time("garbage"), None);
    assert_eq!(parse_auth_time("-5"), None);
}
