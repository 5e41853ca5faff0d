//! Dates of documents.

use localdb_core::dates::{is_canonical_timestamp, parse_date_or_datetime, parse_partial_iso8601};

#[test]
fn bare_year() {
    assert_eq!(parse_partial_iso8601("2026"), Some("2026".to_string()));
}

#[test]
fn year_month() {
    assert_eq!(
        parse_partial_iso8601("2026-06"),
        Some("2026-06".to_string())
    );
}

#[test]
fn full_date() {
    assert_eq!(
        parse_partial_iso8601("2026-06-15"),
        Some("2026-06-15".to_string())
    );
}

#[test]
fn full_rfc3339_datetime_with_z() {
    assert_eq!(
        parse_partial_iso8601("2026-06-15T10:30:00Z"),
        Some("2026-06-15".to_string())
    );
}

#[test]
fn full_rfc3339_datetime_with_offset() {
    assert_eq!(
        parse_partial_iso8601("2026-06-15T10:30:00+02:00"),
        Some("2026-06-15".to_string())
    );
}

#[test]
fn rejects_garbage() {
    assert_eq!(parse_partial_iso8601("not-a-date"), None);
    assert_eq!(parse_partial_iso8601("2026-06-15T"), None);
    assert_eq!(parse_partial_iso8601("2026-06-15T10:30:00"), None);
    assert_eq!(parse_partial_iso8601("2026-06-15X10:30:00Z"), None);
}

#[test]
fn rejects_empty() {
    assert_eq!(parse_partial_iso8601(""), None);
    assert_eq!(parse_partial_iso8601("   "), None);
}

#[test]
fn rejects_month_13() {
    assert_eq!(parse_partial_iso8601("2026-13"), None);
    assert_eq!(parse_partial_iso8601("2026-13-01"), None);
}

#[test]
fn rejects_day_00() {
    assert_eq!(parse_partial_iso8601("2026-06-00"), None);
}

#[test]
fn pdf_year_only_shape() {
    assert_eq!(parse_partial_iso8601("2026"), Some("2026".to_string()));
}

#[test]
fn pdf_year_month_shape() {
    assert_eq!(
        parse_partial_iso8601("2026-06"),
        Some("2026-06".to_string())
    );
}

#[test]
fn pdf_full_date_shape() {
    assert_eq!(
        parse_partial_iso8601("2026-06-15"),
        Some("2026-06-15".to_string())
    );
}

#[test]
fn epub_date_shape() {
    assert_eq!(
        parse_partial_iso8601("2023-01-25"),
        Some("2023-01-25".to_string())
    );
}

#[test]
fn feed_rfc3339_shape() {
    assert_eq!(
        parse_partial_iso8601("2026-01-04T00:00:00+00:00"),
        Some("2026-01-04".to_string())
    );
}

#[test]
fn partial_date_shapes_pass_through_unchanged() {
    assert_eq!(parse_date_or_datetime("2026"), Some("2026".to_string()));
    assert_eq!(
        parse_date_or_datetime("2026-06"),
        Some("2026-06".to_string())
    );
    assert_eq!(
        parse_date_or_datetime("2026-06-15"),
        Some("2026-06-15".to_string())
    );
}

#[test]
fn full_datetime_with_non_utc_offset_normalizes_to_utc_canonical_form() {
    assert_eq!(
        parse_date_or_datetime("2026-06-15T14:30:00+02:00"),
        Some("2026-06-15T12:30:00Z".to_string())
    );
}

#[test]
fn full_datetime_with_fractional_seconds_loses_the_fraction() {
    assert_eq!(
        parse_date_or_datetime("2026-06-15T10:30:00.123456Z"),
        Some("2026-06-15T10:30:00Z".to_string())
    );
}

#[test]
fn full_datetime_with_z_normalizes_unchanged_in_value() {
    assert_eq!(
        parse_date_or_datetime("2026-06-15T10:30:00Z"),
        Some("2026-06-15T10:30:00Z".to_string())
    );
}

#[test]
fn full_datetime_lowercase_t_and_z_accepted() {
    assert_eq!(
        parse_date_or_datetime("2026-06-15t10:30:00z"),
        Some("2026-06-15T10:30:00Z".to_string())
    );
}

#[test]
fn full_datetime_with_calendar_invalid_date_is_rejected() {
    assert_eq!(parse_date_or_datetime("2026-11-31T10:00:00Z"), None);
}

#[test]
fn rejects_datetime_missing_offset() {
    assert_eq!(parse_date_or_datetime("2026-06-15T10:30:00"), None);
}

#[test]
fn rejects_garbage_and_empty() {
    assert_eq!(parse_date_or_datetime(""), None);
    assert_eq!(parse_date_or_datetime("   "), None);
    assert_eq!(parse_date_or_datetime("not-a-date"), None);
    assert_eq!(parse_date_or_datetime("2026-13"), None);
    assert_eq!(parse_date_or_datetime("2026-06-00"), None);
}

#[test]
fn multibyte_input_across_a_component_boundary_fails_closed() {
    for raw in [
        "2026-0é",
        "2026-06-0é",
        "2026-0é-01",
        "20é6",
        "2026-06-10T1é:00:00Z",
        "２０２６",
        "2026-06-10\u{0}",
    ] {
        assert_eq!(
            parse_partial_iso8601(raw),
            None,
            "parse_partial_iso8601({raw:?}) must return None, not panic"
        );
        assert_eq!(
            parse_date_or_datetime(raw),
            None,
            "parse_date_or_datetime({raw:?}) must return None, not panic"
        );
    }
}

#[test]
fn is_canonical_timestamp_accepts_only_the_stored_form() {
    assert!(is_canonical_timestamp("2026-06-10T12:00:00Z"));
    assert!(is_canonical_timestamp("1970-01-01T00:00:00Z"));

    for bad in [
        "+10000-01-01T00:00:00Z",
        "-189627-03-09T13:49:29Z",
        "2026-06-10T12:00:00+00:00",
        "2026-06-10T12:00:00.123Z",
        "2026-06-10T12:00:00",
        "2026-06-10",
        "",
        "20X6-06-10T12:00:00Z",
    ] {
        assert!(
            !is_canonical_timestamp(bad),
            "{bad:?} must not be canonical"
        );
    }
}
