//! Timestamps.

use localdb_core::dates::is_canonical_timestamp;
use localdb_core::ingestion::format_secs_rfc3339;

#[test]
fn epoch_zero_is_1970_01_01() {
    assert_eq!(format_secs_rfc3339(0), "1970-01-01T00:00:00Z");
}

#[test]
fn leap_day_2024_02_29_is_formatted_correctly() {
    assert_eq!(format_secs_rfc3339(1_709_164_800), "2024-02-29T00:00:00Z");
}

#[test]
fn year_end_boundary_rolls_over_correctly() {
    assert_eq!(format_secs_rfc3339(1_704_067_199), "2023-12-31T23:59:59Z");
    assert_eq!(format_secs_rfc3339(1_704_067_200), "2024-01-01T00:00:00Z");
}

#[test]
fn format_secs_rfc3339_matches_canonical_shape() {
    assert!(
        is_canonical_timestamp(&format_secs_rfc3339(1_783_524_645)),
        "expected canonical YYYY-MM-DDTHH:MM:SSZ shape, got: {}",
        format_secs_rfc3339(1_783_524_645)
    );
}

#[test]
fn format_secs_rfc3339_has_no_fractional_second_component() {
    assert!(!format_secs_rfc3339(1_783_524_645).contains('.'));
}

#[test]
fn every_timestamp_formats_to_canonical_form_or_falls_back() {
    for secs in [
        0,
        1_781_092_800,
        253_402_300_800,
        1_000_000_000_000,
        8_210_298_412_800,
        i64::MAX as u64 + 1,
        u64::MAX,
    ] {
        let formatted = format_secs_rfc3339(secs);
        assert!(
            is_canonical_timestamp(&formatted),
            "{secs} produced non-canonical {formatted:?}; a `+`/`-` year prefix \
             sorts below every digit and would misorder against every stored row"
        );
    }
}

#[test]
fn timestamps_above_i64_max_fall_back_instead_of_wrapping_to_pre_epoch() {
    for secs in [u64::MAX, i64::MAX as u64 + 1] {
        let formatted = format_secs_rfc3339(secs);
        assert_eq!(
            formatted, "1970-01-01T00:00:00Z",
            "{secs} must hit the epoch fallback, not wrap"
        );
        assert!(
            !formatted.starts_with("1969"),
            "{secs} wrapped into a pre-epoch instant: {formatted}"
        );
    }
}

#[test]
fn legacy_literal_and_chrono_produced_value_interleave_correctly() {
    const AT_SECS: u64 = 1_781_092_800;
    let legacy_literal = "2026-06-10T12:00:00Z".to_string();
    let chrono_produced = format_secs_rfc3339(AT_SECS);
    let one_second_before = format_secs_rfc3339(AT_SECS - 1);
    let one_second_after = format_secs_rfc3339(AT_SECS + 1);

    assert_eq!(legacy_literal, chrono_produced);
    assert!(one_second_before < legacy_literal);
    assert!(one_second_before < chrono_produced);
    assert!(legacy_literal < one_second_after);
    assert!(chrono_produced < one_second_after);
}
