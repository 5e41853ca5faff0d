//! Refresh intervals.

use localdb_core::config::validate_refresh_interval;
use localdb_core::Error;

#[test]
fn valid_hours() {
    assert_eq!(validate_refresh_interval("1h").unwrap(), Some(3600));
    assert_eq!(validate_refresh_interval("24h").unwrap(), Some(86400));
}

#[test]
fn valid_minutes() {
    assert_eq!(validate_refresh_interval("30m").unwrap(), Some(1800));
}

#[test]
fn valid_seconds() {
    assert_eq!(validate_refresh_interval("3600s").unwrap(), Some(3600));
}

#[test]
fn valid_plain_number() {
    assert_eq!(validate_refresh_interval("7200").unwrap(), Some(7200));
}

#[test]
fn empty_returns_none() {
    assert_eq!(validate_refresh_interval("").unwrap(), None);
    assert_eq!(validate_refresh_interval("   ").unwrap(), None);
}

#[test]
fn invalid_returns_err() {
    assert!(matches!(
        validate_refresh_interval("badvalue"),
        Err(Error::InvalidRequest { .. })
    ));
    assert!(matches!(
        validate_refresh_interval("1x"),
        Err(Error::InvalidRequest { .. })
    ));
}
