//! Errors and their codes.

use localdb_core::Error;

#[test]
fn error_codes_are_stable() {
    let cases: &[(Error, &str, i32)] = &[
        (
            Error::StoreNotFound { id: "x".into() },
            "store_not_found",
            3,
        ),
        (
            Error::SourceNotFound { id: "x".into() },
            "source_not_found",
            3,
        ),
        (
            Error::DocumentNotFound { id: "x".into() },
            "document_not_found",
            3,
        ),
        (Error::JobNotFound { id: "x".into() }, "job_not_found", 3),
        (Error::RuntimeStateLocked, "runtime_state_locked", 4),
        (Error::DaemonRunning, "daemon_running", 4),
        (Error::DaemonUnreachable, "daemon_unreachable", 5),
        (Error::ConfigReadonly, "config_readonly", 4),
        (
            Error::InvalidConfig {
                message: "m".into(),
            },
            "invalid_config",
            2,
        ),
        (
            Error::InvalidRequest {
                message: "m".into(),
            },
            "invalid_request",
            2,
        ),
        (
            Error::UnsupportedFormat {
                format: "pdf".into(),
            },
            "unsupported_format",
            2,
        ),
        (
            Error::ExtractionFailed {
                format: "office/docx".into(),
                reason: "zip error".into(),
            },
            "extraction_failed",
            2,
        ),
        (
            Error::ProviderUnavailable {
                message: "m".into(),
            },
            "provider_unavailable",
            5,
        ),
        (
            Error::ModelMissing {
                message: "m".into(),
            },
            "model_missing",
            5,
        ),
        (Error::IndexInProgress, "index_in_progress", 4),
        (
            Error::Internal {
                message: "bug".into(),
                correlation_id: "abc123".into(),
            },
            "internal",
            1,
        ),
    ];

    for (err, expected_code, expected_exit) in cases {
        assert_eq!(err.code(), *expected_code, "code mismatch for {:?}", err);
        assert_eq!(
            err.exit_code(),
            *expected_exit,
            "exit_code mismatch for {:?}",
            err
        );
    }
}

#[test]
fn error_display_contains_context() {
    let err = Error::StoreNotFound {
        id: "my-store".into(),
    };
    assert!(err.to_string().contains("my-store"));

    let err = Error::Internal {
        message: "something broke".into(),
        correlation_id: "corr-1".into(),
    };
    assert!(err.to_string().contains("corr-1"));
    assert!(err.to_string().contains("something broke"));
}

#[test]
fn all_not_found_variants_exit_3() {
    assert_eq!(Error::StoreNotFound { id: "s".into() }.exit_code(), 3);
    assert_eq!(Error::SourceNotFound { id: "s".into() }.exit_code(), 3);
    assert_eq!(Error::DocumentNotFound { id: "s".into() }.exit_code(), 3);
    assert_eq!(Error::JobNotFound { id: "s".into() }.exit_code(), 3);
}

#[test]
fn conflict_errors_exit_4() {
    assert_eq!(Error::RuntimeStateLocked.exit_code(), 4);
    assert_eq!(Error::DaemonRunning.exit_code(), 4);
    assert_eq!(Error::ConfigReadonly.exit_code(), 4);
    assert_eq!(Error::IndexInProgress.exit_code(), 4);
}

#[test]
fn unavailable_errors_exit_5() {
    assert_eq!(Error::DaemonUnreachable.exit_code(), 5);
    assert_eq!(
        Error::ProviderUnavailable {
            message: "m".into()
        }
        .exit_code(),
        5
    );
    assert_eq!(
        Error::ModelMissing {
            message: "m".into()
        }
        .exit_code(),
        5
    );
}
