//! The error taxonomy that all surfaces share.
//!
//! Codes and exit codes are stable: surfaces map them mechanically.

use crate::text;
use vstd::prelude::*;

verus! {

/// Every failure of the library.
#[derive(Debug, Clone, PartialEq)]
pub enum Error {
    /// Unknown store entity.
    StoreNotFound { id: String },
    /// Unknown source entity.
    SourceNotFound { id: String },
    /// Unknown document entity.
    DocumentNotFound { id: String },
    /// Unknown job entity.
    JobNotFound { id: String },
    /// The write lock of the runtime-state database was not acquired in time.
    RuntimeStateLocked,
    /// A daemon is already running when none is expected.
    DaemonRunning,
    /// No daemon is reachable when one is required.
    DaemonUnreachable,
    /// A write to an object that the config file owns.
    ConfigReadonly,
    /// The config failed validation; the message is path-precise.
    InvalidConfig { message: String },
    /// Bad arguments or request body.
    InvalidRequest { message: String },
    /// Missing, unknown or spent credentials.
    Unauthorized { message: String },
    /// Known credentials without the needed rights.
    Forbidden { message: String },
    /// Extraction cannot handle the file type.
    UnsupportedFormat { format: String },
    /// A supported format whose contents could not be extracted.
    ExtractionFailed { format: String, reason: String },
    /// The embedding endpoint is down or misconfigured.
    ProviderUnavailable { message: String },
    /// The local model is not downloaded yet.
    ModelMissing { message: String },
    /// A conflicting index job runs for this scope.
    IndexInProgress,
    /// An internal fault, with a correlation id.
    Internal { message: String, correlation_id: String },
}

/// An error as a mathematical value.
pub enum ErrorView {
    StoreNotFound { id: Seq<char> },
    SourceNotFound { id: Seq<char> },
    DocumentNotFound { id: Seq<char> },
    JobNotFound { id: Seq<char> },
    RuntimeStateLocked,
    DaemonRunning,
    DaemonUnreachable,
    ConfigReadonly,
    InvalidConfig { message: Seq<char> },
    InvalidRequest { message: Seq<char> },
    Unauthorized { message: Seq<char> },
    Forbidden { message: Seq<char> },
    UnsupportedFormat { format: Seq<char> },
    ExtractionFailed { format: Seq<char>, reason: Seq<char> },
    ProviderUnavailable { message: Seq<char> },
    ModelMissing { message: Seq<char> },
    IndexInProgress,
    Internal { message: Seq<char>, correlation_id: Seq<char> },
}

impl View for Error {
    type V = ErrorView;

    open spec fn view(&self) -> ErrorView {
        match *self {
            Error::StoreNotFound { id } => ErrorView::StoreNotFound { id: id@ },
            Error::SourceNotFound { id } => ErrorView::SourceNotFound { id: id@ },
            Error::DocumentNotFound { id } => ErrorView::DocumentNotFound { id: id@ },
            Error::JobNotFound { id } => ErrorView::JobNotFound { id: id@ },
            Error::RuntimeStateLocked => ErrorView::RuntimeStateLocked,
            Error::DaemonRunning => ErrorView::DaemonRunning,
            Error::DaemonUnreachable => ErrorView::DaemonUnreachable,
            Error::ConfigReadonly => ErrorView::ConfigReadonly,
            Error::InvalidConfig { message } => ErrorView::InvalidConfig { message: message@ },
            Error::InvalidRequest { message } => ErrorView::InvalidRequest { message: message@ },
            Error::Unauthorized { message } => ErrorView::Unauthorized { message: message@ },
            Error::Forbidden { message } => ErrorView::Forbidden { message: message@ },
            Error::UnsupportedFormat { format } => ErrorView::UnsupportedFormat { format: format@ },
            Error::ExtractionFailed { format, reason } => ErrorView::ExtractionFailed { format: format@, reason: reason@ },
            Error::ProviderUnavailable { message } => ErrorView::ProviderUnavailable { message: message@ },
            Error::ModelMissing { message } => ErrorView::ModelMissing { message: message@ },
            Error::IndexInProgress => ErrorView::IndexInProgress,
            Error::Internal { message, correlation_id } => ErrorView::Internal { message: message@, correlation_id: correlation_id@ },
        }
    }
}

impl ErrorView {
    /// The stable code used in JSON error responses.
    pub open spec fn code(self) -> Seq<char> {
        match self {
            ErrorView::StoreNotFound { .. } => "store_not_found"@,
            ErrorView::SourceNotFound { .. } => "source_not_found"@,
            ErrorView::DocumentNotFound { .. } => "document_not_found"@,
            ErrorView::JobNotFound { .. } => "job_not_found"@,
            ErrorView::RuntimeStateLocked => "runtime_state_locked"@,
            ErrorView::DaemonRunning => "daemon_running"@,
            ErrorView::DaemonUnreachable => "daemon_unreachable"@,
            ErrorView::ConfigReadonly => "config_readonly"@,
            ErrorView::InvalidConfig { .. } => "invalid_config"@,
            ErrorView::InvalidRequest { .. } => "invalid_request"@,
            ErrorView::Unauthorized { .. } => "unauthorized"@,
            ErrorView::Forbidden { .. } => "forbidden"@,
            ErrorView::UnsupportedFormat { .. } => "unsupported_format"@,
            ErrorView::ExtractionFailed { .. } => "extraction_failed"@,
            ErrorView::ProviderUnavailable { .. } => "provider_unavailable"@,
            ErrorView::ModelMissing { .. } => "model_missing"@,
            ErrorView::IndexInProgress => "index_in_progress"@,
            ErrorView::Internal { .. } => "internal"@,
        }
    }

    /// The exit code of a command that failed with this error.
    pub open spec fn exit_code(self) -> i32 {
        match self {
            ErrorView::StoreNotFound { .. } => 3,
            ErrorView::SourceNotFound { .. } => 3,
            ErrorView::DocumentNotFound { .. } => 3,
            ErrorView::JobNotFound { .. } => 3,
            ErrorView::RuntimeStateLocked => 4,
            ErrorView::DaemonRunning => 4,
            ErrorView::DaemonUnreachable => 5,
            ErrorView::ConfigReadonly => 4,
            ErrorView::InvalidConfig { .. } => 2,
            ErrorView::InvalidRequest { .. } => 2,
            ErrorView::Unauthorized { .. } => 2,
            ErrorView::Forbidden { .. } => 2,
            ErrorView::UnsupportedFormat { .. } => 2,
            ErrorView::ExtractionFailed { .. } => 2,
            ErrorView::ProviderUnavailable { .. } => 5,
            ErrorView::ModelMissing { .. } => 5,
            ErrorView::IndexInProgress => 4,
            ErrorView::Internal { .. } => 1,
        }
    }

    /// The text shown to a person.
    pub open spec fn display(self) -> Seq<char> {
        match self {
            ErrorView::StoreNotFound { id } => "store not found: "@ + id,
            ErrorView::SourceNotFound { id } => "source not found: "@ + id,
            ErrorView::DocumentNotFound { id } => "document not found: "@ + id,
            ErrorView::JobNotFound { id } => "job not found: "@ + id,
            ErrorView::RuntimeStateLocked => "runtime-state database write lock could not be acquired within the busy timeout; try again shortly"@,
            ErrorView::DaemonRunning => "daemon is already running"@,
            ErrorView::DaemonUnreachable => "daemon is unreachable"@,
            ErrorView::ConfigReadonly => "this object is owned by the config file and cannot be mutated via the API"@,
            ErrorView::InvalidConfig { message } => "invalid config: "@ + message,
            ErrorView::InvalidRequest { message } => "invalid request: "@ + message,
            ErrorView::Unauthorized { message } => "unauthorized: "@ + message,
            ErrorView::Forbidden { message } => "forbidden: "@ + message,
            ErrorView::UnsupportedFormat { format } => "unsupported format: "@ + format,
            ErrorView::ExtractionFailed { format, reason } => "extraction failed for "@ + format + ": "@
                + reason,
            ErrorView::ProviderUnavailable { message } => "provider unavailable: "@ + message,
            ErrorView::ModelMissing { message } => "model missing: "@ + message,
            ErrorView::IndexInProgress => "index already in progress for this scope"@,
            ErrorView::Internal { message, correlation_id } => "internal error (correlation_id="@
                + correlation_id + "): "@ + message,
        }
    }

    /// The one text field of the error, where that field alone is its content.
    pub open spec fn bare(self) -> Option<Seq<char>> {
        match self {
            ErrorView::StoreNotFound { id } => Some(id),
            ErrorView::SourceNotFound { id } => Some(id),
            ErrorView::DocumentNotFound { id } => Some(id),
            ErrorView::JobNotFound { id } => Some(id),
            ErrorView::InvalidConfig { message } => Some(message),
            ErrorView::InvalidRequest { message } => Some(message),
            ErrorView::Unauthorized { message } => Some(message),
            ErrorView::Forbidden { message } => Some(message),
            ErrorView::UnsupportedFormat { format } => Some(format),
            ErrorView::ProviderUnavailable { message } => Some(message),
            ErrorView::ModelMissing { message } => Some(message),
            _ => None,
        }
    }
}

impl Error {
    /// The stable code used in JSON error responses.
    pub fn code(&self) -> (r: &'static str)
        ensures
            r@ == self@.code(),
    {
        match self {
            Error::StoreNotFound { .. } => "store_not_found",
            Error::SourceNotFound { .. } => "source_not_found",
            Error::DocumentNotFound { .. } => "document_not_found",
            Error::JobNotFound { .. } => "job_not_found",
            Error::RuntimeStateLocked => "runtime_state_locked",
            Error::DaemonRunning => "daemon_running",
            Error::DaemonUnreachable => "daemon_unreachable",
            Error::ConfigReadonly => "config_readonly",
            Error::InvalidConfig { .. } => "invalid_config",
            Error::InvalidRequest { .. } => "invalid_request",
            Error::Unauthorized { .. } => "unauthorized",
            Error::Forbidden { .. } => "forbidden",
            Error::UnsupportedFormat { .. } => "unsupported_format",
            Error::ExtractionFailed { .. } => "extraction_failed",
            Error::ProviderUnavailable { .. } => "provider_unavailable",
            Error::ModelMissing { .. } => "model_missing",
            Error::IndexInProgress => "index_in_progress",
            Error::Internal { .. } => "internal",
        }
    }

    /// The suggested exit code of a command for this error.
    pub fn exit_code(&self) -> (r: i32)
        ensures
            r == self@.exit_code(),
    {
        match self {
            Error::StoreNotFound { .. } => 3,
            Error::SourceNotFound { .. } => 3,
            Error::DocumentNotFound { .. } => 3,
            Error::JobNotFound { .. } => 3,
            Error::RuntimeStateLocked => 4,
            Error::DaemonRunning => 4,
            Error::DaemonUnreachable => 5,
            Error::ConfigReadonly => 4,
            Error::InvalidConfig { .. } => 2,
            Error::InvalidRequest { .. } => 2,
            Error::Unauthorized { .. } => 2,
            Error::Forbidden { .. } => 2,
            Error::UnsupportedFormat { .. } => 2,
            Error::ExtractionFailed { .. } => 2,
            Error::ProviderUnavailable { .. } => 5,
            Error::ModelMissing { .. } => 5,
            Error::IndexInProgress => 4,
            Error::Internal { .. } => 1,
        }
    }

    /// The text shown to a person.
    pub fn to_string(&self) -> (r: String)
        ensures
            r@ == self@.display(),
    {
        match self {
            Error::StoreNotFound { id } => text::concat("store not found: ", id.as_str()),
            Error::SourceNotFound { id } => text::concat("source not found: ", id.as_str()),
            Error::DocumentNotFound { id } => text::concat("document not found: ", id.as_str()),
            Error::JobNotFound { id } => text::concat("job not found: ", id.as_str()),
            Error::RuntimeStateLocked => "runtime-state database write lock could not be acquired within the busy timeout; try again shortly".to_owned(),
            Error::DaemonRunning => "daemon is already running".to_owned(),
            Error::DaemonUnreachable => "daemon is unreachable".to_owned(),
            Error::ConfigReadonly => "this object is owned by the config file and cannot be mutated via the API".to_owned(),
            Error::InvalidConfig { message } => text::concat("invalid config: ", message.as_str()),
            Error::InvalidRequest { message } => text::concat("invalid request: ", message.as_str()),
            Error::Unauthorized { message } => text::concat("unauthorized: ", message.as_str()),
            Error::Forbidden { message } => text::concat("forbidden: ", message.as_str()),
            Error::UnsupportedFormat { format } => text::concat("unsupported format: ", format.as_str()),
            Error::ExtractionFailed { format, reason } => {
                let head = text::concat("extraction failed for ", format.as_str());
                let head = text::concat(head.as_str(), ": ");
                text::concat(head.as_str(), reason.as_str())
            },
            Error::ProviderUnavailable { message } => text::concat("provider unavailable: ", message.as_str()),
            Error::ModelMissing { message } => text::concat("model missing: ", message.as_str()),
            Error::IndexInProgress => "index already in progress for this scope".to_owned(),
            Error::Internal { message, correlation_id } => {
                let head = text::concat("internal error (correlation_id=", correlation_id.as_str());
                let head = text::concat(head.as_str(), "): ");
                text::concat(head.as_str(), message.as_str())
            },
        }
    }

    /// The error's one text field without the prefix that [`Error::to_string`] adds, where
    /// that field alone is its content.
    pub fn raw_message(&self) -> (r: Option<&str>)
        ensures
            text::opt_str_view(r) == self@.bare(),
    {
        match self {
            Error::StoreNotFound { id } => Some(id.as_str()),
            Error::SourceNotFound { id } => Some(id.as_str()),
            Error::DocumentNotFound { id } => Some(id.as_str()),
            Error::JobNotFound { id } => Some(id.as_str()),
            Error::InvalidConfig { message } => Some(message.as_str()),
            Error::InvalidRequest { message } => Some(message.as_str()),
            Error::Unauthorized { message } => Some(message.as_str()),
            Error::Forbidden { message } => Some(message.as_str()),
            Error::UnsupportedFormat { format } => Some(format.as_str()),
            Error::ProviderUnavailable { message } => Some(message.as_str()),
            Error::ModelMissing { message } => Some(message.as_str()),
            _ => None,
        }
    }

    /// An error with the same content.
    pub fn duplicate(&self) -> (r: Error)
        ensures
            r@ == self@,
    {
        match self {
            Error::StoreNotFound { id } => Error::StoreNotFound { id: id.clone() },
            Error::SourceNotFound { id } => Error::SourceNotFound { id: id.clone() },
            Error::DocumentNotFound { id } => Error::DocumentNotFound { id: id.clone() },
            Error::JobNotFound { id } => Error::JobNotFound { id: id.clone() },
            Error::RuntimeStateLocked => Error::RuntimeStateLocked,
            Error::DaemonRunning => Error::DaemonRunning,
            Error::DaemonUnreachable => Error::DaemonUnreachable,
            Error::ConfigReadonly => Error::ConfigReadonly,
            Error::InvalidConfig { message } => Error::InvalidConfig { message: message.clone() },
            Error::InvalidRequest { message } => Error::InvalidRequest { message: message.clone() },
            Error::Unauthorized { message } => Error::Unauthorized { message: message.clone() },
            Error::Forbidden { message } => Error::Forbidden { message: message.clone() },
            Error::UnsupportedFormat { format } => Error::UnsupportedFormat { format: format.clone() },
            Error::ExtractionFailed { format, reason } => Error::ExtractionFailed { format: format.clone(), reason: reason.clone() },
            Error::ProviderUnavailable { message } => Error::ProviderUnavailable { message: message.clone() },
            Error::ModelMissing { message } => Error::ModelMissing { message: message.clone() },
            Error::IndexInProgress => Error::IndexInProgress,
            Error::Internal { message, correlation_id } => Error::Internal { message: message.clone(), correlation_id: correlation_id.clone() },
        }
    }

    pub fn invalid_config(message: String) -> (r: Error)
        ensures
            r@ == (ErrorView::InvalidConfig { message: message@ }),
    {
        Error::InvalidConfig { message }
    }

    pub fn invalid_request(message: String) -> (r: Error)
        ensures
            r@ == (ErrorView::InvalidRequest { message: message@ }),
    {
        Error::InvalidRequest { message }
    }

    pub fn unauthorized(message: &str) -> (r: Error)
        ensures
            r@ == (ErrorView::Unauthorized { message: message@ }),
    {
        Error::Unauthorized { message: message.to_owned() }
    }
}

} // verus!
