//! The error taxonomy of the crate.
//!
//! Validation errors are raised before any storage or backend work;
//! storage and backend failures carry enough context to be actionable.

use vstd::prelude::*;

verus! {

/// Every failure the library reports, one variant per kind.
#[derive(Debug, Clone)]
pub enum AppError {
    /// A filesystem or I/O failure, with the operation that failed and
    /// the underlying cause.
    StorageError { operation: String, detail: String },
    /// A referenced date partition or entry id is absent.
    NotFoundError { date: String, id: String },
    /// A date range whose start lies after its end.
    InvalidRangeError { start: String, end: String },
    /// A custom summary request without a start or end date.
    MissingDateError,
    /// A valid request over a range that holds no entries at all.
    NoLogsError { start: String, end: String },
    /// The remote backend is missing its endpoint URL or credential.
    ConfigurationError { detail: String },
    /// The backend answered with a non-success HTTP status.
    BackendError { status: u16 },
    /// The backend answered success but not in the expected shape.
    BackendResponseError,
    /// The backend could not be reached at all.
    TransportError { detail: String },
}

impl AppError {
    /// A short tag naming the variant, for display and tests.
    pub fn kind(&self) -> (r: &'static str)
        ensures
            r@ == self.kind_spec(),
    {
        match self {
            AppError::StorageError { .. } => "storage",
            AppError::NotFoundError { .. } => "not-found",
            AppError::InvalidRangeError { .. } => "invalid-range",
            AppError::MissingDateError => "missing-date",
            AppError::NoLogsError { .. } => "no-logs",
            AppError::ConfigurationError { .. } => "configuration",
            AppError::BackendError { .. } => "backend",
            AppError::BackendResponseError => "backend-response",
            AppError::TransportError { .. } => "transport",
        }
    }

    /// A human-readable account of the failure, for display.
    pub fn message(&self) -> (r: String)
        ensures
            r@ == self.message_spec(),
    {
        match self {
            AppError::StorageError { operation, detail } => String::from_str(
                "storage failure during ",
            ).concat(operation.as_str()).concat(": ").concat(detail.as_str()),
            AppError::NotFoundError { date, id } => String::from_str("nothing found for id ")
                .concat(id.as_str()).concat(" on ").concat(date.as_str()),
            AppError::InvalidRangeError { start, end } => String::from_str("start ").concat(
                start.as_str(),
            ).concat(" is after end ").concat(end.as_str()),
            AppError::MissingDateError => String::from_str(
                "a custom summary needs both start and end dates",
            ),
            AppError::NoLogsError { start, end } => String::from_str(
                "no log entries between ",
            ).concat(start.as_str()).concat(" and ").concat(end.as_str()),
            AppError::ConfigurationError { detail } => String::from_str("configuration: ")
                .concat(detail.as_str()),
            AppError::BackendError { status } => String::from_str(
                "backend returned a failing HTTP status ",
            ).concat(crate::text::chars_to_string(&crate::text::dec_digits(*status as u64))
                .as_str()),
            AppError::BackendResponseError => String::from_str(
                "backend response had an unexpected shape",
            ),
            AppError::TransportError { detail } => String::from_str("network failure: ").concat(
                detail.as_str(),
            ),
        }
    }

    /// What [`AppError::message`] renders, per variant.
    pub open spec fn message_spec(&self) -> Seq<char> {
        match self {
            AppError::StorageError { operation, detail } => "storage failure during "@
                + operation@ + ": "@ + detail@,
            AppError::NotFoundError { date, id } => "nothing found for id "@ + id@ + " on "@
                + date@,
            AppError::InvalidRangeError { start, end } => "start "@ + start@ + " is after end "@
                + end@,
            AppError::MissingDateError => "a custom summary needs both start and end dates"@,
            AppError::NoLogsError { start, end } => "no log entries between "@ + start@ + " and "@
                + end@,
            AppError::ConfigurationError { detail } => "configuration: "@ + detail@,
            AppError::BackendError { status } => "backend returned a failing HTTP status "@
                + crate::text::dec_str0(*status as int),
            AppError::BackendResponseError => "backend response had an unexpected shape"@,
            AppError::TransportError { detail } => "network failure: "@ + detail@,
        }
    }

    pub open spec fn kind_spec(&self) -> Seq<char> {
        match self {
            AppError::StorageError { .. } => "storage"@,
            AppError::NotFoundError { .. } => "not-found"@,
            AppError::InvalidRangeError { .. } => "invalid-range"@,
            AppError::MissingDateError => "missing-date"@,
            AppError::NoLogsError { .. } => "no-logs"@,
            AppError::ConfigurationError { .. } => "configuration"@,
            AppError::BackendError { .. } => "backend"@,
            AppError::BackendResponseError => "backend-response"@,
            AppError::TransportError { .. } => "transport"@,
        }
    }
}

} // verus!
