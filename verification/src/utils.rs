//! Application-level error wrapping, input validation, and configuration
//! data.

use vstd::prelude::*;

pub mod config;
pub mod validation;

use crate::api::ApiError;
use crate::data::DataError;
use crate::processing::ProcessingError;
use crate::storage::StorageError;

verus! {

/// The application-wide error type wrapping each module's errors.
#[derive(Debug)]
pub enum AppError {
    Data(DataError),
    Processing(ProcessingError),
    Storage(StorageError),
    Api(ApiError),
    Config(String),
    Other(String),
}

/// The text an application error renders as.
pub open spec fn spec_app_error_message(e: AppError) -> Seq<char> {
    match e {
        AppError::Data(inner) => "Data error: "@ + crate::data::spec_data_error_message(inner),
        AppError::Processing(inner) => "Processing error: "@
            + crate::processing::spec_processing_error_message(inner),
        AppError::Storage(inner) => "Storage error: "@
            + crate::storage::spec_storage_error_message(inner),
        AppError::Api(inner) => "API error: "@ + crate::api::spec_api_error_message(inner),
        AppError::Config(m) => "Configuration error: "@ + m@,
        AppError::Other(m) => "Error: "@ + m@,
    }
}

impl AppError {
    /// The error rendered as text.
    pub fn message(&self) -> (r: String)
        ensures
            r@ == spec_app_error_message(*self),
    {
        match self {
            AppError::Data(inner) => {
                let m = inner.message();
                crate::text::concat2("Data error: ", m.as_str())
            },
            AppError::Processing(inner) => {
                let m = inner.message();
                crate::text::concat2("Processing error: ", m.as_str())
            },
            AppError::Storage(inner) => {
                let m = inner.message();
                crate::text::concat2("Storage error: ", m.as_str())
            },
            AppError::Api(inner) => {
                let m = inner.message();
                crate::text::concat2("API error: ", m.as_str())
            },
            AppError::Config(m) => crate::text::concat2("Configuration error: ", m.as_str()),
            AppError::Other(m) => crate::text::concat2("Error: ", m.as_str()),
        }
    }
}

/// The result type the application's entry points use.
pub type AppResult<T> = Result<T, AppError>;

impl From<DataError> for AppError {
    /// Wrap a data-model error.
    fn from(err: DataError) -> (r: Self) {
        AppError::Data(err)
    }
}

impl vstd::std_specs::convert::FromSpecImpl<DataError> for AppError {
    open spec fn obeys_from_spec() -> bool {
        true
    }

    open spec fn from_spec(err: DataError) -> Self {
        AppError::Data(err)
    }
}

impl From<ProcessingError> for AppError {
    /// Wrap an operator error.
    fn from(err: ProcessingError) -> (r: Self) {
        AppError::Processing(err)
    }
}

impl vstd::std_specs::convert::FromSpecImpl<ProcessingError> for AppError {
    open spec fn obeys_from_spec() -> bool {
        true
    }

    open spec fn from_spec(err: ProcessingError) -> Self {
        AppError::Processing(err)
    }
}

impl From<StorageError> for AppError {
    /// Wrap a storage error.
    fn from(err: StorageError) -> (r: Self) {
        AppError::Storage(err)
    }
}

impl vstd::std_specs::convert::FromSpecImpl<StorageError> for AppError {
    open spec fn obeys_from_spec() -> bool {
        true
    }

    open spec fn from_spec(err: StorageError) -> Self {
        AppError::Storage(err)
    }
}

impl From<ApiError> for AppError {
    /// Wrap a request-handling error.
    fn from(err: ApiError) -> (r: Self) {
        AppError::Api(err)
    }
}

impl vstd::std_specs::convert::FromSpecImpl<ApiError> for AppError {
    open spec fn obeys_from_spec() -> bool {
        true
    }

    open spec fn from_spec(err: ApiError) -> Self {
        AppError::Api(err)
    }
}

} // verus!
