//! The errors of this library.

use vstd::prelude::*;

verus! {

/// The error type of the `parquet` crate.
#[verifier::external_type_specification]
#[verifier::external_body]
pub struct ExParquetError(parquet::errors::ParquetError);

/// The error type of the `arrow` crate.
#[verifier::external_type_specification]
#[verifier::external_body]
pub struct ExArrowError(arrow::error::ArrowError);

/// Why an operation on a Parquet table did not succeed.
#[derive(Debug)]
pub enum Error {
    /// The request is meaningful but not supported.
    NotImplemented(String),
    /// The data that was read cannot be used.
    Execution(String),
    /// The request or a configuration setting is not valid.
    Plan(String),
    /// The `parquet` crate reported an error.
    ParquetError(parquet::errors::ParquetError),
    /// The `arrow` crate reported an error.
    ArrowError(arrow::error::ArrowError),
}

/// What contracts say of an [`Error`]: its kind, and its message or the error that it
/// wraps.
pub enum ErrorView {
    NotImplemented(Seq<char>),
    Execution(Seq<char>),
    Plan(Seq<char>),
    ParquetError(parquet::errors::ParquetError),
    ArrowError(arrow::error::ArrowError),
}

impl View for Error {
    type V = ErrorView;

    open spec fn view(&self) -> ErrorView {
        match self {
            Error::NotImplemented(message) => ErrorView::NotImplemented(message@),
            Error::Execution(message) => ErrorView::Execution(message@),
            Error::Plan(message) => ErrorView::Plan(message@),
            Error::ParquetError(error) => ErrorView::ParquetError(*error),
            Error::ArrowError(error) => ErrorView::ArrowError(*error),
        }
    }
}

/// A result with its error taken by its view.
pub open spec fn outcome<T>(result: Result<T, Error>) -> Result<T, ErrorView> {
    match result {
        Ok(value) => Ok(value),
        Err(error) => Err(error@),
    }
}

} // verus!
