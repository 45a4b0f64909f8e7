//! Errors of reading and converting fetched data.
use vstd::prelude::*;
use vstd::std_specs::convert::FromSpecImpl;

verus! {

/// A line of a data file that is not a spam label in json.
#[derive(Debug, Clone, PartialEq)]
pub struct InvalidJsonlError {
    /// The path of the file.
    pub path: String,
}

/// Error of reading spam label data from a file.
#[derive(Debug, Clone, PartialEq)]
pub enum DataReadError {
    /// A line of the file is not a spam label in json.
    InvalidJsonlError(InvalidJsonlError),
    /// The file cannot be read at that path.
    InvalidDataPathError { path: String },
}

impl From<InvalidJsonlError> for DataReadError {
    fn from(value: InvalidJsonlError) -> (r: Self)
        ensures
            r == DataReadError::InvalidJsonlError(value),
    {
        DataReadError::InvalidJsonlError(value)
    }
}

impl FromSpecImpl<InvalidJsonlError> for DataReadError {
    open spec fn obeys_from_spec() -> bool {
        true
    }

    open spec fn from_spec(v: InvalidJsonlError) -> DataReadError {
        DataReadError::InvalidJsonlError(v)
    }
}

/// Error of retrieving spam updates.
#[derive(Debug, Clone, Copy, PartialEq, Eq, Structural)]
pub enum RetrieveError {
    /// Some data was read but cannot be turned into spam updates.
    InvalidFetchedData,
    /// No data could be read.
    CouldNotFetchData,
}

/// Error of a conversion of fetched data, such as a url that cannot be built.
#[derive(Debug, Clone, Copy, PartialEq, Eq, Structural)]
pub enum ConversionError {
    ConversionError,
}

/// Error of importing data from an outside source, for what the library decides of the data.
#[derive(Debug, Clone, PartialEq)]
pub enum ImporterError {
    InvalidDirectory,
    InvalidEndpoint,
    StatusChecker,
    /// The response is not what the api answers; holds the response.
    BadApiResponse(String),
    FailedApiRequest,
}

} // verus!
