//! What can go wrong with a bookmark index, and what is done about it.

use std::path::PathBuf;

use tantivy::query::QueryParserError;
use tantivy::TantivyError;
use vstd::prelude::*;

verus! {

/// A schema lacks a field.
#[derive(Debug)]
pub struct IndexSchemaError {
    pub source: TantivyError,
}

/// A document cannot be written.
#[derive(Debug)]
pub enum IndexWriteError {
    /// The texts of the document are longer, together, than a document can hold.
    TextTooLong,
}

/// A directory cannot be opened.
#[derive(Debug)]
pub enum OpenDirectoryError {
    /// There is no such directory.
    DoesNotExist(PathBuf),
    /// A temporary directory was not created, for the given reason.
    FailedToCreateTempDir(String),
    /// This is something else.
    NotADirectory(PathBuf),
    /// The directory was not read or created, for the given reason.
    IoError { io_error: String, directory_path: PathBuf },
}

/// Any failure of a bookmark index.
#[derive(Debug)]
pub enum IndexError {
    TantivyError(TantivyError),
    IndexSchemaError(IndexSchemaError),
    IndexWriteError(IndexWriteError),
    OpenDirectoryError(OpenDirectoryError),
    QueryParserError(QueryParserError),
    /// A query is nested more deeply than can be read.
    QueryTooDeep,
    IO(String),
    CannotIndexRedactedMessage,
    EmptyMessage,
    MessageTypeNotSupported,
    /// A stored document holds no valid ids.
    IdParsing,
}

/// What is done about a failed operation.
#[derive(Debug, Clone, Copy, PartialEq, Eq, Structural)]
pub enum FailurePolicy {
    /// Try the operation again.
    Retry,
    /// Report the failure.
    Bubble,
    /// Go on as if the operation had succeeded.
    Ignore,
}

/// What is done about an operation that failed in the given way.
pub open spec fn failure_policy(error: IndexError) -> FailurePolicy {
    match error {
        IndexError::TantivyError(_)
        | IndexError::IndexSchemaError(_)
        | IndexError::IndexWriteError(_)
        | IndexError::IO(_)
        | IndexError::OpenDirectoryError(OpenDirectoryError::IoError { .. }) => FailurePolicy::Retry,
        IndexError::OpenDirectoryError(_)
        | IndexError::QueryParserError(_)
        | IndexError::QueryTooDeep
        | IndexError::IdParsing => FailurePolicy::Bubble,
        IndexError::CannotIndexRedactedMessage
        | IndexError::EmptyMessage
        | IndexError::MessageTypeNotSupported => FailurePolicy::Ignore,
    }
}

impl IndexError {
    /// What is done about an operation that failed in this way.
    pub fn policy(&self) -> (policy: FailurePolicy)
        ensures
            policy == failure_policy(*self),
    {
        match self {
            IndexError::TantivyError(_)
            | IndexError::IndexSchemaError(_)
            | IndexError::IndexWriteError(_)
            | IndexError::IO(_) => FailurePolicy::Retry,
            IndexError::OpenDirectoryError(error) => match error {
                OpenDirectoryError::IoError { .. } => FailurePolicy::Retry,
                OpenDirectoryError::DoesNotExist(_)
                | OpenDirectoryError::FailedToCreateTempDir(_)
                | OpenDirectoryError::NotADirectory(_) => FailurePolicy::Bubble,
            },
            IndexError::QueryParserError(_)
            | IndexError::QueryTooDeep
            | IndexError::IdParsing => FailurePolicy::Bubble,
            IndexError::CannotIndexRedactedMessage
            | IndexError::EmptyMessage
            | IndexError::MessageTypeNotSupported => FailurePolicy::Ignore,
        }
    }
}

} // verus!
