//! The errors that the storage backend reports.

use crate::retry::{classify, Retry};
use crate::text::same_text;
use vstd::prelude::*;
use vstd::string::*;

verus! {

/// What went wrong, in the terms of the caller.
#[derive(Clone, Copy, Debug, PartialEq, Eq, Structural)]
pub enum StorageErrorKind {
    /// The object does not exist.
    NotFound,
    /// The address or the byte range asked for is malformed.
    InvalidInput,
    /// The credentials do not allow the operation.
    Unauthorized,
    /// The remote side answered in a shape that the protocol does not allow.
    InternalError,
    /// The operation did not finish in time.
    Timeout,
    /// Reading or writing on this side failed.
    Io,
}

/// An error of the storage backend: its kind and a message for people.
#[derive(Clone, Debug)]
pub struct StorageError {
    kind: StorageErrorKind,
    message: String,
}

/// What a [`StorageError`] holds, as plain values.
pub struct StorageErrorView {
    pub kind: StorageErrorKind,
    pub message: Seq<char>,
}

impl View for StorageError {
    type V = StorageErrorView;

    closed spec fn view(&self) -> StorageErrorView {
        StorageErrorView { kind: self.kind, message: self.message@ }
    }
}

/// The text that stands between a context and the message it is put before.
pub open spec fn context_separator() -> Seq<char> {
    seq![':', ' ']
}

impl StorageErrorKind {
    /// Makes an error of this kind with the given message.
    pub fn with_error(self, message: String) -> (error: StorageError)
        ensures
            error@ == (StorageErrorView { kind: self, message: message@ }),
    {
        StorageError { kind: self, message }
    }
}

impl StorageError {
    /// The kind of the error.
    pub fn kind(&self) -> (kind: StorageErrorKind)
        ensures
            kind == self@.kind,
    {
        self.kind
    }

    /// The message of the error, contexts included.
    pub fn message(&self) -> (message: &str)
        ensures
            message@ == self@.message,
    {
        self.message.as_str()
    }

    /// Says where the error happened: the context is put before the message,
    /// and the kind stays as it is.
    pub fn add_context(self, context: &str) -> (error: StorageError)
        ensures
            error@.kind == self@.kind,
            error@.message == context@ + context_separator() + self@.message,
    {
        let mut message = String::from_str(context);
        proof {
            reveal_strlit(": ");
        }
        message.append(": ");
        assert(": "@ =~= context_separator());
        message.append(self.message.as_str());
        StorageError { kind: self.kind, message }
    }

    /// The error as one line of text: the message, contexts included.
    pub fn to_string(&self) -> (text: String)
        ensures
            text@ == self@.message,
    {
        self.message.clone()
    }
}

/// Why no storage could be made for an address.
#[derive(Clone, Debug)]
pub enum StorageResolverError {
    /// The address does not name a bucket of this kind of storage.
    InvalidUri { message: String },
    /// No client configuration is available in this process.
    S3StorageConfigUnitialised,
}

/// The way in which a remote call failed, as far as the kind of the error and
/// the sense of another attempt depend on it.
#[derive(Debug)]
pub enum RemoteFailure {
    /// The request could not be built from what was given.
    Construction,
    /// No answer came in time.
    Timeout,
    /// The request could not be sent, or the connection broke.
    Dispatch,
    /// An answer came that the protocol does not allow.
    MalformedResponse,
    /// The remote side answered with an error: its status and its error code.
    Service { status: u16, code: Option<String> },
}

/// The error code by which the remote side says that there is no such object.
pub open spec fn no_such_key_code() -> Seq<char> {
    "NoSuchKey"@
}

impl RemoteFailure {
    /// Whether another attempt may succeed: after a network failure or a
    /// timeout, and where the remote side reports that it is overloaded or
    /// failed itself. What the remote side refuses as wrong, and an answer
    /// that cannot be read, stay as they are.
    pub open spec fn spec_is_retryable(self) -> bool {
        match self {
            RemoteFailure::Construction => false,
            RemoteFailure::Timeout => true,
            RemoteFailure::Dispatch => true,
            RemoteFailure::MalformedResponse => false,
            RemoteFailure::Service { status, .. } => status == 429 || status >= 500,
        }
    }

    /// The kind of the error that the failure is reported as.
    pub open spec fn spec_kind(self) -> StorageErrorKind {
        match self {
            RemoteFailure::Construction => StorageErrorKind::InvalidInput,
            RemoteFailure::Timeout => StorageErrorKind::Timeout,
            RemoteFailure::Dispatch => StorageErrorKind::Io,
            RemoteFailure::MalformedResponse => StorageErrorKind::InternalError,
            RemoteFailure::Service { status, code } => if status == 404 || (code matches Some(c)
                && c@ == no_such_key_code()) {
                StorageErrorKind::NotFound
            } else if status == 401 || status == 403 {
                StorageErrorKind::Unauthorized
            } else if 400 <= status < 500 && status != 429 {
                StorageErrorKind::InvalidInput
            } else {
                StorageErrorKind::InternalError
            },
        }
    }

    /// Whether another attempt may succeed.
    pub fn is_retryable(&self) -> (retryable: bool)
        ensures
            retryable == self.spec_is_retryable(),
    {
        match self {
            RemoteFailure::Construction => false,
            RemoteFailure::Timeout => true,
            RemoteFailure::Dispatch => true,
            RemoteFailure::MalformedResponse => false,
            RemoteFailure::Service { status, .. } => *status == 429 || *status >= 500,
        }
    }

    /// The kind of the error that the failure is reported as.
    pub fn kind(&self) -> (kind: StorageErrorKind)
        ensures
            kind == self.spec_kind(),
    {
        match self {
            RemoteFailure::Construction => StorageErrorKind::InvalidInput,
            RemoteFailure::Timeout => StorageErrorKind::Timeout,
            RemoteFailure::Dispatch => StorageErrorKind::Io,
            RemoteFailure::MalformedResponse => StorageErrorKind::InternalError,
            RemoteFailure::Service { status, code } => {
                let absent = *status == 404 || match code {
                    Some(c) => same_text(c.as_str(), "NoSuchKey"),
                    None => false,
                };
                if absent {
                    StorageErrorKind::NotFound
                } else if *status == 401 || *status == 403 {
                    StorageErrorKind::Unauthorized
                } else if 400 <= *status && *status < 500 && *status != 429 {
                    StorageErrorKind::InvalidInput
                } else {
                    StorageErrorKind::InternalError
                }
            },
        }
    }

    /// The error that the failure is reported as, with the given message, and
    /// marked by whether another attempt may succeed.
    pub fn into_error(self, message: String) -> (error: Retry<StorageError>)
        ensures
            error.inner()@ == (StorageErrorView { kind: self.spec_kind(), message: message@ }),
            error is Transient <==> self.spec_is_retryable(),
    {
        let retryable = self.is_retryable();
        classify(self.kind().with_error(message), retryable)
    }
}

} // verus!
