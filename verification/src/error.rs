//! Error model shared by the parsing, processing and encoding modules.

use vstd::prelude::*;

verus! {

/// Errors raised while parsing, validating, transforming or encoding images.
#[derive(Debug, Clone, PartialEq, Eq)]
pub enum HeicError {
    /// The input bytes are truncated or structurally malformed.
    MalformedInput(String),
    /// The container structure is inconsistent or violates the format.
    InvalidContainer(String),
    /// A configured safety limit was exceeded.
    LimitExceeded(String),
    /// The input is not a supported file format.
    UnsupportedFormat(String),
    /// The input uses a feature that is not supported.
    UnsupportedFeature(String),
    /// A caller-supplied argument is invalid.
    InvalidInput(String),
    /// An encoder failed to produce output.
    EncodeError(String),
}

/// Result type used throughout the library.
pub type HeicResult<T> = Result<T, HeicError>;

/// The variant of a [`HeicError`], without its message; contracts state errors by kind.
#[derive(Debug, Clone, Copy, PartialEq, Eq, Structural)]
pub enum ErrorKind {
    /// See [`HeicError::MalformedInput`].
    MalformedInput,
    /// See [`HeicError::InvalidContainer`].
    InvalidContainer,
    /// See [`HeicError::LimitExceeded`].
    LimitExceeded,
    /// See [`HeicError::UnsupportedFormat`].
    UnsupportedFormat,
    /// See [`HeicError::UnsupportedFeature`].
    UnsupportedFeature,
    /// See [`HeicError::InvalidInput`].
    InvalidInput,
    /// See [`HeicError::EncodeError`].
    EncodeError,
}

/// Whether an executable result matches a specified outcome: the same value on success,
/// an error of the specified kind on failure.
pub open spec fn agrees<T>(r: HeicResult<T>, s: Result<T, ErrorKind>) -> bool {
    match r {
        Ok(v) => s == Ok::<T, ErrorKind>(v),
        Err(e) => s == Err::<T, ErrorKind>(e.kind()),
    }
}

/// Whether an executable result matches a specified outcome on its view.
pub open spec fn agrees_view<T: View>(r: HeicResult<T>, s: Result<T::V, ErrorKind>) -> bool {
    match r {
        Ok(v) => s == Ok::<T::V, ErrorKind>(v@),
        Err(e) => s == Err::<T::V, ErrorKind>(e.kind()),
    }
}

impl HeicError {
    /// The variant of this error.
    pub open spec fn kind(self) -> ErrorKind {
        match self {
            HeicError::MalformedInput(_) => ErrorKind::MalformedInput,
            HeicError::InvalidContainer(_) => ErrorKind::InvalidContainer,
            HeicError::LimitExceeded(_) => ErrorKind::LimitExceeded,
            HeicError::UnsupportedFormat(_) => ErrorKind::UnsupportedFormat,
            HeicError::UnsupportedFeature(_) => ErrorKind::UnsupportedFeature,
            HeicError::InvalidInput(_) => ErrorKind::InvalidInput,
            HeicError::EncodeError(_) => ErrorKind::EncodeError,
        }
    }

    /// Builds a [`HeicError::MalformedInput`] error.
    pub fn malformed(msg: &str) -> (e: Self)
        ensures
            e matches HeicError::MalformedInput(m) && m@ == msg@,
    {
        HeicError::MalformedInput(msg.to_owned())
    }

    /// Builds a [`HeicError::InvalidContainer`] error.
    pub fn invalid_container(msg: &str) -> (e: Self)
        ensures
            e matches HeicError::InvalidContainer(m) && m@ == msg@,
    {
        HeicError::InvalidContainer(msg.to_owned())
    }

    /// Builds a [`HeicError::LimitExceeded`] error.
    pub fn limit_exceeded(msg: &str) -> (e: Self)
        ensures
            e matches HeicError::LimitExceeded(m) && m@ == msg@,
    {
        HeicError::LimitExceeded(msg.to_owned())
    }

    /// Builds a [`HeicError::UnsupportedFormat`] error.
    pub fn unsupported_format(msg: &str) -> (e: Self)
        ensures
            e matches HeicError::UnsupportedFormat(m) && m@ == msg@,
    {
        HeicError::UnsupportedFormat(msg.to_owned())
    }

    /// Builds a [`HeicError::UnsupportedFeature`] error.
    pub fn unsupported_feature(msg: &str) -> (e: Self)
        ensures
            e matches HeicError::UnsupportedFeature(m) && m@ == msg@,
    {
        HeicError::UnsupportedFeature(msg.to_owned())
    }

    /// Builds a [`HeicError::InvalidInput`] error.
    pub fn invalid_input(msg: &str) -> (e: Self)
        ensures
            e matches HeicError::InvalidInput(m) && m@ == msg@,
    {
        HeicError::InvalidInput(msg.to_owned())
    }
}

} // verus!
