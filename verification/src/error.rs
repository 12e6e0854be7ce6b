//! The errors of the request parser and of header lookup.

use vstd::prelude::*;
use vstd::string::*;

verus! {

/// Why a request could not be parsed.
#[derive(Debug, Clone, Copy, PartialEq, Eq, Structural)]
pub enum RequestError {
    Method,
    HeaderName,
    HeaderValue,
    HeaderContentLength,
    IncompleteBody,
    Status,
    Version,
    NewLine,
    Space,
    Token,
    URI,
    TooManyHeaders,
}

impl RequestError {
    /// The message of this error.
    pub open spec fn message(self) -> Seq<char> {
        match self {
            RequestError::Method => "invalid method"@,
            RequestError::HeaderName => "invalid header name"@,
            RequestError::HeaderValue => "invalid header value"@,
            RequestError::HeaderContentLength => "invalid header body length"@,
            RequestError::IncompleteBody => "incomplete body"@,
            RequestError::Status => "invalid status"@,
            RequestError::Version => "invalid version"@,
            RequestError::NewLine => "expected newline"@,
            RequestError::Space => "expected space"@,
            RequestError::Token => "invalid token"@,
            RequestError::URI => "invalid uri"@,
            RequestError::TooManyHeaders => "too many headers"@,
        }
    }

    /// The message of this error, as text.
    pub fn to_string(&self) -> (s: String)
        ensures
            s@ == self.message(),
    {
        match self {
            RequestError::Method => String::from_str("invalid method"),
            RequestError::HeaderName => String::from_str("invalid header name"),
            RequestError::HeaderValue => String::from_str("invalid header value"),
            RequestError::HeaderContentLength => String::from_str("invalid header body length"),
            RequestError::IncompleteBody => String::from_str("incomplete body"),
            RequestError::Status => String::from_str("invalid status"),
            RequestError::Version => String::from_str("invalid version"),
            RequestError::NewLine => String::from_str("expected newline"),
            RequestError::Space => String::from_str("expected space"),
            RequestError::Token => String::from_str("invalid token"),
            RequestError::URI => String::from_str("invalid uri"),
            RequestError::TooManyHeaders => String::from_str("too many headers"),
        }
    }
}

/// Why a header could not be read.
#[derive(Debug, Clone, Copy, PartialEq, Eq, Structural)]
pub enum HeaderError {
    NotFound,
    InvalidString,
}

impl HeaderError {
    /// The message of this error.
    pub open spec fn message(self) -> Seq<char> {
        match self {
            HeaderError::NotFound => "header not found"@,
            HeaderError::InvalidString => "header value is not a valid string"@,
        }
    }

    /// The message of this error, as text.
    pub fn to_string(&self) -> (s: String)
        ensures
            s@ == self.message(),
    {
        match self {
            HeaderError::NotFound => String::from_str("header not found"),
            HeaderError::InvalidString => String::from_str("header value is not a valid string"),
        }
    }
}

} // verus!
