//! What can go wrong while a request is resolved.

use vstd::prelude::*;
use vstd::string::StringExecFns;

verus! {

/// A failure of resolving a request.
#[derive(Debug, PartialEq, Eq)]
pub enum Error {
    /// A response query without a path; holds the query as it was written.
    MalformedQuery(String),
    /// A path that selects nothing from its response; holds the path.
    QueryNotFound(String),
    /// A path that is not accepted as a path expression; holds the path.
    InvalidPath(String),
    /// A path that this library does not evaluate: one with a slice step of
    /// zero or with a filter that is not plain; holds the path.
    UnsupportedPath(String),
    /// A response that the store does not hold; holds its name.
    NotLoaded(String),
    /// A response whose stored text is not JSON; holds its name.
    InvalidResponse(String),
    /// A method that is no HTTP method; holds the method.
    InvalidMethod(String),
    /// A scheme, host, path and query that make no URI; holds their text.
    InvalidUri(String),
    /// A header whose name or value cannot be sent; holds the name.
    InvalidHeader(String),
    /// The pattern that finds response queries was not accepted.
    InvalidPattern,
}

/// An `Error` with its texts as sequences of characters.
pub enum ErrorView {
    MalformedQuery(Seq<char>),
    QueryNotFound(Seq<char>),
    InvalidPath(Seq<char>),
    UnsupportedPath(Seq<char>),
    NotLoaded(Seq<char>),
    InvalidResponse(Seq<char>),
    InvalidMethod(Seq<char>),
    InvalidUri(Seq<char>),
    InvalidHeader(Seq<char>),
    InvalidPattern,
}

impl View for Error {
    type V = ErrorView;

    open spec fn view(&self) -> ErrorView {
        match self {
            Error::MalformedQuery(s) => ErrorView::MalformedQuery(s@),
            Error::QueryNotFound(s) => ErrorView::QueryNotFound(s@),
            Error::InvalidPath(s) => ErrorView::InvalidPath(s@),
            Error::UnsupportedPath(s) => ErrorView::UnsupportedPath(s@),
            Error::NotLoaded(s) => ErrorView::NotLoaded(s@),
            Error::InvalidResponse(s) => ErrorView::InvalidResponse(s@),
            Error::InvalidMethod(s) => ErrorView::InvalidMethod(s@),
            Error::InvalidUri(s) => ErrorView::InvalidUri(s@),
            Error::InvalidHeader(s) => ErrorView::InvalidHeader(s@),
            Error::InvalidPattern => ErrorView::InvalidPattern,
        }
    }
}

/// An outcome with its value and its error taken by their views.
pub open spec fn outcome<T: View>(out: Result<T, Error>) -> Result<T::V, ErrorView> {
    match out {
        Ok(value) => Ok(value@),
        Err(e) => Err(e@),
    }
}

/// The text that describes an error.
pub open spec fn message_of(e: ErrorView) -> Seq<char> {
    match e {
        ErrorView::MalformedQuery(s) => "invalid response query: "@ + s,
        ErrorView::QueryNotFound(s) => "json path not found: "@ + s,
        ErrorView::InvalidPath(s) => "invalid json path: "@ + s,
        ErrorView::UnsupportedPath(s) => "unsupported json path: "@ + s,
        ErrorView::NotLoaded(s) => "response not loaded: "@ + s,
        ErrorView::InvalidResponse(s) => "invalid response: "@ + s,
        ErrorView::InvalidMethod(s) => "invalid HTTP method: "@ + s,
        ErrorView::InvalidUri(s) => "invalid uri: "@ + s,
        ErrorView::InvalidHeader(s) => "invalid header: "@ + s,
        ErrorView::InvalidPattern => "invalid response query pattern"@,
    }
}

impl Error {
    /// The text that describes this error.
    pub fn message(&self) -> (out: String)
        ensures
            out@ == message_of(self@),
    {
        match self {
            Error::MalformedQuery(s) => String::from_str("invalid response query: ").concat(
                s.as_str(),
            ),
            Error::QueryNotFound(s) => String::from_str("json path not found: ").concat(
                s.as_str(),
            ),
            Error::InvalidPath(s) => String::from_str("invalid json path: ").concat(s.as_str()),
            Error::UnsupportedPath(s) => String::from_str("unsupported json path: ").concat(
                s.as_str(),
            ),
            Error::NotLoaded(s) => String::from_str("response not loaded: ").concat(s.as_str()),
            Error::InvalidResponse(s) => String::from_str("invalid response: ").concat(
                s.as_str(),
            ),
            Error::InvalidMethod(s) => String::from_str("invalid HTTP method: ").concat(
                s.as_str(),
            ),
            Error::InvalidUri(s) => String::from_str("invalid uri: ").concat(s.as_str()),
            Error::InvalidHeader(s) => String::from_str("invalid header: ").concat(s.as_str()),
            Error::InvalidPattern => String::from_str("invalid response query pattern"),
        }
    }
}

} // verus!
