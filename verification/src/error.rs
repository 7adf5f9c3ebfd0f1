//! Errors of the library.

use vstd::prelude::*;

verus! {

/// What went wrong, with a message.
#[derive(Debug, PartialEq, Eq)]
pub enum GmapError {
    /// A date or a range of dates that makes no sense.
    InvalidDate(String),
    /// A text that could not be understood.
    Parse(String),
    /// An object that could not be read, and the commit that refers to it.
    Other(String),
    /// A failure of the repository itself, in its own words.
    Git(String),
}

/// The contents of a `GmapError`.
#[verifier::ext_equal]
pub ghost enum ErrorView {
    InvalidDate(Seq<char>),
    Parse(Seq<char>),
    Other(Seq<char>),
    Git(Seq<char>),
}

impl View for GmapError {
    type V = ErrorView;

    open spec fn view(&self) -> ErrorView {
        match self {
            GmapError::InvalidDate(s) => ErrorView::InvalidDate(s@),
            GmapError::Parse(s) => ErrorView::Parse(s@),
            GmapError::Other(s) => ErrorView::Other(s@),
            GmapError::Git(s) => ErrorView::Git(s@),
        }
    }
}

/// A result with the contents of its error.
pub open spec fn outcome<T>(r: Result<T, GmapError>) -> Result<T, ErrorView> {
    match r {
        Ok(t) => Ok(t),
        Err(e) => Err(e@),
    }
}

/// The contents of a result.
pub open spec fn outcome_view<T: View>(r: Result<T, GmapError>) -> Result<T::V, ErrorView> {
    match r {
        Ok(t) => Ok(t@),
        Err(e) => Err(e@),
    }
}

} // verus!
