//! Syntax highlighting over concrete syntax trees: the event stream model, the
//! merge of highlight boundaries across layers, local-variable resolution,
//! injection range computation, highlight-name configuration and HTML rendering.
use vstd::prelude::*;

pub mod captures;
pub mod combined;
pub mod config;
pub mod iter;
pub mod locals;
pub mod merge;
pub mod names;
pub mod query_info;
pub mod ranges;
pub mod render;
pub mod stream;

verus! {

/// Indicates which highlight should be applied to a region of source code.
#[derive(Copy, Clone, Debug, PartialEq, Eq, Structural)]
pub struct Highlight(pub usize);

/// Represents the reason why syntax highlighting failed.
#[derive(Copy, Clone, Debug, PartialEq, Eq, Structural)]
pub enum Error {
    Cancelled,
    InvalidLanguage,
    Unknown,
}

impl Error {
    /// The error's message.
    pub fn message(&self) -> (r: &'static str)
        ensures
            r@ == match self {
                Error::Cancelled => "Cancelled"@,
                Error::InvalidLanguage => "Invalid language"@,
                Error::Unknown => "Unknown error"@,
            },
    {
        match self {
            Error::Cancelled => "Cancelled",
            Error::InvalidLanguage => "Invalid language",
            Error::Unknown => "Unknown error",
        }
    }
}

/// Represents a single step in rendering a syntax-highlighted document.
#[derive(Copy, Clone, Debug, PartialEq, Eq, Structural)]
pub enum HighlightEvent {
    Source { start: usize, end: usize },
    HighlightStart(Highlight),
    HighlightEnd,
}

} // verus!
