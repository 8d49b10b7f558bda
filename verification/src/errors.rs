//! The error type of the library.

use vstd::prelude::*;
use crate::text::concat;

verus! {

/// `std::io::Error`, carried through unchanged.
#[verifier::external_type_specification]
#[verifier::external_body]
pub struct ExIoError(std::io::Error);

/// What can go wrong while crawling.
#[derive(Debug)]
pub enum SilkwormError {
    Http(String),
    Selector(String),
    Spider(String),
    Pipeline(String),
    Config(String),
    Io(std::io::Error),
}

/// Result of a fallible library operation.
pub type SilkwormResult<T> = Result<T, SilkwormError>;

/// Renders an I/O error as std's `Display` does.
///
/// Calls `<std::io::Error as ToString>::to_string`; nothing is claimed of the text.
#[verifier::external_body]
fn io_error_text(err: &std::io::Error) -> String {
    err.to_string()
}

/// The error a run reports: the first that occurred, so a later one is kept
/// only when there was none before.
pub fn first_error(current: Option<SilkwormError>, later: Option<SilkwormError>) -> (r: Option<SilkwormError>)
    ensures
        r == if current is Some { current } else { later },
{
    match current {
        Some(e) => Some(e),
        None => later,
    }
}

impl SilkwormError {
    /// The category prefix of a message-carrying error, as shown to users.
    pub open spec fn prefix_of(self) -> Seq<char> {
        match self {
            SilkwormError::Http(_) => "http error: "@,
            SilkwormError::Selector(_) => "selector error: "@,
            SilkwormError::Spider(_) => "spider error: "@,
            SilkwormError::Pipeline(_) => "pipeline error: "@,
            SilkwormError::Config(_) => "config error: "@,
            SilkwormError::Io(_) => Seq::empty(),
        }
    }

    /// The human-readable message: the category prefix followed by the detail.
    /// An I/O error shows std's own text.
    pub fn message(&self) -> (r: String)
        ensures
            match self {
                SilkwormError::Http(m) => r@ == "http error: "@ + m@,
                SilkwormError::Selector(m) => r@ == "selector error: "@ + m@,
                SilkwormError::Spider(m) => r@ == "spider error: "@ + m@,
                SilkwormError::Pipeline(m) => r@ == "pipeline error: "@ + m@,
                SilkwormError::Config(m) => r@ == "config error: "@ + m@,
                SilkwormError::Io(_) => true,
            },
    {
        match self {
            SilkwormError::Http(m) => concat("http error: ", m.as_str()),
            SilkwormError::Selector(m) => concat("selector error: ", m.as_str()),
            SilkwormError::Spider(m) => concat("spider error: ", m.as_str()),
            SilkwormError::Pipeline(m) => concat("pipeline error: ", m.as_str()),
            SilkwormError::Config(m) => concat("config error: ", m.as_str()),
            SilkwormError::Io(e) => io_error_text(e),
        }
    }

    /// Whether this is a configuration error.
    pub fn is_config(&self) -> (b: bool)
        ensures
            b == (self is Config),
    {
        match self {
            SilkwormError::Config(_) => true,
            _ => false,
        }
    }
}

} // verus!
