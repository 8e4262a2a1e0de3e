//! What goes wrong: a message a diagnostic can print, and whether trying
//! again could help.

use vstd::prelude::*;

verus! {

/// A failure, as text, and whether trying again could help.
#[derive(Clone, Debug, PartialEq, Eq)]
pub struct Error {
    pub message: String,
    pub retryable: bool,
}

/// An [`Error`] as contracts speak of it.
pub struct ErrorView {
    pub message: Seq<char>,
    pub retryable: bool,
}

impl View for Error {
    type V = ErrorView;

    open spec fn view(&self) -> ErrorView {
        ErrorView { message: self.message@, retryable: self.retryable }
    }
}

/// The permanent failure `message` describes: the peer said what the
/// protocol does not allow, and would say it again.
pub open spec fn refusal(message: Seq<char>) -> ErrorView {
    ErrorView { message, retryable: false }
}

/// The passing failure `message` describes: the connection went away.
pub open spec fn breakage(message: Seq<char>) -> ErrorView {
    ErrorView { message, retryable: true }
}

/// A result with its value and its failure each taken by their views.
pub open spec fn seen<T: View>(result: Result<T, Error>) -> Result<T::V, ErrorView> {
    match result {
        Ok(value) => Ok(value@),
        Err(error) => Err(error@),
    }
}

/// A permanent failure with this message.
pub fn protocol_error(message: String) -> (error: Error)
    ensures
        error@ == refusal(message@),
{
    Error { message, retryable: false }
}

/// A failure of the connection itself, worth trying again.
pub fn broken(message: String) -> (error: Error)
    ensures
        error@ == breakage(message@),
{
    Error { message, retryable: true }
}

} // verus!
