//! What can go wrong.

use vstd::prelude::*;

verus! {

/// Why a run cannot go on.
#[derive(Debug, PartialEq, Eq)]
pub enum IaGetError {
    /// The exchange with archive.org cannot start or cannot be used.
    Network(String),
    /// A text is no URL.
    Url(String),
}

/// An [`IaGetError`] with its message as a sequence of characters.
pub enum ErrorView {
    Network(Seq<char>),
    Url(Seq<char>),
}

impl ErrorView {
    /// The message.
    pub open spec fn message(self) -> Seq<char> {
        match self {
            ErrorView::Network(message) => message,
            ErrorView::Url(message) => message,
        }
    }
}

impl View for IaGetError {
    type V = ErrorView;

    open spec fn view(&self) -> ErrorView {
        match self {
            IaGetError::Network(message) => ErrorView::Network(message@),
            IaGetError::Url(message) => ErrorView::Url(message@),
        }
    }
}

impl Clone for IaGetError {
    fn clone(&self) -> (same: IaGetError)
        ensures
            same@ == self@,
            match (*self, same) {
                (IaGetError::Network(message), IaGetError::Network(copy)) => copy@ == message@,
                (IaGetError::Url(message), IaGetError::Url(copy)) => copy@ == message@,
                _ => false,
            },
    {
        match self {
            IaGetError::Network(message) => IaGetError::Network(message.clone()),
            IaGetError::Url(message) => IaGetError::Url(message.clone()),
        }
    }
}

impl IaGetError {
    /// The message of the error.
    pub fn to_string(&self) -> (message: String)
        ensures
            message@ == self@.message(),
            match *self {
                IaGetError::Network(text) => message@ == text@,
                IaGetError::Url(text) => message@ == text@,
            },
    {
        match self {
            IaGetError::Network(message) => message.clone(),
            IaGetError::Url(message) => message.clone(),
        }
    }
}

/// What contracts see of an error is its sort and its message.
pub proof fn law_error_views_hold_the_message(message: String)
    ensures
        IaGetError::Network(message)@ == ErrorView::Network(message@),
        IaGetError::Url(message)@ == ErrorView::Url(message@),
        IaGetError::Network(message)@.message() == message@,
        IaGetError::Url(message)@.message() == message@,
{
}

} // verus!
