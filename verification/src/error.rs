//! What can go wrong.

use vstd::prelude::*;

verus! {

/// The ways in which an operation on saved commands fails.
#[derive(Debug, PartialEq, Eq)]
pub enum CommandArgusError {
    /// No command has this identifier.
    NotFound(u128),
    /// A command of this name is stored already.
    DuplicateName(String),
    /// The command is not one that can be kept; the text says why.
    InvalidCommand(String),
    /// Reading or writing failed; the text is the cause.
    Io(String),
    /// Stored content could not be read or written as records; the text is
    /// the cause.
    Serialization(String),
    /// The store could not do what was asked; the text says what.
    Storage(String),
    /// The process could not be started; the text is the cause.
    ExecutionFailed(String),
    /// The directory to run in does not exist; the text is its path.
    InvalidPath(String),
}

/// What a `CommandArgusError` holds.
pub enum ErrorView {
    NotFound(u128),
    DuplicateName(Seq<char>),
    InvalidCommand(Seq<char>),
    Io(Seq<char>),
    Serialization(Seq<char>),
    Storage(Seq<char>),
    ExecutionFailed(Seq<char>),
    InvalidPath(Seq<char>),
}

impl DeepView for CommandArgusError {
    type V = ErrorView;

    open spec fn deep_view(&self) -> ErrorView {
        match self {
            CommandArgusError::NotFound(id) => ErrorView::NotFound(*id),
            CommandArgusError::DuplicateName(name) => ErrorView::DuplicateName(name@),
            CommandArgusError::InvalidCommand(reason) => ErrorView::InvalidCommand(reason@),
            CommandArgusError::Io(cause) => ErrorView::Io(cause@),
            CommandArgusError::Serialization(cause) => ErrorView::Serialization(cause@),
            CommandArgusError::Storage(message) => ErrorView::Storage(message@),
            CommandArgusError::ExecutionFailed(cause) => ErrorView::ExecutionFailed(cause@),
            CommandArgusError::InvalidPath(path) => ErrorView::InvalidPath(path@),
        }
    }
}

impl View for CommandArgusError {
    type V = ErrorView;

    open spec fn view(&self) -> ErrorView {
        self.deep_view()
    }
}

} // verus!
