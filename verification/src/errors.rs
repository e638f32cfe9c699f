//! What can go wrong, as values.

use vstd::prelude::*;

verus! {

/// Asks the process to end with `code` without printing a failure.
#[derive(Debug, PartialEq, Eq)]
pub struct SilentExit {
    pub code: u8,
}

/// The message for a repository that was not forked from another one.
pub const REPO_NO_UPSTREAM: &'static str =
    "this repo is not forked from another repo, so it has no upstream";

/// The failures of the store, of the configuration and of the query resolver.
#[derive(Debug, PartialEq, Eq)]
pub enum Error {
    /// The bytes are not a file of the store: cut short, over the size limit
    /// or not readable as what the header announces.
    CorruptData,
    /// The header names a version other than the supported one.
    UnsupportedVersion(u32),
    /// The store holds a record that the file format cannot hold.
    Unencodable,
    /// The store is empty, so there is no record to default to.
    EmptyStore,
    /// No remote of this name is configured.
    UnknownRemote(String),
    /// The store holds no record of this remote and name.
    UnknownRepo(String, String),
    /// No record lies under the browsed prefix.
    NoCandidates(String),
    /// No matching rule found a record for the query.
    ResolutionFailed(String),
    /// Two remotes of the configuration have this name.
    DuplicateRemote(String),
    /// The variables of this text could not be expanded.
    Expansion(String),
    /// No record is bound to the current directory.
    NotBound,
    /// The user left the selection without choosing.
    SelectionCancelled,
    /// The selection offered nothing that matched what the user typed.
    NoMatch,
    /// The selector reported a failure of its own.
    SelectorFailed,
    /// The selector was ended from outside.
    SelectorTerminated,
    /// The selector ended in a way that is not known.
    SelectorUnknown,
    /// The selector printed a key that it was not given.
    KeyNotFound(String),
    /// The user declined.
    Declined,
    /// A command did not end well.
    CommandFailed,
    /// A failure described by its message alone.
    Message(String),
}

/// The mathematical value of a failure.
pub enum ErrorView {
    CorruptData,
    UnsupportedVersion(u32),
    Unencodable,
    EmptyStore,
    UnknownRemote(Seq<char>),
    UnknownRepo(Seq<char>, Seq<char>),
    NoCandidates(Seq<char>),
    ResolutionFailed(Seq<char>),
    DuplicateRemote(Seq<char>),
    Expansion(Seq<char>),
    NotBound,
    SelectionCancelled,
    NoMatch,
    SelectorFailed,
    SelectorTerminated,
    SelectorUnknown,
    KeyNotFound(Seq<char>),
    Declined,
    CommandFailed,
    Message(Seq<char>),
}

/// The exit code of a failure that ends the process without a message: 130
/// after a selection that was cancelled, 60 after the user declined, 101
/// after a command that did not end well.
pub open spec fn silent_code(e: ErrorView) -> Option<u8> {
    match e {
        ErrorView::SelectionCancelled => Some(130u8),
        ErrorView::Declined => Some(60u8),
        ErrorView::CommandFailed => Some(101u8),
        _ => None,
    }
}

impl View for Error {
    type V = ErrorView;

    open spec fn view(&self) -> ErrorView {
        match self {
            Error::CorruptData => ErrorView::CorruptData,
            Error::UnsupportedVersion(v) => ErrorView::UnsupportedVersion(*v),
            Error::Unencodable => ErrorView::Unencodable,
            Error::EmptyStore => ErrorView::EmptyStore,
            Error::UnknownRemote(n) => ErrorView::UnknownRemote(n@),
            Error::UnknownRepo(r, n) => ErrorView::UnknownRepo(r@, n@),
            Error::NoCandidates(q) => ErrorView::NoCandidates(q@),
            Error::ResolutionFailed(q) => ErrorView::ResolutionFailed(q@),
            Error::DuplicateRemote(n) => ErrorView::DuplicateRemote(n@),
            Error::Expansion(s) => ErrorView::Expansion(s@),
            Error::NotBound => ErrorView::NotBound,
            Error::SelectionCancelled => ErrorView::SelectionCancelled,
            Error::NoMatch => ErrorView::NoMatch,
            Error::SelectorFailed => ErrorView::SelectorFailed,
            Error::SelectorTerminated => ErrorView::SelectorTerminated,
            Error::SelectorUnknown => ErrorView::SelectorUnknown,
            Error::KeyNotFound(k) => ErrorView::KeyNotFound(k@),
            Error::Declined => ErrorView::Declined,
            Error::CommandFailed => ErrorView::CommandFailed,
            Error::Message(m) => ErrorView::Message(m@),
        }
    }
}

/// The value of a text or of the failure in its place.
pub open spec fn text_outcome(r: Result<String, Error>) -> Result<Seq<char>, ErrorView> {
    match r {
        Ok(text) => Ok(text@),
        Err(e) => Err(e@),
    }
}

impl Error {
    /// The request to end the process without a message, for the failures
    /// that are no failures to the user.
    pub fn silent_exit(&self) -> (r: Option<SilentExit>)
        ensures
            match r {
                Some(exit) => silent_code(self@) == Some(exit.code),
                None => silent_code(self@) is None,
            },
    {
        match self {
            Error::SelectionCancelled => Some(SilentExit { code: 130 }),
            Error::Declined => Some(SilentExit { code: 60 }),
            Error::CommandFailed => Some(SilentExit { code: 101 }),
            _ => None,
        }
    }
}

} // verus!
