//! The errors of the control API.

use vstd::prelude::*;
use vstd::string::*;

use crate::error::Failure;
use crate::text;

verus! {

/// What went wrong.
#[derive(Debug, Clone, Copy, PartialEq, Eq, Structural)]
pub enum Kind {
    NotFound,
    Invalid,
    Internal,
}

/// An error of the API: what went wrong, and what to tell of it.
#[derive(Debug)]
pub struct Error {
    pub kind: Kind,
    pub message: String,
}

/// The model of an [`Error`].
pub struct ErrorView {
    pub kind: Kind,
    pub message: Seq<char>,
}

impl View for Error {
    type V = ErrorView;

    open spec fn view(&self) -> ErrorView {
        ErrorView { kind: self.kind, message: self.message@ }
    }
}

impl Clone for Error {
    fn clone(&self) -> (r: Self)
        ensures
            r@ == self@,
    {
        Error { kind: self.kind, message: self.message.clone() }
    }
}

/// The HTTP status of a kind of error.
pub open spec fn status_of(kind: Kind) -> u16 {
    match kind {
        Kind::NotFound => 404,
        Kind::Invalid => 400,
        Kind::Internal => 500,
    }
}

/// The words by which a failure is told to be about a mount that is not there.
pub const ABSENT: &'static str = "nothing mounted at";

/// The error that a failure is answered with: not found where the failure is about a mount
/// that is not there, else internal.
pub open spec fn answered(message: Seq<char>) -> ErrorView {
    ErrorView {
        kind: if text::occurs(ABSENT@, message) {
            Kind::NotFound
        } else {
            Kind::Internal
        },
        message,
    }
}

impl Error {
    /// Something is not there.
    pub fn not_found(message: String) -> (r: Error)
        ensures
            r@ == (ErrorView { kind: Kind::NotFound, message: message@ }),
    {
        Error { kind: Kind::NotFound, message }
    }

    /// The request makes no sense.
    pub fn invalid(message: String) -> (r: Error)
        ensures
            r@ == (ErrorView { kind: Kind::Invalid, message: message@ }),
    {
        Error { kind: Kind::Invalid, message }
    }

    /// Something failed.
    pub fn internal(message: String) -> (r: Error)
        ensures
            r@ == (ErrorView { kind: Kind::Internal, message: message@ }),
    {
        Error { kind: Kind::Internal, message }
    }

    /// The HTTP status of the error.
    pub fn status(&self) -> (r: u16)
        ensures
            r == status_of(self.kind),
    {
        match self.kind {
            Kind::NotFound => 404,
            Kind::Invalid => 400,
            Kind::Internal => 500,
        }
    }

    /// What the error says.
    pub fn text(&self) -> (r: String)
        ensures
            r@ == self@.message,
    {
        self.message.clone()
    }

    /// The error that a failure is answered with.
    pub fn of(failure: &Failure) -> (r: Error)
        ensures
            r@ == answered(failure@.text()),
    {
        let message = failure.text();
        if text::contains(message.as_str(), ABSENT) {
            Error::not_found(message)
        } else {
            Error::internal(message)
        }
    }
}

/// A failure that names a mount which is not there is answered as not found, whatever the
/// mount and whatever is mounted.
pub proof fn absent_mounts_are_not_found(mount: Seq<char>, names: Seq<Seq<char>>)
    ensures
        answered(crate::registry::nothing_mounted(mount, names)).kind == Kind::NotFound,
        status_of(answered(crate::registry::nothing_mounted(mount, names)).kind) == 404,
{
    let message = crate::registry::nothing_mounted(mount, names);
    reveal_strlit("nothing mounted at `");
    reveal_strlit("nothing mounted at");
    assert(message.subrange(0, 0int + ABSENT@.len()) =~= ABSENT@);
}


/// An error is answered as not found just where its message has the words that tell of a mount
/// that is not there; else it is internal. The message is told as it is.
pub proof fn failures_are_told_as_they_are(message: Seq<char>)
    ensures
        answered(message).message == message,
        answered(message).kind == Kind::NotFound <==> text::occurs("nothing mounted at"@, message),
        answered(message).kind == Kind::NotFound || answered(message).kind == Kind::Internal,
{
}

/// What is not there, what makes no sense and what failed have the statuses of HTTP.
pub proof fn kinds_have_their_status(kind: Kind)
    ensures
        status_of(kind) == 404 <==> kind == Kind::NotFound,
        status_of(kind) == 400 <==> kind == Kind::Invalid,
        status_of(kind) == 500 <==> kind == Kind::Internal,
{
}

} // verus!
