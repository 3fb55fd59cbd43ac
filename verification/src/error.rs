//! The failure of an operation.

use vstd::prelude::*;
use vstd::string::*;

use crate::text;

verus! {

/// A failure that is common to every SQL provider while it resolves a table's schema.
#[derive(Debug)]
pub enum SqlError {
    /// A column type that the dialect's mapping does not know. An unknown type fails
    /// rather than becoming text.
    UnsupportedColumnType(String),
    /// The requested table does not exist.
    TableNotFound(String),
}

/// Why an operation failed.
#[derive(Debug)]
pub enum Failure {
    /// A failure that a caller may want to tell apart.
    Sql(SqlError),
    /// Any other failure, as its message.
    Message(String),
    /// What was being done, and why it failed.
    Within(String, String),
}

/// The model of a [`Failure`].
pub enum FailureView {
    UnsupportedColumnType(Seq<char>),
    TableNotFound(Seq<char>),
    Message(Seq<char>),
    Within(Seq<char>, Seq<char>),
}

impl View for SqlError {
    type V = FailureView;

    open spec fn view(&self) -> FailureView {
        match self {
            SqlError::UnsupportedColumnType(name) => FailureView::UnsupportedColumnType(name@),
            SqlError::TableNotFound(table) => FailureView::TableNotFound(table@),
        }
    }
}

impl View for Failure {
    type V = FailureView;

    open spec fn view(&self) -> FailureView {
        match self {
            Failure::Sql(error) => error@,
            Failure::Message(message) => FailureView::Message(message@),
            Failure::Within(context, cause) => FailureView::Within(context@, cause@),
        }
    }
}

impl FailureView {
    /// What the failure says, with its cause.
    pub open spec fn text(self) -> Seq<char> {
        match self {
            FailureView::UnsupportedColumnType(name) => "unsupported SQL column type: `"@ + name
                + "`"@,
            FailureView::TableNotFound(table) => "table `"@ + table + "` not found"@,
            FailureView::Message(message) => message,
            FailureView::Within(context, cause) => context + ": "@ + cause,
        }
    }

    /// What the failure says, without its cause.
    pub open spec fn brief(self) -> Seq<char> {
        match self {
            FailureView::Within(context, _) => context,
            other => other.text(),
        }
    }
}

/// Whether `r` is `expected`: the same value, or a failure with that message.
pub open spec fn gives<T: View>(r: Result<T, Failure>, expected: Result<T::V, Seq<char>>) -> bool {
    match r {
        Ok(value) => expected is Ok && value@ == expected->Ok_0,
        Err(failure) => expected is Err && failure@ == FailureView::Message(expected->Err_0),
    }
}

/// Whether `r` is `expected`, for results that are their own model.
pub open spec fn gives_plain<T>(r: Result<T, Failure>, expected: Result<T, Seq<char>>) -> bool {
    match r {
        Ok(value) => expected is Ok && value == expected->Ok_0,
        Err(failure) => expected is Err && failure@ == FailureView::Message(expected->Err_0),
    }
}

impl SqlError {
    /// What the failure says.
    pub fn text(&self) -> (r: String)
        ensures
            r@ == self@.text(),
    {
        match self {
            SqlError::UnsupportedColumnType(name) => text::cat3(
                "unsupported SQL column type: `",
                name.as_str(),
                "`",
            ),
            SqlError::TableNotFound(table) => text::cat3("table `", table.as_str(), "` not found"),
        }
    }
}

impl Failure {
    /// A failure with the given message.
    pub fn message(message: String) -> (r: Failure)
        ensures
            r@ == FailureView::Message(message@),
    {
        Failure::Message(message)
    }

    /// What the failure says, with its cause.
    pub fn text(&self) -> (r: String)
        ensures
            r@ == self@.text(),
    {
        match self {
            Failure::Sql(error) => error.text(),
            Failure::Message(message) => message.clone(),
            Failure::Within(context, cause) => text::cat3(context.as_str(), ": ", cause.as_str()),
        }
    }

    /// What the failure says, without its cause.
    pub fn brief(&self) -> (r: String)
        ensures
            r@ == self@.brief(),
    {
        match self {
            Failure::Within(context, _) => context.clone(),
            other => other.text(),
        }
    }
}


/// A failure names what it is about, and tells its cause behind it; in brief it leaves the cause
/// out, and is else the same.
pub proof fn failures_name_what_they_are_about(name: Seq<char>, cause: Seq<char>)
    ensures
        FailureView::UnsupportedColumnType(name).text() == "unsupported SQL column type: `"@ + name
            + "`"@,
        FailureView::TableNotFound(name).text() == "table `"@ + name + "` not found"@,
        FailureView::Message(name).text() == name,
        FailureView::Within(name, cause).text() == name + ": "@ + cause,
        FailureView::Within(name, cause).brief() == name,
        FailureView::UnsupportedColumnType(name).brief() == FailureView::UnsupportedColumnType(
            name,
        ).text(),
        FailureView::TableNotFound(name).brief() == FailureView::TableNotFound(name).text(),
        FailureView::Message(name).brief() == name,
{
}

} // verus!
