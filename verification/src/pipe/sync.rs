//! How a walk over a list endpoint advances, chunk by chunk.
//!
//! The driver pulls one live stream, writes each chunk, persists where to resume, and asks
//! [`advance`] after each chunk whether to keep pulling. The two strategies differ only in
//! how they read the tail: the cursor of an offset walk ends, while that of a next-link
//! walk never does, and its tail is a page without rows.

use vstd::prelude::*;
use vstd::string::*;

use crate::page::{Cursor, ListStrategy};

verus! {

/// What the walk reads of a page: how many rows it brought, and the cursor behind it.
#[derive(Debug)]
pub struct BatchPage {
    pub rows: usize,
    pub cursor: Option<Cursor>,
}

/// What the driver should do behind a chunk.
#[derive(Debug)]
pub enum Progress {
    /// There is more to pull right now. The token is where to resume after a crash, and is
    /// persisted before the next chunk is pulled.
    Continue(String),
    /// Caught up for now: stop pulling, and poll again later. The token is where the next
    /// run begins; without one it starts over.
    CaughtUp(Option<String>),
}

/// The model of a [`Progress`].
pub enum ProgressView {
    Continue(Seq<char>),
    CaughtUp(Option<Seq<char>>),
}

impl View for Progress {
    type V = ProgressView;

    open spec fn view(&self) -> ProgressView {
        match self {
            Progress::Continue(token) => ProgressView::Continue(token@),
            Progress::CaughtUp(resume) => ProgressView::CaughtUp(resume.deep_view()),
        }
    }
}

impl ProgressView {
    /// Where a run resumes.
    pub open spec fn resume(self) -> Option<Seq<char>> {
        match self {
            ProgressView::Continue(token) => Some(token),
            ProgressView::CaughtUp(resume) => resume,
        }
    }
}

/// The token behind a page.
pub open spec fn next_token(page: BatchPage) -> Option<Seq<char>> {
    match page.cursor {
        Some(cursor) => cursor@.next,
        None => None,
    }
}

/// How the walk advances behind a page of `rows` rows with the token `next`.
pub open spec fn advanced(
    strategy: ListStrategy,
    rows: nat,
    next: Option<Seq<char>>,
) -> ProgressView {
    match strategy {
        ListStrategy::Offset => match next {
            Some(token) => ProgressView::Continue(token),
            None => ProgressView::CaughtUp(None),
        },
        ListStrategy::NextLink => if rows == 0 {
            ProgressView::CaughtUp(next)
        } else {
            match next {
                Some(token) => ProgressView::Continue(token),
                None => ProgressView::CaughtUp(None),
            }
        },
    }
}

/// Decides how the walk advances behind `chunk`. An offset walk follows the cursor until it
/// ends; a next-link walk stops at a page without rows, and resumes from there.
pub fn advance(strategy: ListStrategy, chunk: &BatchPage) -> (r: Progress)
    ensures
        r@ == advanced(strategy, chunk.rows as nat, next_token(*chunk)),
{
    let next = match &chunk.cursor {
        Some(cursor) => match &cursor.next {
            Some(token) => Some(token.clone()),
            None => None,
        },
        None => None,
    };
    match strategy {
        ListStrategy::Offset => match next {
            Some(token) => Progress::Continue(token),
            None => Progress::CaughtUp(None),
        },
        ListStrategy::NextLink => if chunk.rows == 0 {
            Progress::CaughtUp(next)
        } else {
            match next {
                Some(token) => Progress::Continue(token),
                None => Progress::CaughtUp(None),
            }
        },
    }
}

/// A walk goes on exactly where there is a token to go on with, save that a next-link walk
/// stops at a page without rows; and whatever it decides, it resumes at the token of the
/// page.
pub proof fn walk_resumes_at_the_token(
    strategy: ListStrategy,
    rows: nat,
    next: Option<Seq<char>>,
)
    ensures
        advanced(strategy, rows, next) is Continue <==> next is Some && (strategy
            == ListStrategy::NextLink ==> rows > 0),
        advanced(strategy, rows, next).resume() == next,
{
}


/// The token behind a page is that of its cursor; a page without a cursor has none.
pub proof fn tokens_stand_in_cursors(page: BatchPage)
    ensures
        page.cursor is None ==> next_token(page) is None,
        page.cursor is Some ==> next_token(page) == page.cursor->0@.next,
{
}

} // verus!
