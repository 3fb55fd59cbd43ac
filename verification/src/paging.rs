//! Walking a source page by page.
//!
//! A provider fetches a window of a source at an offset and decides from what came back
//! whether another page follows. There are three ways to decide: the page came back full,
//! one row more than the page came back, or the total is known. Each of them yields every
//! row once, in order, and ends.

use vstd::prelude::*;

use crate::page::{self, Cursor, Page};

verus! {

/// What a fetch of `limit` rows at `offset` gives of a source.
pub open spec fn window<T>(rows: Seq<T>, offset: nat, limit: nat) -> Seq<T> {
    if offset >= rows.len() {
        Seq::empty()
    } else if offset + limit >= rows.len() {
        rows.skip(offset as int)
    } else {
        rows.subrange(offset as int, (offset + limit) as int)
    }
}

/// The pages of a walk from `offset` that goes on while a page comes back full.
pub open spec fn walk<T>(rows: Seq<T>, offset: nat, limit: nat) -> Seq<Seq<T>>
    decreases rows.len() - offset,
{
    let page = window(rows, offset, limit);
    if limit > 0 && page.len() == limit {
        seq![page] + walk(rows, offset + limit, limit)
    } else {
        seq![page]
    }
}

/// A walk yields every row from its offset on, each once and in order, and ends.
pub proof fn walk_yields_every_row_once<T>(rows: Seq<T>, offset: nat, limit: nat)
    requires
        limit > 0,
    ensures
        walk(rows, offset, limit).flatten() == (if offset <= rows.len() {
            rows.skip(offset as int)
        } else {
            Seq::empty()
        }),
        forall|i: int|
            0 <= i < walk(rows, offset, limit).len() - 1 ==> (#[trigger] walk(
                rows,
                offset,
                limit,
            )[i]).len() == limit,
    decreases rows.len() - offset,
{
    let page = window(rows, offset, limit);
    let pages = walk(rows, offset, limit);
    if page.len() == limit {
        walk_yields_every_row_once(rows, offset + limit, limit);
        let rest = walk(rows, offset + limit, limit);
        assert(pages == seq![page] + rest);
        assert(pages.first() == page);
        assert(pages.drop_first() =~= rest);
        assert(pages.flatten() == page + rest.flatten());
        assert(page + rest.flatten() =~= rows.skip(offset as int));
        assert forall|i: int| 0 <= i < pages.len() - 1 implies (#[trigger] pages[i]).len()
            == limit by {
            if i > 0 {
                assert(pages[i] == rest[i - 1]);
            }
        }
    } else {
        assert(pages.first() == page);
        assert(pages.drop_first() =~= Seq::<Seq<T>>::empty());
        assert(pages.flatten() == page + pages.drop_first().flatten());
        assert(pages.drop_first().flatten() =~= Seq::<T>::empty());
        assert(page + Seq::<T>::empty() =~= page);
    }
}

// === One row more ===

/// The pages of a walk from `offset` that fetches one row more than a page and goes on
/// while that row comes.
pub open spec fn probing_walk<T>(rows: Seq<T>, offset: nat, limit: u32) -> Seq<Seq<T>>
    decreases rows.len() - offset,
{
    let fetched = window(rows, offset, (limit + 1) as nat);
    if limit > 0 && offset < rows.len() && has_more(fetched.len() as usize, limit) {
        seq![fetched.take(limit as int)] + probing_walk(rows, offset + limit as nat, limit)
    } else {
        seq![fetched]
    }
}

/// A walk that fetches one row more than a page yields every row from its offset on, each
/// once and in order, and ends.
pub proof fn probing_walk_yields_every_row_once<T>(rows: Seq<T>, offset: nat, limit: u32)
    requires
        0 < limit < u32::MAX,
    ensures
        probing_walk(rows, offset, limit).flatten() == (if offset <= rows.len() {
            rows.skip(offset as int)
        } else {
            Seq::empty()
        }),
    decreases rows.len() - offset,
{
    let fetched = window(rows, offset, (limit + 1) as nat);
    let pages = probing_walk(rows, offset, limit);
    assert(fetched.len() <= limit + 1);
    if fetched.len() > limit {
        probing_walk_yields_every_row_once(rows, offset + limit as nat, limit);
        let page = fetched.take(limit as int);
        let rest = probing_walk(rows, offset + limit as nat, limit);
        assert(pages == seq![page] + rest);
        assert(pages.first() == page);
        assert(pages.drop_first() =~= rest);
        assert(pages.flatten() == page + rest.flatten());
        assert(page + rest.flatten() =~= rows.skip(offset as int));
    } else {
        assert(pages.first() == fetched);
        assert(pages.drop_first() =~= Seq::<Seq<T>>::empty());
        assert(pages.flatten() == fetched + pages.drop_first().flatten());
        assert(pages.drop_first().flatten() =~= Seq::<T>::empty());
        assert(fetched + Seq::<T>::empty() =~= fetched);
    }
}

/// Whether one row more than the page came back.
pub open spec fn has_more(returned: usize, limit: u32) -> bool {
    returned as u32 > limit
}

/// The rows of a page, of what a fetch of one row more brought.
pub open spec fn probed_items<T>(fetched: Seq<T>, limit: u32) -> Seq<T> {
    if has_more(fetched.len() as usize, limit) {
        fetched.take(limit as int)
    } else {
        fetched
    }
}

/// Where the page behind one begins, of which a fetch of one row more brought `returned`.
pub open spec fn probed_next(returned: usize, offset: u32, limit: u32) -> Option<u32> {
    if has_more(returned, limit) {
        Some((offset + limit) as u32)
    } else {
        None
    }
}

/// The pages that a follower of the cursors gets of a source, where each fetch asks for one row
/// more than a page.
pub open spec fn probed_pages<T>(rows: Seq<T>, offset: u32, limit: u32) -> Seq<Seq<T>>
    decreases rows.len() - offset,
{
    let fetched = window(rows, offset as nat, (limit + 1) as nat);
    let page = probed_items(fetched, limit);
    match probed_next(fetched.len() as usize, offset, limit) {
        Some(next) => if offset < next && offset < rows.len() {
            seq![page] + probed_pages(rows, next, limit)
        } else {
            seq![page]
        },
        None => seq![page],
    }
}

/// Following the cursors of pages that were fetched with one row more yields every row from the
/// offset on, each once and in order, in pages no longer than the limit.
pub proof fn followed_pages_yield_every_row_once<T>(rows: Seq<T>, offset: u32, limit: u32)
    requires
        0 < limit < u32::MAX,
        offset <= rows.len(),
        rows.len() + limit <= u32::MAX,
    ensures
        probed_pages(rows, offset, limit).flatten() == rows.skip(offset as int),
        forall|i: int|
            0 <= i < probed_pages(rows, offset, limit).len() ==> (#[trigger] probed_pages(
                rows,
                offset,
                limit,
            )[i]).len() <= limit,
        forall|i: int|
            0 <= i < probed_pages(rows, offset, limit).len() - 1 ==> (#[trigger] probed_pages(
                rows,
                offset,
                limit,
            )[i]).len() == limit,
        offset < rows.len() ==> probed_pages(rows, offset, limit).last().len() > 0,
    decreases rows.len() - offset,
{
    let fetched = window(rows, offset as nat, (limit + 1) as nat);
    let page = probed_items(fetched, limit);
    let pages = probed_pages(rows, offset, limit);
    assert(fetched.len() <= limit + 1);
    if fetched.len() > limit {
        let next = (offset + limit) as u32;
        followed_pages_yield_every_row_once(rows, next, limit);
        let rest = probed_pages(rows, next, limit);
        assert(pages == seq![page] + rest);
        assert(pages.first() == page);
        assert(pages.drop_first() =~= rest);
        assert(page + rest.flatten() =~= rows.skip(offset as int));
        assert forall|i: int| 0 <= i < pages.len() implies (#[trigger] pages[i]).len() <= limit && (i
            < pages.len() - 1 ==> pages[i].len() == limit) by {
            if i > 0 {
                assert(pages[i] == rest[i - 1]);
            }
        }
        assert(rest.len() > 0);
        assert(pages.last() == rest.last());
    } else {
        assert(pages =~= seq![page]);
        pages.lemma_flatten_one_element();
        assert(page =~= rows.skip(offset as int));
    }
}

/// Makes a page of a fetch of one row more than the page: the row too many is dropped, and
/// says that another page follows.
pub fn probed_page<T>(items: Vec<T>, offset: u32, limit: u32) -> (r: Page<T>)
    requires
        has_more(items.len(), limit) ==> offset + limit <= u32::MAX,
    ensures
        r.items@ == if has_more(items.len(), limit) {
            items@.take(limit as int)
        } else {
            items@
        },
        r.cursor@ == if has_more(items.len(), limit) {
            page::cursor_to(page::offset_state((offset + limit) as u32))
        } else {
            page::no_cursor()
        },
        r.items@ == probed_items(items@, limit),
        r.cursor@ == page::cursor_at(probed_next(items.len(), offset, limit)),
        page::token_offset(r.cursor@.next) == Ok::<u32, Seq<char>>(
            match probed_next(items.len(), offset, limit) {
                Some(next) => next,
                None => 0,
            },
        ),
{
    let mut items = items;
    let returned: usize = items.len();
    assert(returned as u32 <= returned) by (bit_vector);
    if returned as u32 > limit {
        items.truncate(limit as usize);
        Page::new(items, Cursor::at(offset + limit))
    } else {
        Page::new(items, Cursor::empty())
    }
}

// === A known total ===

/// The pages of a walk from `offset` that goes on while rows are left.
pub open spec fn counted_walk<T>(rows: Seq<T>, offset: nat, limit: nat) -> Seq<Seq<T>>
    decreases rows.len() - offset,
{
    let page = window(rows, offset, limit);
    if limit > 0 && offset + page.len() < rows.len() {
        seq![page] + counted_walk(rows, offset + limit, limit)
    } else {
        seq![page]
    }
}

/// A walk of a source whose total is known yields every row from its offset on, each once
/// and in order, and ends.
pub proof fn counted_walk_yields_every_row_once<T>(rows: Seq<T>, offset: nat, limit: nat)
    requires
        limit > 0,
    ensures
        counted_walk(rows, offset, limit).flatten() == (if offset <= rows.len() {
            rows.skip(offset as int)
        } else {
            Seq::empty()
        }),
    decreases rows.len() - offset,
{
    let page = window(rows, offset, limit);
    let pages = counted_walk(rows, offset, limit);
    if offset + page.len() < rows.len() {
        counted_walk_yields_every_row_once(rows, offset + limit, limit);
        let rest = counted_walk(rows, offset + limit, limit);
        assert(pages == seq![page] + rest);
        assert(pages.first() == page);
        assert(pages.drop_first() =~= rest);
        assert(pages.flatten() == page + rest.flatten());
        assert(page + rest.flatten() =~= rows.skip(offset as int));
    } else {
        assert(pages.first() == page);
        assert(pages.drop_first() =~= Seq::<Seq<T>>::empty());
        assert(pages.flatten() == page + pages.drop_first().flatten());
        assert(pages.drop_first().flatten() =~= Seq::<T>::empty());
        assert(page + Seq::<T>::empty() =~= page);
    }
}


/// A fetch with a row too many is a full page, and the next begins behind it; any other fetch is
/// the last page, whole.
pub proof fn a_row_too_many_leads_on<T>(fetched: Seq<T>, offset: u32, limit: u32)
    requires
        fetched.len() <= u32::MAX,
        offset + limit <= u32::MAX,
    ensures
        fetched.len() > limit ==> probed_items(fetched, limit).len() == limit && probed_items(
            fetched,
            limit,
        ).is_prefix_of(fetched) && probed_next(fetched.len() as usize, offset, limit) is Some
            && probed_next(fetched.len() as usize, offset, limit)->0 == offset + limit,
        fetched.len() <= limit ==> probed_items(fetched, limit) == fetched && probed_next(
            fetched.len() as usize,
            offset,
            limit,
        ) is None,
{
    if fetched.len() > limit {
        assert(fetched.take(limit as int) =~= fetched.subrange(0, limit as int));
    }
}

} // verus!
