//! Generated rows, for trying things out.

use vstd::prelude::*;
use vstd::string::*;

use crate::config::ProviderConfig;
use crate::error::{Failure, FailureView};
use crate::page::{self, Cursor, ListStrategy};
use crate::provider::Provider;
use crate::router::{self, EndpointInfo, EndpointView, MetadataView, Method, Router};
use crate::text;

verus! {

/// The page size where none is asked for.
pub const DEFAULT_LIMIT: u32 = 100;

/// The largest page size.
pub const MAX_LIMIT: u32 = 1000;

/// The number of rows where none is asked for.
pub const DEFAULT_ROWS: u32 = 1000;

/// The largest number of rows.
pub const MAX_ROWS: u32 = 10_000;

/// The provider of generated rows.
#[derive(Debug)]
pub struct Dummy;

/// One page of generated rows: the range of the generator that it holds, the generator's
/// seed, and the cursor behind it.
#[derive(Debug)]
pub struct GeneratedPage {
    pub seed: u64,
    pub start: u32,
    pub end: u32,
    pub cursor: Cursor,
}

/// The page size of a read.
pub open spec fn generated_limit(asked: Option<u32>) -> u32 {
    if asked is None {
        DEFAULT_LIMIT
    } else if asked->0 <= MAX_LIMIT {
        asked->0
    } else {
        MAX_LIMIT
    }
}

/// How many rows there are: what the `rows` param writes, else a default, and never more
/// than the largest number.
pub open spec fn total_rows(rows: Option<Seq<char>>) -> u32 {
    match rows {
        Some(text) => match text::natural(text) {
            Some(n) => if n <= MAX_ROWS {
                n as u32
            } else if n <= u32::MAX {
                MAX_ROWS
            } else {
                DEFAULT_ROWS
            },
            None => DEFAULT_ROWS,
        },
        None => DEFAULT_ROWS,
    }
}

/// The seed that the `seed` param writes.
pub open spec fn seed_of(seed: Option<Seq<char>>) -> u64 {
    match seed {
        Some(text) => match text::natural(text) {
            Some(n) => if n <= u64::MAX {
                n as u64
            } else {
                0
            },
            None => 0,
        },
        None => 0,
    }
}

/// The smaller of two numbers.
pub open spec fn least(a: int, b: int) -> int {
    if a <= b {
        a
    } else {
        b
    }
}

/// The text of an optional param.
pub open spec fn param(value: Option<&str>) -> Option<Seq<char>> {
    match value {
        Some(value) => Some(value@),
        None => None,
    }
}

/// How many rows there are.
fn rows_param(rows: Option<&str>) -> (r: u32)
    ensures
        r == total_rows(param(rows)),
{
    let wanted: u32 = match rows {
        Some(text) => match text::parse_u32(text) {
            Some(n) => n,
            None => DEFAULT_ROWS,
        },
        None => DEFAULT_ROWS,
    };
    if wanted <= MAX_ROWS {
        wanted
    } else {
        MAX_ROWS
    }
}

/// The seed that the `seed` param writes.
fn seed_param(seed: Option<&str>) -> (r: u64)
    ensures
        r == seed_of(param(seed)),
{
    match seed {
        Some(text) => match text::parse_u64(text) {
            Some(n) => n,
            None => 0,
        },
        None => 0,
    }
}

/// The text that a `schema` param must hold.
pub fn schema_param(schema: Option<&str>) -> (r: Result<&str, Failure>)
    ensures
        match r {
            Ok(text) => schema is Some && text@ == schema->0@,
            Err(failure) => schema is None && failure@ == FailureView::Message(
                "`schema` is required: a JSON-encoded DataType"@,
            ),
        },
{
    match schema {
        Some(text) => Ok(text),
        None => Err(Failure::Message("`schema` is required: a JSON-encoded DataType".to_string())),
    }
}

/// The page of generated rows from `offset` on: where it begins and ends, and where the next one
/// begins.
pub open spec fn generated(offset: u32, limit: u32, total: u32) -> (u32, u32, Option<u32>) {
    let start = least(offset as int, total as int);
    let end = least(start + limit, total as int);
    (
        start as u32,
        end as u32,
        if end < total {
            Some(end as u32)
        } else {
            None
        },
    )
}

/// The numbers of the rows that a follower of the cursors gets.
pub open spec fn generated_rows(offset: u32, limit: u32, total: u32) -> Seq<int>
    decreases total - offset,
{
    let (start, end, next) = generated(offset, limit, total);
    let page = Seq::new((end - start) as nat, |i: int| start + i);
    match next {
        Some(next) => if offset < next && offset < total {
            page + generated_rows(next, limit, total)
        } else {
            page
        },
        None => page,
    }
}

/// Following the cursors of generated rows yields every row from the offset up to the total,
/// each once and in order.
pub proof fn followed_rows_are_generated_once(offset: u32, limit: u32, total: u32)
    requires
        limit > 0,
        offset <= total,
    ensures
        generated_rows(offset, limit, total) == Seq::new(
            (total - offset) as nat,
            |i: int| offset + i,
        ),
        ({
            let (start, end, next) = generated(offset, limit, total);
            end - start <= limit
        }),
    decreases total - offset,
{
    let (start, end, next) = generated(offset, limit, total);
    if end < total {
        followed_rows_are_generated_once(end, limit, total);
    }
    assert(generated_rows(offset, limit, total) =~= Seq::new(
        (total - offset) as nat,
        |i: int| offset + i,
    ));
}

/// A page of generated rows has what was asked for, at most 1000 rows, 100 where nothing is
/// said. There are as many rows as was asked for, at most 10000, 1000 where nothing is said or
/// what is said is no number. The seed is the number that was given, else zero.
pub proof fn generated_sizes_are_bounded(
    asked: Option<u32>,
    rows: Option<Seq<char>>,
    seed: Option<Seq<char>>,
)
    ensures
        asked is None ==> generated_limit(asked) == 100,
        asked is Some && asked->0 <= 1000 ==> generated_limit(asked) == asked->0,
        asked is Some && asked->0 > 1000 ==> generated_limit(asked) == 1000,
        rows is None ==> total_rows(rows) == 1000,
        rows is Some && text::natural(rows->0) is None ==> total_rows(rows) == 1000,
        forall|n: u32|
            rows is Some && #[trigger] text::natural(rows->0) == Some(n as nat) ==> total_rows(
                rows,
            ) == if n <= 10000 {
                n
            } else {
                10000
            },
        rows is Some && text::natural(rows->0) is Some && text::natural(rows->0)->0 > u32::MAX
            ==> total_rows(rows) == 1000,
        seed is Some && text::natural(seed->0) is Some && text::natural(seed->0)->0 > u64::MAX
            ==> seed_of(seed) == 0,
        seed is None ==> seed_of(seed) == 0,
        seed is Some && text::natural(seed->0) is None ==> seed_of(seed) == 0,
        forall|n: u64|
            seed is Some && #[trigger] text::natural(seed->0) == Some(n as nat) ==> seed_of(seed)
                == n,
{
}

/// Plans one page of generated rows: a pure range of the generator.
pub fn generate(
    seed: Option<&str>,
    token: Option<&str>,
    limit: Option<u32>,
    rows: Option<&str>,
) -> (r: Result<GeneratedPage, Failure>)
    ensures
        ({
            let offset = page::token_offset(param(token));
            let total = total_rows(param(rows));
            let planned = self::generated(offset->Ok_0, generated_limit(limit), total);
            match r {
                Ok(generated) => {
                    &&& offset is Ok
                    &&& generated.seed == seed_of(param(seed))
                    &&& generated.start == least(offset->Ok_0 as int, total as int)
                    &&& generated.end == least(
                        generated.start + generated_limit(limit),
                        total as int,
                    )
                    &&& generated.cursor@ == if generated.end < total {
                        page::cursor_to(page::offset_state(generated.end))
                    } else {
                        page::no_cursor()
                    }
                    &&& generated.start == planned.0
                    &&& generated.end == planned.1
                    &&& generated.cursor@ == page::cursor_at(planned.2)
                    &&& page::token_offset(generated.cursor@.next) == Ok::<u32, Seq<char>>(
                        match planned.2 {
                            Some(next) => next,
                            None => 0,
                        },
                    )
                },
                Err(failure) => offset is Err && failure@ == FailureView::Message(offset->Err_0),
            }
        }),
{
    let seed = seed_param(seed);
    let offset = match page::resume_offset(token) {
        Ok(offset) => offset,
        Err(failure) => {
            return Err(failure);
        },
    };
    let limit = page::page_limit(limit, DEFAULT_LIMIT, MAX_LIMIT);
    let total = rows_param(rows);
    let start = if offset <= total {
        offset
    } else {
        total
    };
    let reach = start.saturating_add(limit);
    let end = if reach <= total {
        reach
    } else {
        total
    };
    let cursor = if end < total {
        Cursor::at(end)
    } else {
        Cursor::empty()
    };
    Ok(GeneratedPage { seed, start, end, cursor })
}

/// The pages that follow from `offset`, as ranges.
pub open spec fn ranges(offset: nat, limit: nat, total: nat) -> Seq<(int, int)>
    decreases total - offset,
{
    let start = least(offset as int, total as int);
    let end = least(start + limit, total as int);
    if limit > 0 && end < total {
        seq![(start, end)] + ranges(end as nat, limit, total)
    } else {
        seq![(start, end)]
    }
}

/// The pages of generated rows follow on one another without gaps and end at the total.
pub proof fn ranges_cover_all_rows(offset: nat, limit: nat, total: nat)
    requires
        limit > 0,
        offset <= total,
    ensures
        ({
            let pages = ranges(offset, limit, total);
            &&& pages.len() > 0
            &&& pages[0].0 == offset
            &&& pages.last().1 == total
            &&& forall|i: int| 0 < i < pages.len() ==> pages[i - 1].1 == (#[trigger] pages[i]).0
            &&& forall|i: int|
                0 <= i < pages.len() ==> (#[trigger] pages[i]).0 <= pages[i].1 <= pages[i].0
                    + limit
        }),
    decreases total - offset,
{
    let pages = ranges(offset, limit, total);
    let end = least((offset + limit) as int, total as int);
    if end < total {
        ranges_cover_all_rows(end as nat, limit, total);
        let rest = ranges(end as nat, limit, total);
        assert(pages == seq![(offset as int, end)] + rest);
        assert forall|i: int| 0 < i < pages.len() implies pages[i - 1].1 == (#[trigger] pages[i]).0 by {
            assert(pages[i] == rest[i - 1]);
            if i > 1 {
                assert(pages[i - 1] == rest[i - 2]);
            }
        }
        assert forall|i: int| 0 <= i < pages.len() implies (#[trigger] pages[i]).0 <= pages[i].1
            <= pages[i].0 + limit by {
            if i > 0 {
                assert(pages[i] == rest[i - 1]);
            }
        }
        assert(pages.last() == rest.last());
    }
}

// === The provider ===

/// What is said of the endpoint.
pub const DESCRIPTION: &'static str = "Generated rows; `types` is a JSON DataType";

impl Provider for Dummy {
    open spec fn backend() -> Seq<char> {
        "dummy"@
    }

    open spec fn routes() -> Seq<EndpointView> {
        let list = router::offset_list("/data"@);
        seq![
            EndpointView {
                metadata: MetadataView { description: Some(DESCRIPTION@), ..list.metadata },
                ..list
            },
        ]
    }

    fn name() -> (r: &'static str) {
        "dummy"
    }

    fn new(config: &ProviderConfig) -> (r: Result<Self, Failure>)
        ensures
            r is Ok,
    {
        Ok(Dummy)
    }

    fn register(router: &mut Router) {
        let ghost before = router@;
        router.add(
            EndpointInfo::new(Method::List, "/data").strategy(ListStrategy::Offset).description(
                DESCRIPTION,
            ),
        );
        assert(router@ =~= before + Self::routes());
    }
}


/// A page of generated rows begins at its offset, or at the end where that lies beyond; it holds as
/// many rows as were asked for, or as are left; and it leads on just where rows are left.
pub proof fn generated_pages_are_full(offset: u32, limit: u32, total: u32)
    ensures
        ({
            let (start, end, next) = generated(offset, limit, total);
            &&& offset <= total ==> start == offset
            &&& offset > total ==> start == total
            &&& start + limit <= total ==> end == start + limit
            &&& start + limit > total ==> end == total
            &&& end < total ==> next == Some(end)
            &&& end == total ==> next is None
        }),
{
}

/// The provider lists generated rows, walked by offset, and is called by its name.
pub proof fn dummy_lists_data()
    ensures
        Dummy::backend() == "dummy"@,
        Dummy::routes().len() == 1,
        Dummy::routes()[0].path == "/data"@,
        Dummy::routes()[0].method == Method::List,
        Dummy::routes()[0].metadata.strategy == Some(ListStrategy::Offset),
        Dummy::routes()[0].metadata.description is Some,
{
}

} // verus!
