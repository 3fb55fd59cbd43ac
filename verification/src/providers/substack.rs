//! The archive of a Substack publication.

use vstd::prelude::*;
use vstd::string::*;

use crate::config::ProviderConfig;
use crate::error::{self, Failure};
use crate::page::{self, ListStrategy, Page};
use crate::paging;
use crate::provider::Provider;
use crate::request;
use crate::router::{self, EndpointInfo, EndpointView, Method, Router};
use crate::text;

verus! {

/// The page size where none is asked for.
pub const LIMIT: u32 = 20;

/// The largest page size: one less than the archive's own limit, since one post more than
/// a page is asked for.
pub const MAX_LIMIT: u32 = 99;

/// A reader of publications.
#[derive(Debug)]
pub struct Substack {}

/// A request for one page of an archive.
#[derive(Debug)]
pub struct ArchiveRequest {
    pub url: String,
    pub query: Vec<(String, String)>,
    pub offset: u32,
    pub limit: u32,
}

/// The page size of an archive read.
pub open spec fn archive_limit(asked: Option<u32>) -> u32 {
    if asked is None {
        LIMIT
    } else if asked->0 <= MAX_LIMIT {
        asked->0
    } else {
        MAX_LIMIT
    }
}

/// The query params that fetch a page, newest posts first, and one post more.
pub open spec fn archive_params(offset: u32, limit: u32) -> Seq<(Seq<char>, Seq<char>)> {
    seq![
        ("sort"@, "new"@),
        ("limit"@, text::decimal((limit + 1) as nat)),
        ("offset"@, text::decimal(offset as nat)),
    ]
}

/// A page asks for what it was asked for: at most 99 posts, 20 where nothing is said. The archive
/// is asked for them from the offset on, newest first, and for one post more.
pub proof fn archives_are_asked_for_one_post_more(asked: Option<u32>, offset: u32, limit: u32)
    ensures
        asked is None ==> archive_limit(asked) == 20,
        asked is Some && asked->0 <= 99 ==> archive_limit(asked) == asked->0,
        asked is Some && asked->0 > 99 ==> archive_limit(asked) == 99,
        limit < u32::MAX ==> {
            let params = archive_params(offset, limit);
            &&& request::value_of(params, "sort"@) == Some("new"@)
            &&& text::natural(request::value_of(params, "offset"@)->0) == Some(offset as nat)
            &&& text::natural(request::value_of(params, "limit"@)->0) == Some((limit + 1) as nat)
        },
{
    reveal_strlit("offset");
    reveal_strlit("limit");
    reveal_strlit("sort");
    assert("offset"@.len() == 6 && "limit"@.len() == 5 && "sort"@.len() == 4);
    let params = archive_params(offset, limit);
    reveal_with_fuel(request::value_of, 4);
    assert(params.drop_last() =~= seq![
        ("sort"@, "new"@),
        ("limit"@, text::decimal((limit + 1) as nat)),
    ]);
    assert(params.drop_last().drop_last() =~= seq![("sort"@, "new"@)]);
    text::decimals_read_back(offset as int);
    text::decimals_read_back(limit + 1);
}

/// The request for a page of the archive of `publication`, and one post more.
pub fn archive_request(publication: &str, token: Option<&str>, limit: Option<u32>) -> (r: Result<
    ArchiveRequest,
    Failure,
>)
    ensures
        ({
            let start = page::token_offset(
                match token {
                    Some(token) => Some(token@),
                    None => None,
                },
            );
            match r {
                Ok(request) => {
                    &&& start is Ok
                    &&& request.url@ == "https://"@ + publication@ + "/api/v1/archive"@
                    &&& request.offset == start->Ok_0
                    &&& request.limit == archive_limit(limit)
                    &&& request.query.deep_view() == seq![
                        ("sort"@, "new"@),
                        ("limit"@, text::decimal((request.limit + 1) as nat)),
                        ("offset"@, text::decimal(request.offset as nat)),
                    ]
                    &&& request.query.deep_view() == archive_params(
                        request.offset,
                        request.limit,
                    )
                },
                Err(failure) => start is Err && failure@ == error::FailureView::Message(
                    start->Err_0,
                ),
            }
        }),
{
    let limit = page::page_limit(limit, LIMIT, MAX_LIMIT);
    let offset = match page::resume_offset(token) {
        Ok(offset) => offset,
        Err(failure) => {
            return Err(failure);
        },
    };
    let url = text::cat3("https://", publication, "/api/v1/archive");
    let query = vec![
        ("sort".to_string(), "new".to_string()),
        ("limit".to_string(), text::decimal_u64((limit + 1) as u64)),
        ("offset".to_string(), text::decimal_u64(offset as u64)),
    ];
    assert(query.deep_view() =~= seq![
        ("sort"@, "new"@),
        ("limit"@, text::decimal((limit + 1) as nat)),
        ("offset"@, text::decimal(offset as nat)),
    ]);
    Ok(ArchiveRequest { url, query, offset, limit })
}

/// The page of the posts that were fetched.
pub fn page_of<T>(request: &ArchiveRequest, fetched: Vec<T>) -> (r: Page<T>)
    requires
        paging::has_more(fetched.len(), request.limit) ==> request.offset + request.limit
            <= u32::MAX,
    ensures
        r.items@ == if paging::has_more(fetched.len(), request.limit) {
            fetched@.take(request.limit as int)
        } else {
            fetched@
        },
        r.cursor@ == if paging::has_more(fetched.len(), request.limit) {
            page::cursor_to(page::offset_state((request.offset + request.limit) as u32))
        } else {
            page::no_cursor()
        },
        r.items@ == paging::probed_items(fetched@, request.limit),
        r.cursor@ == page::cursor_at(
            paging::probed_next(fetched.len(), request.offset, request.limit),
        ),
        page::token_offset(r.cursor@.next) == Ok::<u32, Seq<char>>(
            match paging::probed_next(fetched.len(), request.offset, request.limit) {
                Some(next) => next,
                None => 0,
            },
        ),
{
    paging::probed_page(fetched, request.offset, request.limit)
}

// === The provider ===

impl Provider for Substack {
    open spec fn backend() -> Seq<char> {
        "substack"@
    }

    open spec fn routes() -> Seq<EndpointView> {
        seq![router::offset_list("/:publication/posts"@)]
    }

    fn name() -> (r: &'static str) {
        "substack"
    }

    fn new(config: &ProviderConfig) -> (r: Result<Self, Failure>)
        ensures
            r is Ok,
    {
        Ok(Substack {  })
    }

    fn register(router: &mut Router) {
        let ghost before = router@;
        router.add(
            EndpointInfo::new(Method::List, "/:publication/posts").strategy(ListStrategy::Offset),
        );
        assert(router@ =~= before + Self::routes());
    }
}


/// The provider lists the posts of a publication, walked by offset, and is called by its name.
pub proof fn substack_lists_posts()
    ensures
        Substack::backend() == "substack"@,
        Substack::routes().len() == 1,
        Substack::routes()[0].path == "/:publication/posts"@,
        Substack::routes()[0].method == Method::List,
        Substack::routes()[0].metadata.strategy == Some(ListStrategy::Offset),
{
}

} // verus!
