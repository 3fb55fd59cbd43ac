//! The congress.gov API.

use vstd::prelude::*;
use vstd::string::*;

use crate::config::ProviderConfig;
use crate::error::{self, Failure};
use crate::json::Json;
use crate::page::{self, ListStrategy, Page};
use crate::paging;
use crate::provider::Provider;
use crate::request;
use crate::router::{self, EndpointInfo, EndpointView, Method, Router};
use crate::text;

verus! {

/// Where the API is.
pub const API_BASE: &'static str = "https://api.congress.gov/v3";

/// The page size where none is asked for.
pub const LIMIT: u32 = 20;

/// The largest page size: one less than the API's own limit, since one row more than a
/// page is asked for.
pub const MAX_LIMIT: u32 = 249;

/// Who asks the API.
#[derive(Debug)]
pub struct Congress {
    pub api_key: String,
}

/// Where a page begins and how many rows it has.
#[derive(Debug)]
pub struct Window {
    pub offset: u32,
    pub limit: u32,
}

impl Congress {
    /// The query params that go with every request.
    pub fn query(&self) -> (r: Vec<(String, String)>)
        ensures
            r.deep_view() == seq![("format"@, "json"@), ("api_key"@, self.api_key@)],
    {
        let r = vec![
            ("format".to_string(), "json".to_string()),
            ("api_key".to_string(), self.api_key.clone()),
        ];
        assert(r.deep_view() =~= seq![("format"@, "json"@), ("api_key"@, self.api_key@)]);
        r
    }
}

/// The page size of a read.
pub open spec fn window_limit(asked: Option<u32>) -> u32 {
    if asked is None {
        LIMIT
    } else if asked->0 <= MAX_LIMIT {
        asked->0
    } else {
        MAX_LIMIT
    }
}

/// The query params that fetch a page and one row more.
pub open spec fn window_params(offset: u32, limit: u32) -> Seq<(Seq<char>, Seq<char>)> {
    seq![
        ("offset"@, text::decimal(offset as nat)),
        ("limit"@, text::decimal((limit + 1) as nat)),
    ]
}

/// A page asks for what it was asked for: at most 249 rows, 20 where nothing is said. The API is
/// asked for them from the offset on, and for one row more.
pub proof fn windows_ask_for_one_row_more(asked: Option<u32>, offset: u32, limit: u32)
    ensures
        asked is None ==> window_limit(asked) == 20,
        asked is Some && asked->0 <= 249 ==> window_limit(asked) == asked->0,
        asked is Some && asked->0 > 249 ==> window_limit(asked) == 249,
        limit < u32::MAX ==> {
            let params = window_params(offset, limit);
            &&& text::natural(request::value_of(params, "offset"@)->0) == Some(offset as nat)
            &&& text::natural(request::value_of(params, "limit"@)->0) == Some((limit + 1) as nat)
        },
{
    reveal_strlit("offset");
    reveal_strlit("limit");
    assert("offset"@.len() != "limit"@.len());
    let params = window_params(offset, limit);
    reveal_with_fuel(request::value_of, 3);
    assert(params.drop_last() =~= seq![("offset"@, text::decimal(offset as nat))]);
    text::decimals_read_back(offset as int);
    text::decimals_read_back(limit + 1);
}

/// The page that a request asks for.
pub fn page_window(token: Option<&str>, limit: Option<u32>) -> (r: Result<Window, Failure>)
    ensures
        ({
            let start = page::token_offset(
                match token {
                    Some(token) => Some(token@),
                    None => None,
                },
            );
            match r {
                Ok(window) => {
                    &&& start is Ok
                    &&& window.offset == start->Ok_0
                    &&& window.limit == if limit is None {
                        LIMIT
                    } else if limit->0 <= MAX_LIMIT {
                        limit->0
                    } else {
                        MAX_LIMIT
                    }
                    &&& window.limit == window_limit(limit)
                },
                Err(failure) => start is Err && failure@ == error::FailureView::Message(
                    start->Err_0,
                ),
            }
        }),
{
    match page::resume_offset(token) {
        Ok(offset) => Ok(Window { offset, limit: page::page_limit(limit, LIMIT, MAX_LIMIT) }),
        Err(failure) => Err(failure),
    }
}

/// The query params that fetch a page and one row more.
pub fn page_query(window: &Window) -> (r: Vec<(String, String)>)
    requires
        window.limit < u32::MAX,
    ensures
        r.deep_view() == seq![
            ("offset"@, text::decimal(window.offset as nat)),
            ("limit"@, text::decimal((window.limit + 1) as nat)),
        ],
        r.deep_view() == window_params(window.offset, window.limit),
{
    let r = vec![
        ("offset".to_string(), text::decimal_u64(window.offset as u64)),
        ("limit".to_string(), text::decimal_u64((window.limit + 1) as u64)),
    ];
    assert(r.deep_view() =~= seq![
        ("offset"@, text::decimal(window.offset as nat)),
        ("limit"@, text::decimal((window.limit + 1) as nat)),
    ]);
    r
}

/// What stands under `key` in a response, which wraps its rows in an envelope.
pub fn envelope<'a>(body: &'a Json, key: &str) -> (r: Result<&'a Json, Failure>)
    ensures
        match r {
            Ok(value) => body@.member(key@) == Some(value@),
            Err(failure) => body@.member(key@) is None && failure@ == error::FailureView::Message(
                "congress response missing `"@ + key@ + "`"@,
            ),
        },
{
    match body.get(key) {
        Some(value) => Ok(value),
        None => Err(Failure::Message(text::cat3("congress response missing `", key, "`"))),
    }
}

/// The page of the rows that were fetched.
pub fn page_of<T>(window: &Window, fetched: Vec<T>) -> (r: Page<T>)
    requires
        paging::has_more(fetched.len(), window.limit) ==> window.offset + window.limit
            <= u32::MAX,
    ensures
        r.items@ == if paging::has_more(fetched.len(), window.limit) {
            fetched@.take(window.limit as int)
        } else {
            fetched@
        },
        r.cursor@ == if paging::has_more(fetched.len(), window.limit) {
            page::cursor_to(page::offset_state((window.offset + window.limit) as u32))
        } else {
            page::no_cursor()
        },
        r.items@ == paging::probed_items(fetched@, window.limit),
        r.cursor@ == page::cursor_at(
            paging::probed_next(fetched.len(), window.offset, window.limit),
        ),
        page::token_offset(r.cursor@.next) == Ok::<u32, Seq<char>>(
            match paging::probed_next(fetched.len(), window.offset, window.limit) {
                Some(next) => next,
                None => 0,
            },
        ),
{
    paging::probed_page(fetched, window.offset, window.limit)
}

/// Where the full record of a hearing is.
pub fn hearing_path(congress: u32, chamber: &str, jacket_number: u64) -> (r: String)
    ensures
        r@ == "/hearing/"@ + text::decimal(congress as nat) + "/"@ + text::lower_case(chamber@)
            + "/"@ + text::decimal(jacket_number as nat),
{
    let number = text::decimal_u64(congress as u64);
    let house = text::to_lowercase(chamber);
    let jacket = text::decimal_u64(jacket_number);
    let mut r = text::cat5("/hearing/", number.as_str(), "/", house.as_str(), "/");
    r.append(jacket.as_str());
    r
}

// === The provider ===

impl Provider for Congress {
    open spec fn backend() -> Seq<char> {
        "congress"@
    }

    open spec fn routes() -> Seq<EndpointView> {
        seq![
            router::offset_list("/bills"@),
            router::offset_list("/hearings"@),
            router::offset_list("/members"@),
        ]
    }

    fn name() -> (r: &'static str) {
        "congress"
    }

    fn new(config: &ProviderConfig) -> (r: Result<Self, Failure>)
        ensures
            r is Ok,
            r->Ok_0.api_key@ == config@.param("api_key"@),
    {
        Ok(Congress { api_key: config.param("api_key") })
    }

    fn register(router: &mut Router) {
        let ghost before = router@;
        router.add(EndpointInfo::new(Method::List, "/bills").strategy(ListStrategy::Offset));
        router.add(EndpointInfo::new(Method::List, "/hearings").strategy(ListStrategy::Offset));
        router.add(EndpointInfo::new(Method::List, "/members").strategy(ListStrategy::Offset));
        assert(router@ =~= before + Self::routes());
    }
}


/// The provider lists bills, hearings and members, each walked by offset, and is called by its
/// name.
pub proof fn congress_lists_three_things()
    ensures
        Congress::backend() == "congress"@,
        Congress::routes().len() == 3,
        Congress::routes()[0].path == "/bills"@,
        Congress::routes()[1].path == "/hearings"@,
        Congress::routes()[2].path == "/members"@,
        forall|i: int|
            0 <= i < 3 ==> (#[trigger] Congress::routes()[i]).method == Method::List
                && Congress::routes()[i].metadata.strategy == Some(ListStrategy::Offset),
{
}

} // verus!
