//! What the command line decides.

use vstd::prelude::*;
use vstd::string::*;

use crate::error::{self, Failure};
use crate::json::{self, Json, JsonView, Member, Number, NumberView};
use crate::page::{self, Cursor};
use crate::pipe::{self, Endpoint, EndpointView, Pipe};
use crate::request;
use crate::router::Method;
use crate::text;

verus! {

/// The verb of a call.
#[derive(Debug, Clone, Copy, PartialEq, Eq, Structural)]
pub enum Verb {
    Get,
    List,
    Create,
}

/// The method of a verb.
pub fn method(verb: Verb) -> (r: Method)
    ensures
        r == match verb {
            Verb::Get => Method::Get,
            Verb::List => Method::List,
            Verb::Create => Method::Create,
        },
{
    match verb {
        Verb::Get => Method::Get,
        Verb::List => Method::List,
        Verb::Create => Method::Create,
    }
}

/// What a call does.
#[derive(Debug, Clone, Copy, PartialEq, Eq, Structural)]
pub enum CallPlan {
    /// Read the stream to its end and show every page.
    Follow,
    /// Read the first page of the stream and show it.
    First,
    /// Ask for an entity.
    Ask,
    /// Create an entity from a JSON body.
    Create,
}

/// What a call does, or the message that refuses to follow what is no list.
pub open spec fn planned(verb: Verb, follow: bool) -> Result<CallPlan, Seq<char>> {
    if follow {
        if verb == Verb::List {
            Ok(CallPlan::Follow)
        } else {
            Err("--follow only applies to `list`"@)
        }
    } else {
        Ok(
            match verb {
                Verb::List => CallPlan::First,
                Verb::Get => CallPlan::Ask,
                Verb::Create => CallPlan::Create,
            },
        )
    }
}

/// What a call does.
pub fn plan_call(verb: Verb, follow: bool) -> (r: Result<CallPlan, Failure>)
    ensures
        error::gives_plain(r, planned(verb, follow)),
{
    if follow {
        match verb {
            Verb::List => Ok(CallPlan::Follow),
            _ => Err(Failure::Message("--follow only applies to `list`".to_string())),
        }
    } else {
        Ok(
            match verb {
                Verb::List => CallPlan::First,
                Verb::Get => CallPlan::Ask,
                Verb::Create => CallPlan::Create,
            },
        )
    }
}

/// The path ahead of its query: the form that is a key of the catalog.
pub fn strip_query(path: &str) -> (r: &str)
    ensures
        r@ == request::base(path@),
{
    let chars = text::chars(path);
    let mut end: usize = 0;
    while end < chars.len() && chars[end] != '?'
        invariant
            end <= chars.len(),
            chars@ == path@,
            forall|j: int| 0 <= j < end ==> path@[j] != '?',
        decreases chars.len() - end,
    {
        end = end + 1;
    }
    proof {
        text::lemma_find_is(path@, '?', end as int);
        assert(path@.subrange(0, end as int) =~= path@.take(end as int));
        if end == chars.len() {
            assert(path@.take(end as int) =~= path@);
        }
    }
    path.substring_char(0, end)
}

/// The keys of the catalog under which the schema of a pipe's source is kept: the source and
/// the destination, without their queries.
pub fn catalog_keys(pipe: &Pipe) -> (r: (Endpoint, Endpoint))
    ensures
        r.0@ == (EndpointView {
            mount: pipe@.source.mount,
            path: request::base(pipe@.source.path),
        }),
        r.1@ == (EndpointView {
            mount: pipe@.destination.mount,
            path: request::base(pipe@.destination.path),
        }),
{
    (
        Endpoint::new(
            pipe.source.mount.as_str(),
            strip_query(pipe.source.path.as_str()),
        ),
        Endpoint::new(
            pipe.destination.mount.as_str(),
            strip_query(pipe.destination.path.as_str()),
        ),
    )
}

/// What is said of a pipe that was run.
pub fn piped(pipe: &Pipe) -> (r: String)
    ensures
        r@ == "piped "@ + pipe::label_text(pipe@),
{
    let label = pipe::label(pipe);
    text::cat2("piped ", label.as_str())
}

/// The JSON of a cursor; null where there is none.
pub open spec fn told(cursor: Option<Cursor>) -> JsonView {
    match cursor {
        Some(cursor) => page::cursor_json(cursor@),
        None => JsonView::Null,
    }
}

/// A page as it is shown: its rows, and the cursor behind it.
pub open spec fn shown(items: Seq<JsonView>, cursor: JsonView) -> JsonView {
    JsonView::Object(seq![("items"@, JsonView::Array(items)), ("cursor"@, cursor)])
}

/// A page of a stream that is followed: its number, its rows, and the cursor behind it.
pub open spec fn shown_with_number(
    number: u64,
    items: Seq<JsonView>,
    cursor: JsonView,
) -> JsonView {
    JsonView::Object(
        seq![
            ("page"@, JsonView::Number(NumberView::PosInt(number))),
            ("items"@, JsonView::Array(items)),
            ("cursor"@, cursor),
        ],
    )
}

/// The JSON of a cursor; null where there is none.
fn tell(cursor: &Option<Cursor>) -> (r: Json)
    ensures
        r@ == told(*cursor),
{
    match cursor {
        Some(cursor) => cursor.to_json(),
        None => Json::Null,
    }
}

/// A page as it is shown.
fn show(items: Vec<Json>, cursor: Json) -> (r: Json)
    ensures
        r@ == shown(json::json_views(items@), cursor@),
{
    let rows = Json::Array(items);
    let members = vec![
        Member { key: "items".to_string(), value: rows },
        Member { key: "cursor".to_string(), value: cursor },
    ];
    let r = Json::Object(members);
    proof {
        json::lemma_json_view(rows);
        json::lemma_json_view(r);
        assert(json::member_views(members@) =~= shown(
            json::json_views(items@),
            cursor@,
        )->Object_0);
    }
    r
}

/// A page as it is shown, or the empty page where the stream had none.
pub fn page_display(page: Option<(Vec<Json>, Option<Cursor>)>) -> (r: Json)
    ensures
        r@ == match page {
            Some((items, cursor)) => shown(json::json_views(items@), told(cursor)),
            None => shown(Seq::empty(), JsonView::Null),
        },
{
    match page {
        Some((items, cursor)) => {
            let behind = tell(&cursor);
            show(items, behind)
        },
        None => {
            let items: Vec<Json> = Vec::new();
            assert(json::json_views(items@) =~= Seq::empty());
            show(items, Json::Null)
        },
    }
}

/// A page of a stream that is followed.
pub fn followed_page(number: u64, items: Vec<Json>, cursor: Option<Cursor>) -> (r: Json)
    ensures
        r@ == shown_with_number(number, json::json_views(items@), told(cursor)),
{
    let behind = tell(&cursor);
    let rows = Json::Array(items);
    let members = vec![
        Member { key: "page".to_string(), value: Json::Number(Number::PosInt(number)) },
        Member { key: "items".to_string(), value: rows },
        Member { key: "cursor".to_string(), value: behind },
    ];
    let r = Json::Object(members);
    proof {
        json::lemma_json_view(rows);
        json::lemma_json_view(r);
        assert(json::member_views(members@) =~= shown_with_number(
            number,
            json::json_views(items@),
            told(cursor),
        )->Object_0);
    }
    r
}

/// The rows that a write reports, else the rows that were handed to it, so that a provider
/// which reports none still drives a load.
pub fn rows_written(output: &Json, batch: usize) -> (r: u64)
    ensures
        r == match output@.member("rows_written"@) {
            Some(value) => match value.uint64() {
                Some(n) => n,
                None => batch as u64,
            },
            None => batch as u64,
        },
{
    match output.get("rows_written") {
        Some(value) => match value.as_u64() {
            Some(n) => n,
            None => batch as u64,
        },
        None => batch as u64,
    }
}

// === Laws ===

/// Only a list is followed. Without following, a list shows its first page, a get asks for an
/// entity, and a create makes one.
pub proof fn only_lists_are_followed(verb: Verb)
    ensures
        planned(verb, true) is Ok <==> verb == Verb::List,
        planned(Verb::List, true) == Ok::<CallPlan, Seq<char>>(CallPlan::Follow),
        verb != Verb::List ==> planned(verb, true) == Err::<CallPlan, Seq<char>>(
            "--follow only applies to `list`"@,
        ),
        planned(Verb::List, false) == Ok::<CallPlan, Seq<char>>(CallPlan::First),
        planned(Verb::Get, false) == Ok::<CallPlan, Seq<char>>(CallPlan::Ask),
        planned(Verb::Create, false) == Ok::<CallPlan, Seq<char>>(CallPlan::Create),
{
}

/// A page is shown with all of its rows and the cursor behind it; followed, with its number too.
pub proof fn pages_are_shown_whole(items: Seq<JsonView>, cursor: JsonView, number: u64)
    ensures
        shown(items, cursor).member("items"@) == Some(JsonView::Array(items)),
        shown(items, cursor).member("cursor"@) == Some(cursor),
        shown_with_number(number, items, cursor).member("page"@) == Some(
            JsonView::Number(NumberView::PosInt(number)),
        ),
        shown_with_number(number, items, cursor).member("items"@) == Some(JsonView::Array(items)),
        shown_with_number(number, items, cursor).member("cursor"@) == Some(cursor),
        told(None) == JsonView::Null,
{
    reveal_strlit("items");
    reveal_strlit("cursor");
    reveal_strlit("page");
    assert("items"@.len() == 5 && "cursor"@.len() == 6 && "page"@.len() == 4);
    let plain = shown(items, cursor)->Object_0;
    let counted = shown_with_number(number, items, cursor)->Object_0;
    json::lemma_member_at_is(plain, "items"@, 0);
    json::lemma_member_at_is(plain, "cursor"@, 1);
    json::lemma_member_at_is(counted, "page"@, 0);
    json::lemma_member_at_is(counted, "items"@, 1);
    json::lemma_member_at_is(counted, "cursor"@, 2);
}


/// A page is told with its cursor as JSON, and null where it has none.
pub proof fn cursors_are_told_as_json(cursor: Cursor)
    ensures
        told(Some(cursor)) == page::cursor_json(cursor@),
        told(None) == JsonView::Null,
{
}

} // verus!
