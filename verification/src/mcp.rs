//! The mounted providers as tools of the model context protocol.

use vstd::prelude::*;
use vstd::string::*;

use crate::json::{self, Json, JsonView};
use crate::page::{self, Cursor};
use crate::request;
use crate::text;

verus! {

/// What to list: an endpoint of a provider, and how to read it.
#[derive(Debug)]
pub struct ListArgs {
    /// The mount of the provider.
    pub provider: String,
    /// The path of the endpoint within the provider.
    pub path: String,
    /// The token of a previous page; absent for the first.
    pub cursor: Option<String>,
    /// The page size that is asked for.
    pub limit: Option<u32>,
    /// The row predicate, where the endpoint takes one.
    pub filter: Option<Json>,
    /// The columns to return; all of them where absent.
    pub fields: Option<Vec<String>>,
}

/// The params of a list.
pub open spec fn list_params(args: ListArgs) -> Seq<(Seq<char>, Seq<char>)> {
    let resumed = request::with_extra_pair(Seq::empty(), "cursor"@, args.cursor.deep_view());
    let limited = request::with_extra_pair(
        resumed,
        "limit"@,
        match args.limit {
            Some(n) => Some(text::decimal(n as nat)),
            None => None,
        },
    );
    let filtered = request::with_extra_pair(
        limited,
        "filter"@,
        match args.filter {
            Some(filter) => Some(json::json_rendered(filter@)),
            None => None,
        },
    );
    request::with_extra_pair(
        filtered,
        "fields"@,
        match args.fields {
            Some(fields) => if fields.len() > 0 {
                Some(text::joined(fields.deep_view(), ","@))
            } else {
                None
            },
            None => None,
        },
    )
}

/// The path of a list. Where the path has no query of its own, the params are read back
/// from it.
pub fn read_path(args: &ListArgs) -> (r: String)
    ensures
        r@ == request::with_params(args.path@, list_params(*args)),
        !args.path@.contains('?') ==> request::base(r@) == args.path@ && request::params(r@)
            == list_params(*args),
{
    let mut params: Vec<(String, String)> = Vec::new();
    assert(params.deep_view() =~= Seq::empty());
    match &args.cursor {
        Some(token) => {
            let ghost before = params.deep_view();
            let pair = ("cursor".to_string(), token.clone());
            params.push(pair);
            assert(params.deep_view() =~= before.push((pair.0@, pair.1@)));
        },
        None => {},
    }
    match args.limit {
        Some(n) => {
            let ghost before = params.deep_view();
            let pair = ("limit".to_string(), text::decimal_u64(n as u64));
            params.push(pair);
            assert(params.deep_view() =~= before.push((pair.0@, pair.1@)));
        },
        None => {},
    }
    match &args.filter {
        Some(filter) => {
            let ghost before = params.deep_view();
            let pair = ("filter".to_string(), json::render(filter));
            params.push(pair);
            assert(params.deep_view() =~= before.push((pair.0@, pair.1@)));
        },
        None => {},
    }
    match &args.fields {
        Some(fields) => {
            if fields.len() > 0 {
                let ghost before = params.deep_view();
                let pair = ("fields".to_string(), text::join(fields, ","));
                params.push(pair);
                assert(params.deep_view() =~= before.push((pair.0@, pair.1@)));
            }
        },
        None => {},
    }
    proof {
        if !args.path@.contains('?') {
            assert forall|i: int| 0 <= i < args.path@.len() implies args.path@[i] != '?' by {
                assert(args.path@.contains(args.path@[i]));
            }
        }
    }
    request::put_params(args.path.clone(), &params)
}

/// What stands for an entity in an answer: the entity, else the output of the call.
pub fn entity_of(entity: Option<Json>, output: Json) -> (r: Json)
    ensures
        r@ == match entity {
            Some(entity) => entity@,
            None => output@,
        },
{
    match entity {
        Some(entity) => entity,
        None => output,
    }
}

/// The endpoints in a description; null where it has none.
pub fn endpoints_of(described: &Json) -> (r: Json)
    ensures
        r@ == match described@.member("endpoints"@) {
            Some(endpoints) => endpoints,
            None => JsonView::Null,
        },
{
    match described.get("endpoints") {
        Some(endpoints) => endpoints.clone(),
        None => Json::Null,
    }
}

/// The rows of a list, and the cursor behind them.
#[derive(Debug)]
pub struct Rows {
    pub items: Vec<Json>,
    pub cursor: Option<Json>,
}

/// The answer to a list: the first page of a stream, or nothing.
pub fn list_answer(page: Option<(Vec<Json>, Option<Cursor>)>) -> (r: Rows)
    ensures
        match page {
            Some((items, cursor)) => {
                &&& r.items == items
                &&& r.cursor is Some <==> cursor is Some
                &&& cursor is Some ==> r.cursor->0@ == page::cursor_json(cursor->0@)
            },
            None => r.items.len() == 0 && r.cursor is None,
        },
{
    match page {
        Some((items, cursor)) => Rows {
            items,
            cursor: match cursor {
                Some(cursor) => Some(cursor.to_json()),
                None => None,
            },
        },
        None => {
            let items: Vec<Json> = Vec::new();
            Rows { items, cursor: None }
        },
    }
}

/// Each argument of a list is read back from its params on its own, whatever the others are, and
/// there are no other params.
pub proof fn list_arguments_read_back(args: ListArgs)
    ensures
        ({
            let params = list_params(args);
            &&& request::value_of(params, "cursor"@) == args.cursor.deep_view()
            &&& request::value_of(params, "limit"@) == match args.limit {
                Some(n) => Some(text::decimal(n as nat)),
                None => None,
            }
            &&& request::value_of(params, "filter"@) == match args.filter {
                Some(filter) => Some(json::json_rendered(filter@)),
                None => None,
            }
            &&& request::value_of(params, "fields"@) == match args.fields {
                Some(fields) => if fields.len() > 0 {
                    Some(text::joined(fields.deep_view(), ","@))
                } else {
                    None
                },
                None => None,
            }
            &&& forall|key: Seq<char>|
                key != "cursor"@ && key != "limit"@ && key != "filter"@ && key != "fields"@
                    ==> #[trigger] request::value_of(params, key) is None
        }),
{
    reveal_strlit("cursor");
    reveal_strlit("limit");
    reveal_strlit("filter");
    reveal_strlit("fields");
    assert("cursor"@[0] == 'c' && "limit"@[0] == 'l');
    assert("filter"@[0] == 'f' && "fields"@[0] == 'f');
    assert("filter"@[2] == 'l' && "fields"@[2] == 'e');
    let none = Seq::<(Seq<char>, Seq<char>)>::empty();
    let limit = match args.limit {
        Some(n) => Some(text::decimal(n as nat)),
        None => None,
    };
    let filter = match args.filter {
        Some(filter) => Some(json::json_rendered(filter@)),
        None => None,
    };
    let fields = match args.fields {
        Some(fields) => if fields.len() > 0 {
            Some(text::joined(fields.deep_view(), ","@))
        } else {
            None
        },
        None => None,
    };
    let resumed = request::with_extra_pair(none, "cursor"@, args.cursor.deep_view());
    let limited = request::with_extra_pair(resumed, "limit"@, limit);
    let filtered = request::with_extra_pair(limited, "filter"@, filter);
    request::extra_pairs_read_back(none, "cursor"@, args.cursor.deep_view());
    request::extra_pairs_read_back(resumed, "limit"@, limit);
    request::extra_pairs_read_back(limited, "filter"@, filter);
    request::extra_pairs_read_back(filtered, "fields"@, fields);
}

} // verus!
