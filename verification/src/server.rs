//! What the server makes of the requests of the control API.

use vstd::prelude::*;
use vstd::string::*;

use crate::api;
use crate::api::error::{self as api_error, Error, ErrorView, Kind};
use crate::dataset::Disposition;
use crate::describe;
use crate::json::{self, Json, JsonView};
use crate::page::{self, Cursor};
use crate::pipe::{Endpoint, EndpointView, Pipe, PipeView};
use crate::record::{self, Records};
use crate::registry;
use crate::request::{self, ReadRequest, WriteRequest};
use crate::router::{self, EndpointInfo, EndpointView as Described};
use crate::schema::{FieldView, Schema};
use crate::text;

verus! {

// === Listings ===

/// The endpoints whose path begins with `prefix`, in order.
pub open spec fn beginning_with(endpoints: Seq<Described>, prefix: Seq<char>) -> Seq<Described>
    decreases endpoints.len(),
{
    if endpoints.len() == 0 {
        Seq::empty()
    } else {
        let before = beginning_with(endpoints.drop_last(), prefix);
        if prefix.is_prefix_of(endpoints.last().path) {
            before.push(endpoints.last())
        } else {
            before
        }
    }
}

/// The endpoints under a prefix; all of them where there is none.
pub open spec fn under(endpoints: Seq<Described>, prefix: Option<Seq<char>>) -> Seq<Described> {
    match prefix {
        Some(prefix) => beginning_with(endpoints, prefix),
        None => endpoints,
    }
}

/// The endpoints under a prefix.
pub fn endpoints_under(endpoints: Vec<EndpointInfo>, prefix: Option<&str>) -> (r: Vec<
    EndpointInfo,
>)
    ensures
        router::endpoint_views(r@) == under(
            router::endpoint_views(endpoints@),
            match prefix {
                Some(prefix) => Some(prefix@),
                None => None,
            },
        ),
{
    match prefix {
        None => endpoints,
        Some(prefix) => {
            let ghost all = router::endpoint_views(endpoints@);
            let mut out: Vec<EndpointInfo> = Vec::new();
            let mut i: usize = 0;
            assert(all.take(0) =~= Seq::empty());
            assert(router::endpoint_views(out@) =~= Seq::empty());
            while i < endpoints.len()
                invariant
                    i <= endpoints.len(),
                    all == router::endpoint_views(endpoints@),
                    router::endpoint_views(out@) == beginning_with(all.take(i as int), prefix@),
                decreases endpoints.len() - i,
            {
                let ghost before = router::endpoint_views(out@);
                assert(all.take(i + 1).drop_last() =~= all.take(i as int));
                assert(all[i as int] == endpoints@[i as int]@);
                if text::starts_with(endpoints[i].path.as_str(), prefix) {
                    let endpoint = endpoints[i].at(endpoints[i].path.clone());
                    out.push(endpoint);
                    assert(router::endpoint_views(out@) =~= before.push(endpoint@));
                }
                i = i + 1;
            }
            assert(all.take(i as int) =~= all);
            out
        },
    }
}

/// The paths of the endpoints, as JSON.
pub fn list_response(endpoints: &Vec<EndpointInfo>) -> (r: api::ListResponse)
    ensures
        json::json_views(r.endpoints@) == router::endpoint_views(endpoints@).map_values(
            |endpoint: Described| JsonView::Str(endpoint.path),
        ),
{
    let ghost model = router::endpoint_views(endpoints@).map_values(
        |endpoint: Described| JsonView::Str(endpoint.path),
    );
    let mut paths: Vec<Json> = Vec::new();
    let mut i: usize = 0;
    while i < endpoints.len()
        invariant
            i <= endpoints.len(),
            model == router::endpoint_views(endpoints@).map_values(
                |endpoint: Described| JsonView::Str(endpoint.path),
            ),
            json::json_views(paths@) == model.take(i as int),
        decreases endpoints.len() - i,
    {
        let ghost before = json::json_views(paths@);
        let path = Json::Str(endpoints[i].path.clone());
        paths.push(path);
        assert(json::json_views(paths@) =~= before.push(path@));
        assert(json::json_views(paths@) =~= model.take(i + 1));
        i = i + 1;
    }
    assert(json::json_views(paths@) =~= model);
    api::ListResponse { endpoints: paths }
}

/// The descriptions of the endpoints.
pub fn schema_response(endpoints: &Vec<EndpointInfo>) -> (r: api::SchemaResponse)
    ensures
        r.schema@ == describe::endpoints_json(router::endpoint_views(endpoints@)),
{
    api::SchemaResponse { schema: describe::describe_endpoints(endpoints) }
}

// === Reading ===

/// The text of an optional number.
pub open spec fn number_param(n: Option<u32>) -> Option<Seq<char>> {
    match n {
        Some(n) => Some(text::decimal(n as nat)),
        None => None,
    }
}

/// The path of a read with its query.
pub open spec fn query_path(path: Seq<char>, query: api::Query) -> Seq<char> {
    let url = request::read_path(path, query.cursor.deep_view(), query.cursor_field.deep_view());
    let limited = request::with_extra(url, "limit"@, number_param(query.limit));
    let filtered = request::with_extra(limited, "filter"@, query.filter.deep_view());
    request::with_extra(filtered, "fields"@, query.fields.deep_view())
}

/// The params of a read with its query: those of the path, the cursor and the column to
/// order by set or taken out to match, and the page size, the filter and the columns behind
/// them, where they are asked for.
pub open spec fn query_params(
    pairs: Seq<(Seq<char>, Seq<char>)>,
    query: api::Query,
) -> Seq<(Seq<char>, Seq<char>)> {
    let read = request::read_params(
        pairs,
        query.cursor.deep_view(),
        query.cursor_field.deep_view(),
    );
    let limited = request::with_extra_pair(read, "limit"@, number_param(query.limit));
    let filtered = request::with_extra_pair(limited, "filter"@, query.filter.deep_view());
    request::with_extra_pair(filtered, "fields"@, query.fields.deep_view())
}

/// The path of a read with its query. What is asked for reaches the provider: the params of
/// the path are those of the query.
pub fn path_with(path: &str, query: &api::Query) -> (r: String)
    ensures
        r@ == query_path(path@, *query),
        request::base(r@) == request::base(path@),
        request::params(r@) == query_params(request::params(path@), *query),
{
    let cursor = match &query.cursor {
        Some(token) => Some(token.clone()),
        None => None,
    };
    let field = match &query.cursor_field {
        Some(field) => Some(field.clone()),
        None => None,
    };
    let url = ReadRequest::new(path).with_cursor(cursor).with_cursor_field(field).path();
    let limit = match query.limit {
        Some(n) => Some(text::decimal_u64(n as u64)),
        None => None,
    };
    let limit_text = match &limit {
        Some(n) => Some(n.as_str()),
        None => None,
    };
    let filter = match &query.filter {
        Some(filter) => Some(filter.as_str()),
        None => None,
    };
    let fields = match &query.fields {
        Some(fields) => Some(fields.as_str()),
        None => None,
    };
    proof {
        reveal_strlit("limit");
        reveal_strlit("filter");
        reveal_strlit("fields");
    }
    let limited = request::add_param(url, "limit", limit_text);
    let filtered = request::add_param(limited, "filter", filter);
    request::add_param(filtered, "fields", fields)
}

/// The response to a read of the first page of a stream: the page, or nothing.
pub fn read_response(page: Option<(Vec<Json>, Option<Cursor>)>) -> (r: api::ReadResponse)
    ensures
        match page {
            Some((rows, cursor)) => {
                &&& r.rows == rows
                &&& r.cursor.next.deep_view() == (if cursor is Some {
                    cursor->0@.next
                } else {
                    None
                })
                &&& r.cursor.total == (if cursor is Some {
                    cursor->0@.total
                } else {
                    None
                })
            },
            None => r.rows.len() == 0 && r.cursor.next is None && r.cursor.total is None,
        },
{
    match page {
        Some((rows, cursor)) => {
            let cursor = match cursor {
                Some(cursor) => api::Cursor { next: cursor.next, total: cursor.total },
                None => api::Cursor { next: None, total: None },
            };
            api::ReadResponse { rows, cursor }
        },
        None => {
            let rows: Vec<Json> = Vec::new();
            api::ReadResponse { rows, cursor: api::Cursor { next: None, total: None } }
        },
    }
}

// === Writing ===

/// The rows of a write, ready for the provider.
pub struct PutPlan {
    pub schema: Schema,
    pub data: Records,
    pub path: String,
}

/// Why a write is refused, if it is: it has no schema, one that cannot be read, rows that do
/// not fit it, or a disposition that is not known.
pub open spec fn put_refusal(
    schema: Option<Result<Seq<FieldView>, Seq<char>>>,
    rows: Seq<JsonView>,
    disposition: Option<Seq<char>>,
) -> Option<Seq<char>> {
    match schema {
        None => Some("a put needs a `schema`"@),
        Some(Err(message)) => Some("schema: "@ + message),
        Some(Ok(fields)) => match record::batch_of(record::to_arrow_fields(fields), rows) {
            Err(error) => Some(record::encode_message(error)),
            Ok(_) => match disposition {
                None => None,
                Some(word) => match Disposition::of_word(Some(word)) {
                    Err(message) => Some(message),
                    Ok(_) => None,
                },
            },
        },
    }
}

/// Where a write goes: to the path, with its disposition, where one is asked for.
pub open spec fn put_path(path: Seq<char>, disposition: Option<Seq<char>>) -> Seq<char> {
    match disposition {
        None => path,
        Some(word) => request::with_param(
            path,
            Disposition::PARAM@,
            Some(Disposition::of_word(Some(word))->Ok_0.word()),
        ),
    }
}

/// The model of a schema that was asked for.
pub open spec fn asked_schema(schema: Option<Result<Schema, String>>) -> Option<
    Result<Seq<FieldView>, Seq<char>>,
> {
    match schema {
        None => None,
        Some(Ok(schema)) => Some(Ok(schema@)),
        Some(Err(message)) => Some(Err(message@)),
    }
}

/// Plans a write of rows. `schema` is what the schema of the request was decoded to.
pub fn put_plan(
    schema: Option<Result<Schema, String>>,
    rows: &Vec<Json>,
    disposition: Option<&str>,
    path: &str,
) -> (r: Result<PutPlan, Error>)
    ensures
        ({
            let word = match disposition {
                Some(word) => Some(word@),
                None => None,
            };
            let refusal = put_refusal(asked_schema(schema), json::json_views(rows@), word);
            match r {
                Ok(plan) => {
                    &&& refusal is None
                    &&& plan.schema@ == schema->0->Ok_0@
                    &&& plan.data.schema@ == record::to_arrow_fields(plan.schema@)
                    &&& plan.data.batches.len() == 1
                    &&& plan.data.batches@[0]@ == record::batch_of(
                        plan.data.schema@,
                        json::json_views(rows@),
                    )->Ok_0
                    &&& record::rows_in(plan.data.batches@) == rows.len()
                    &&& plan.path@ == put_path(path@, word)
                },
                Err(error) => refusal is Some && error@ == (ErrorView {
                    kind: Kind::Invalid,
                    message: refusal->0,
                }),
            }
        }),
{
    let schema = match schema {
        None => {
            return Err(Error::invalid("a put needs a `schema`".to_string()));
        },
        Some(Err(message)) => {
            return Err(Error::invalid(text::cat2("schema: ", message.as_str())));
        },
        Some(Ok(schema)) => schema,
    };
    let data = match Records::encode(&schema, rows) {
        Ok(data) => data,
        Err(failure) => {
            return Err(Error::invalid(failure.text()));
        },
    };
    let path = match disposition {
        None => path.to_string(),
        Some(word) => match Disposition::from_param(Some(word)) {
            Ok(disposition) => WriteRequest::new(path).with_disposition(disposition).path(),
            Err(failure) => {
                return Err(Error::invalid(failure.text()));
            },
        },
    };
    Ok(PutPlan { schema, data, path })
}

/// The pipe that a request asks to run once, or the error that refuses a path without a
/// mount.
pub fn pipe_request(id: u128, request: &api::PipeRequest) -> (r: Result<Pipe, Error>)
    ensures
        ({
            let source = registry::mount_split(request.source@);
            let destination = registry::mount_split(request.destination@);
            match r {
                Ok(pipe) => {
                    &&& source is Ok
                    &&& destination is Ok
                    &&& pipe@ == (PipeView {
                        id,
                        source: EndpointView { mount: source->Ok_0.0, path: source->Ok_0.1 },
                        destination: EndpointView {
                            mount: destination->Ok_0.0,
                            path: destination->Ok_0.1,
                        },
                        cursor: None,
                    })
                },
                Err(error) => if source is Err {
                    error@ == api_error::answered(source->Err_0)
                } else {
                    destination is Err && error@ == api_error::answered(destination->Err_0)
                },
            }
        }),
{
    let source = match registry::split_mount(request.source.as_str()) {
        Ok((mount, path)) => Endpoint::new(mount, path.as_str()),
        Err(failure) => {
            return Err(Error::of(&failure));
        },
    };
    let destination = match registry::split_mount(request.destination.as_str()) {
        Ok((mount, path)) => Endpoint::new(mount, path.as_str()),
        Err(failure) => {
            return Err(Error::of(&failure));
        },
    };
    Ok(Pipe { id, source, destination, cursor: None })
}

// === Options ===

/// How to serve.
#[derive(Debug)]
pub struct Options {
    pub config: Option<String>,
    /// The address of the Arrow Flight server.
    pub flight: String,
    /// The address of the HTTP server.
    pub http: String,
    /// Whether to serve GraphQL.
    pub graphql: bool,
}

impl Default for Options {
    fn default() -> (r: Self)
        ensures
            r.config is None,
            r.flight@ == "127.0.0.1:50051"@,
            r.http@ == "127.0.0.1:8080"@,
            !r.graphql,
    {
        Options {
            config: None,
            flight: "127.0.0.1:50051".to_string(),
            http: "127.0.0.1:8080".to_string(),
            graphql: false,
        }
    }
}

impl Options {
    /// The defaults.
    pub fn new() -> (r: Options)
        ensures
            r.config is None,
            r.flight@ == "127.0.0.1:50051"@,
            r.http@ == "127.0.0.1:8080"@,
            !r.graphql,
    {
        Options::default()
    }

    /// Sets the configuration file.
    pub fn config(self, path: &str) -> (r: Options)
        ensures
            r.config.deep_view() == Some(path@),
            r.flight == self.flight,
            r.http == self.http,
            r.graphql == self.graphql,
    {
        let mut r = self;
        r.config = Some(path.to_string());
        r
    }

    /// Sets the address of the Arrow Flight server.
    pub fn flight(self, addr: &str) -> (r: Options)
        ensures
            r.config == self.config,
            r.flight@ == addr@,
            r.http == self.http,
            r.graphql == self.graphql,
    {
        let mut r = self;
        r.flight = addr.to_string();
        r
    }

    /// Sets the address of the HTTP server.
    pub fn http(self, addr: &str) -> (r: Options)
        ensures
            r.config == self.config,
            r.flight == self.flight,
            r.http@ == addr@,
            r.graphql == self.graphql,
    {
        let mut r = self;
        r.http = addr.to_string();
        r
    }

    /// Sets whether to serve GraphQL.
    pub fn graphql(self, graphql: bool) -> (r: Options)
        ensures
            r.config == self.config,
            r.flight == self.flight,
            r.http == self.http,
            r.graphql == graphql,
    {
        let mut r = self;
        r.graphql = graphql;
        r
    }
}

// === Laws ===

/// The endpoints under a prefix are those whose path begins with it, all of them and in order.
pub proof fn listings_keep_what_begins_with_the_prefix(
    endpoints: Seq<Described>,
    prefix: Seq<char>,
)
    ensures
        under(endpoints, Some(prefix)) == endpoints.filter(
            |endpoint: Described| prefix.is_prefix_of(endpoint.path),
        ),
        under(endpoints, None) == endpoints,
    decreases endpoints.len(),
{
    reveal(Seq::filter);
    if endpoints.len() > 0 {
        listings_keep_what_begins_with_the_prefix(endpoints.drop_last(), prefix);
    }
}

/// What a read asks for reaches the provider, each on its own: the cursor and nothing else as
/// the cursor; the column to order by, the page size, the filter and the columns where they are
/// asked for, and as the path has them otherwise; and every other param of the path.
pub proof fn queries_reach_the_provider(
    pairs: Seq<(Seq<char>, Seq<char>)>,
    query: api::Query,
    other: Seq<char>,
)
    requires
        other != "cursor"@,
        other != "cursor_field"@,
        other != "limit"@,
        other != "filter"@,
        other != "fields"@,
    ensures
        ({
            let params = query_params(pairs, query);
            let had = |key: Seq<char>| request::value_of(pairs, key);
            &&& request::value_of(params, "cursor"@) == query.cursor.deep_view()
            &&& request::value_of(params, "cursor_field"@) == match query.cursor_field {
                Some(field) => Some(field@),
                None => had("cursor_field"@),
            }
            &&& request::value_of(params, "limit"@) == match query.limit {
                Some(n) => Some(text::decimal(n as nat)),
                None => had("limit"@),
            }
            &&& request::value_of(params, "filter"@) == match query.filter {
                Some(filter) => Some(filter@),
                None => had("filter"@),
            }
            &&& request::value_of(params, "fields"@) == match query.fields {
                Some(fields) => Some(fields@),
                None => had("fields"@),
            }
            &&& request::value_of(params, other) == had(other)
        }),
{
    reveal_strlit("cursor");
    reveal_strlit("cursor_field");
    reveal_strlit("limit");
    reveal_strlit("filter");
    reveal_strlit("fields");
    assert("cursor"@.len() == 6 && "cursor_field"@.len() == 12 && "limit"@.len() == 5);
    assert("filter"@.len() == 6 && "fields"@.len() == 6);
    assert("cursor"@[0] == 'c' && "filter"@[0] == 'f' && "fields"@[0] == 'f');
    assert("filter"@[2] == 'l' && "fields"@[2] == 'e');
    let cursor = query.cursor.deep_view();
    let field = query.cursor_field.deep_view();
    let read = request::read_params(pairs, cursor, field);
    let limited = request::with_extra_pair(read, "limit"@, number_param(query.limit));
    let filtered = request::with_extra_pair(limited, "filter"@, query.filter.deep_view());
    request::reads_carry_their_cursor(pairs, cursor, field, other);
    request::reads_carry_their_cursor(pairs, cursor, field, "limit"@);
    request::reads_carry_their_cursor(pairs, cursor, field, "filter"@);
    request::reads_carry_their_cursor(pairs, cursor, field, "fields"@);
    request::extra_pairs_read_back(read, "limit"@, number_param(query.limit));
    request::extra_pairs_read_back(limited, "filter"@, query.filter.deep_view());
    request::extra_pairs_read_back(filtered, "fields"@, query.fields.deep_view());
}

/// A write is refused without a schema, with one that cannot be read, with rows that cannot be
/// encoded for it, or with an unknown disposition, in this order, and for nothing else.
pub proof fn puts_are_refused_in_order(
    fields: Seq<FieldView>,
    rows: Seq<JsonView>,
    disposition: Option<Seq<char>>,
    message: Seq<char>,
)
    ensures
        put_refusal(None, rows, disposition) == Some("a put needs a `schema`"@),
        put_refusal(Some(Err(message)), rows, disposition) == Some("schema: "@ + message),
        ({
            let batch = record::batch_of(record::to_arrow_fields(fields), rows);
            let known = disposition is None || disposition == Some("append"@) || disposition
                == Some("merge"@) || disposition == Some("upsert"@);
            &&& put_refusal(Some(Ok(fields)), rows, disposition) is None <==> batch is Ok && known
            &&& batch is Err ==> put_refusal(Some(Ok(fields)), rows, disposition) == Some(
                record::encode_message(batch->Err_0),
            )
            &&& batch is Ok && !known ==> put_refusal(Some(Ok(fields)), rows, disposition) == Some(
                "unknown write disposition `"@ + disposition->0 + "` (append|merge)"@,
            )
        }),
{
}

/// A write goes to the path that was asked for. Where a disposition is asked for, the path has it
/// as its `disposition`, and its other params are as they were.
pub proof fn puts_carry_their_disposition(path: Seq<char>, word: Seq<char>, other: Seq<char>)
    requires
        other != "disposition"@,
    ensures
        put_path(path, None) == path,
        Disposition::of_word(Some(word)) is Ok ==> {
            let given = Some(Disposition::of_word(Some(word))->Ok_0.word());
            let pairs = request::with_pair(request::params(path), "disposition"@, given);
            &&& put_path(path, Some(word)) == request::with_params(request::base(path), pairs)
            &&& Disposition::of_word(request::value_of(pairs, "disposition"@))
                == Disposition::of_word(Some(word))
            &&& request::value_of(pairs, other) == request::value_of(
                request::params(path),
                other,
            )
        },
{
    if Disposition::of_word(Some(word)) is Ok {
        let disposition = Disposition::of_word(Some(word))->Ok_0;
        request::set_param_reads_back(
            request::params(path),
            "disposition"@,
            Some(disposition.word()),
            other,
        );
        crate::dataset::disposition_reads_back(disposition);
    }
}

} // verus!
