//! The client side of the control API: where each request goes, and what a response means.

use vstd::prelude::*;
use vstd::string::*;

use crate::api::error::{Error, ErrorView, Kind};
use crate::api::types::Query;
use crate::json::{self, Json, JsonView, Member};
use crate::request;
use crate::text;

verus! {

/// A client of the server at a base URL.
#[derive(Debug)]
pub struct Client {
    base: String,
}

/// The verb of an HTTP request.
#[derive(Debug, Clone, Copy, PartialEq, Eq, Structural)]
pub enum Verb {
    Get,
    Post,
    Put,
}

/// A request: its verb, its URL, its query params, and its JSON body, where it has one.
#[derive(Debug)]
pub struct Call {
    pub verb: Verb,
    pub url: String,
    pub query: Vec<(String, String)>,
    pub body: Option<Json>,
}

/// Whether `call` is this request without query params and without a body.
pub open spec fn is_call(call: Call, verb: Verb, url: Seq<char>) -> bool {
    call.verb == verb && call.url@ == url && call.query.len() == 0 && call.body is None
}

/// A path under a base path: the base path itself where there is none, and without slashes
/// of its own ahead of it.
pub open spec fn below(base: Seq<char>, path: Option<Seq<char>>) -> Seq<char> {
    match path {
        Some(path) => base + "/"@ + text::trimmed_start(path, |c: char| c == '/'),
        None => base,
    }
}

/// The query params of a read: what is asked for, by name.
pub open spec fn query_pairs(query: Query) -> Seq<(Seq<char>, Seq<char>)> {
    let resumed = request::with_extra_pair(Seq::empty(), "cursor"@, query.cursor.deep_view());
    let limit = match query.limit {
        Some(n) => Some(text::decimal(n as nat)),
        None => None,
    };
    let limited = request::with_extra_pair(resumed, "limit"@, limit);
    let filtered = request::with_extra_pair(limited, "filter"@, query.filter.deep_view());
    let projected = request::with_extra_pair(filtered, "fields"@, query.fields.deep_view());
    request::with_extra_pair(projected, "cursor_field"@, query.cursor_field.deep_view())
}

/// Puts a param behind the others, where it has a value.
fn add_pair(pairs: &mut Vec<(String, String)>, key: &str, value: &Option<String>)
    ensures
        final(pairs).deep_view() == request::with_extra_pair(
            old(pairs).deep_view(),
            key@,
            value.deep_view(),
        ),
{
    match value {
        Some(value) => {
            let ghost before = pairs.deep_view();
            pairs.push((key.to_string(), value.clone()));
            assert(pairs.deep_view() =~= before.push((key@, value@)));
        },
        None => {},
    }
}

/// The JSON of an optional text.
pub open spec fn optional_text(value: Option<Seq<char>>) -> JsonView {
    match value {
        Some(value) => JsonView::Str(value),
        None => JsonView::Null,
    }
}

/// The body of a request to write rows.
pub open spec fn put_body(
    rows: JsonView,
    schema: Option<JsonView>,
    disposition: Option<Seq<char>>,
) -> JsonView {
    let declared = match schema {
        Some(schema) => schema,
        None => JsonView::Null,
    };
    JsonView::Object(
        seq![
            ("rows"@, rows),
            ("schema"@, declared),
            ("disposition"@, optional_text(disposition)),
        ],
    )
}

impl Client {
    /// The base URL, without slashes behind it.
    pub closed spec fn server(&self) -> Seq<char> {
        self.base@
    }

    /// A client of the server at `base`.
    pub fn new(base: &str) -> (r: Client)
        ensures
            r.server() == text::trimmed_end(base@, |c: char| c == '/'),
    {
        Client { base: text::trim_end_matches(base, '/') }
    }

    /// The URL of a path.
    fn url(&self, path: &str) -> (r: String)
        ensures
            r@ == self.server() + path@,
    {
        text::cat2(self.base.as_str(), path)
    }

    /// The URL of a path under a base path.
    fn under(&self, base: &str, path: Option<&str>) -> (r: String)
        ensures
            r@ == self.server() + below(
                base@,
                match path {
                    Some(path) => Some(path@),
                    None => None,
                },
            ),
    {
        match path {
            Some(path) => {
                let inner = text::trim_start_matches(path, '/');
                let joined = text::cat3(base, "/", inner.as_str());
                self.url(joined.as_str())
            },
            None => self.url(base),
        }
    }

    /// Asks for the mounts.
    pub fn mounts(&self) -> (r: Call)
        ensures
            is_call(r, Verb::Get, self.server() + "/v1/mounts"@),
    {
        Call { verb: Verb::Get, url: self.url("/v1/mounts"), query: Vec::new(), body: None }
    }

    /// Asks for the endpoints under a path.
    pub fn list(&self, path: Option<&str>) -> (r: Call)
        ensures
            is_call(
                r,
                Verb::Get,
                self.server() + below(
                    "/v1/endpoints"@,
                    match path {
                        Some(path) => Some(path@),
                        None => None,
                    },
                ),
            ),
    {
        Call { verb: Verb::Get, url: self.under("/v1/endpoints", path), query: Vec::new(), body: None }
    }

    /// Asks for the descriptions of the endpoints under a path.
    pub fn schema(&self, path: Option<&str>) -> (r: Call)
        ensures
            is_call(
                r,
                Verb::Get,
                self.server() + below(
                    "/v1/schema"@,
                    match path {
                        Some(path) => Some(path@),
                        None => None,
                    },
                ),
            ),
    {
        Call { verb: Verb::Get, url: self.under("/v1/schema", path), query: Vec::new(), body: None }
    }

    /// Asks for a page of rows.
    pub fn read(&self, path: &str, query: &Query) -> (r: Call)
        ensures
            r.verb == Verb::Get,
            r.url@ == self.server() + below("/v1/data"@, Some(path@)),
            r.query.deep_view() == query_pairs(*query),
            r.body is None,
    {
        let mut pairs: Vec<(String, String)> = Vec::new();
        add_pair(&mut pairs, "cursor", &query.cursor);
        let limit = match query.limit {
            Some(n) => Some(text::decimal_u64(n as u64)),
            None => None,
        };
        add_pair(&mut pairs, "limit", &limit);
        add_pair(&mut pairs, "filter", &query.filter);
        add_pair(&mut pairs, "fields", &query.fields);
        add_pair(&mut pairs, "cursor_field", &query.cursor_field);
        Call {
            verb: Verb::Get,
            url: self.under("/v1/data", Some(path)),
            query: pairs,
            body: None,
        }
    }

    /// Asks for an entity.
    pub fn entity(&self, path: &str) -> (r: Call)
        ensures
            is_call(r, Verb::Get, self.server() + below("/v1/entity"@, Some(path@))),
    {
        Call { verb: Verb::Get, url: self.under("/v1/entity", Some(path)), query: Vec::new(), body: None }
    }

    /// Asks to create an entity.
    pub fn create(&self, path: &str, body: &Json) -> (r: Call)
        ensures
            r.verb == Verb::Post,
            r.url@ == self.server() + below("/v1/data"@, Some(path@)),
            r.query.len() == 0,
            r.body is Some,
            r.body->0@ == body@,
    {
        Call {
            verb: Verb::Post,
            url: self.under("/v1/data", Some(path)),
            query: Vec::new(),
            body: Some(body.clone()),
        }
    }

    /// Asks to write rows.
    pub fn put(
        &self,
        path: &str,
        rows: &Json,
        schema: Option<&Json>,
        disposition: Option<&str>,
    ) -> (r: Call)
        ensures
            r.verb == Verb::Put,
            r.url@ == self.server() + below("/v1/data"@, Some(path@)),
            r.query.len() == 0,
            r.body is Some,
            r.body->0@ == put_body(
                rows@,
                match schema {
                    Some(schema) => Some(schema@),
                    None => None,
                },
                match disposition {
                    Some(word) => Some(word@),
                    None => None,
                },
            ),
    {
        let declared = match schema {
            Some(schema) => schema.clone(),
            None => Json::Null,
        };
        let word = match disposition {
            Some(word) => Json::Str(word.to_string()),
            None => Json::Null,
        };
        let members = vec![
            Member { key: "rows".to_string(), value: rows.clone() },
            Member { key: "schema".to_string(), value: declared },
            Member { key: "disposition".to_string(), value: word },
        ];
        let body = Json::Object(members);
        proof {
            json::lemma_json_view(body);
            assert(json::member_views(members@) =~= put_body(
                rows@,
                match schema {
                    Some(schema) => Some(schema@),
                    None => None,
                },
                match disposition {
                    Some(word) => Some(word@),
                    None => None,
                },
            )->Object_0);
        }
        Call { verb: Verb::Put, url: self.under("/v1/data", Some(path)), query: Vec::new(), body: Some(body) }
    }

    /// Asks to run a pipe.
    pub fn pipe(&self, source: &str, destination: &str) -> (r: Call)
        ensures
            r.verb == Verb::Post,
            r.url@ == self.server() + "/v1/pipes/run"@,
            r.query.len() == 0,
            r.body is Some,
            r.body->0@ == JsonView::Object(
                seq![
                    ("source"@, JsonView::Str(source@)),
                    ("destination"@, JsonView::Str(destination@)),
                ],
            ),
    {
        let members = vec![
            Member { key: "source".to_string(), value: Json::Str(source.to_string()) },
            Member { key: "destination".to_string(), value: Json::Str(destination.to_string()) },
        ];
        let body = Json::Object(members);
        proof {
            json::lemma_json_view(body);
            assert(json::member_views(members@) =~= seq![
                ("source"@, JsonView::Str(source@)),
                ("destination"@, JsonView::Str(destination@)),
            ]);
        }
        Call { verb: Verb::Post, url: self.url("/v1/pipes/run"), query: Vec::new(), body: Some(body) }
    }

    /// The error for a server that cannot be reached.
    pub fn unreachable(&self, cause: &str) -> (r: Error)
        ensures
            r@ == (ErrorView {
                kind: Kind::Internal,
                message: "cannot reach the strata server at "@ + self.server() + ": "@ + cause@,
            }),
    {
        Error::internal(
            text::cat4(
                "cannot reach the strata server at ",
                self.base.as_str(),
                ": ",
                cause,
            ),
        )
    }
}

/// What a response says: the JSON of its body where its status is one of success, else an
/// error: the one that the body tells, where it tells one, or else the status and the body.
pub open spec fn outcome(
    success: bool,
    status: Seq<char>,
    body: Seq<char>,
    told: Option<ErrorView>,
) -> Result<JsonView, ErrorView> {
    if !success {
        match told {
            Some(error) => Err(error),
            None => Err(
                ErrorView { kind: Kind::Internal, message: status + ": "@ + body },
            ),
        }
    } else {
        match json::json_parsed(body) {
            Ok(value) => Ok(value),
            Err(message) => Err(
                ErrorView {
                    kind: Kind::Internal,
                    message: "decoding response: "@ + message + ": "@ + body,
                },
            ),
        }
    }
}

/// Reads a response. `told` is the error that the body decodes to.
pub fn decode(success: bool, status: &str, body: &str, told: Option<Error>) -> (r: Result<
    Json,
    Error,
>)
    ensures
        ({
            let expected = outcome(
                success,
                status@,
                body@,
                match told {
                    Some(error) => Some(error@),
                    None => None,
                },
            );
            match r {
                Ok(value) => expected is Ok && value@ == expected->Ok_0,
                Err(error) => expected is Err && error@ == expected->Err_0,
            }
        }),
{
    if !success {
        return match told {
            Some(error) => Err(error),
            None => Err(Error::internal(text::cat3(status, ": ", body))),
        };
    }
    match json::parse(body) {
        Ok(value) => Ok(value),
        Err(message) => Err(
            Error::internal(text::cat4("decoding response: ", message.as_str(), ": ", body)),
        ),
    }
}

/// A path that begins with a slash: the path itself, or with one put ahead of it.
pub open spec fn absolute_path(path: Seq<char>) -> Seq<char> {
    if path.len() > 0 && path[0] == '/' {
        path
    } else {
        "/"@ + path
    }
}

/// A path that begins with a slash.
pub fn absolute(path: String) -> (r: String)
    ensures
        r@ == absolute_path(path@),
{
    let chars = text::chars(path.as_str());
    if chars.len() > 0 && chars[0] == '/' {
        path
    } else {
        text::cat2("/", path.as_str())
    }
}

/// A path that was made absolute stays as it is.
pub proof fn absolute_twice_is_absolute_once(path: Seq<char>)
    ensures
        absolute_path(absolute_path(path)) == absolute_path(path),
{
    reveal_strlit("/");
}

/// The server reads the path that a client asked for: what a client puts under a base path,
/// made absolute, is the client's path with one slash ahead of it.
pub proof fn paths_survive_the_wire(base: Seq<char>, path: Seq<char>)
    requires
        path.len() > 0,
        path[0] == '/',
        path.len() == 1 || path[1] != '/',
    ensures
        below(base, Some(path)) == base + path,
        absolute_path(below(base, Some(path)).skip(base.len() as int + 1)) == if path.len() == 1 {
            "/"@
        } else {
            path
        },
{
    reveal_strlit("/");
    let drop = |c: char| c == '/';
    let inner = path.drop_first();
    reveal_with_fuel(text::trimmed_start, 2);
    assert(text::trimmed_start(path, drop) == text::trimmed_start(inner, drop));
    assert(text::trimmed_start(inner, drop) == inner);
    assert(below(base, Some(path)) =~= base + path);
    assert((base + path).skip(base.len() as int + 1) =~= inner);
    if path.len() > 1 {
        assert("/"@ + inner =~= path);
    } else {
        assert("/"@ + inner =~= "/"@);
    }
}


// === Laws of requests and responses ===

/// A request without query params and without a body is just its verb and its URL.
pub proof fn plain_calls_ask_nothing_more(call: Call, verb: Verb, url: Seq<char>)
    ensures
        is_call(call, verb, url) <==> call.verb == verb && call.url@ == url && call.query@.len()
            == 0 && call.body is None,
{
}

/// A path under a base path stands behind it and one slash, without slashes of its own ahead of
/// it; without a path it is the base path.
pub proof fn paths_stand_below_their_base(base: Seq<char>, path: Seq<char>, n: int)
    requires
        0 <= n <= path.len(),
        forall|i: int| 0 <= i < n ==> path[i] == '/',
        n < path.len() ==> path[n] != '/',
    ensures
        below(base, Some(path)) == base + seq!['/'] + path.skip(n),
        below(base, None) == base,
{
    reveal_strlit("/");
    assert("/"@ =~= seq!['/']);
    let drop = |c: char| c == '/';
    text::lemma_trimmed_start(path, drop);
    let left = text::trimmed_start(path, drop);
    let m = path.len() - left.len();
    if m > n {
        assert(drop(path[n]));
    } else if m < n {
        assert(!drop(left[0]));
        assert(left[0] == path[m]);
    }
}

/// Each thing that is asked of a read is told under its own name, and only what is asked.
pub proof fn queries_are_told_by_name(query: Query)
    ensures
        ({
            let pairs = query_pairs(query);
            &&& request::value_of(pairs, "cursor"@) == query.cursor.deep_view()
            &&& request::value_of(pairs, "limit"@) == match query.limit {
                Some(n) => Some(text::decimal(n as nat)),
                None => None,
            }
            &&& request::value_of(pairs, "filter"@) == query.filter.deep_view()
            &&& request::value_of(pairs, "fields"@) == query.fields.deep_view()
            &&& request::value_of(pairs, "cursor_field"@) == query.cursor_field.deep_view()
            &&& forall|key: Seq<char>|
                key != "cursor"@ && key != "limit"@ && key != "filter"@ && key != "fields"@ && key
                    != "cursor_field"@ ==> #[trigger] request::value_of(pairs, key) is None
        }),
{
    reveal_strlit("cursor");
    reveal_strlit("limit");
    reveal_strlit("filter");
    reveal_strlit("fields");
    reveal_strlit("cursor_field");
    assert("cursor"@.len() == 6 && "limit"@.len() == 5 && "filter"@.len() == 6);
    assert("fields"@.len() == 6 && "cursor_field"@.len() == 12);
    assert("cursor"@[0] == 'c' && "filter"@[0] == 'f' && "fields"@[0] == 'f');
    assert("filter"@[2] == 'l' && "fields"@[2] == 'e');
    let limit = match query.limit {
        Some(n) => Some(text::decimal(n as nat)),
        None => None,
    };
    let none = Seq::<(Seq<char>, Seq<char>)>::empty();
    let resumed = request::with_extra_pair(none, "cursor"@, query.cursor.deep_view());
    let limited = request::with_extra_pair(resumed, "limit"@, limit);
    let filtered = request::with_extra_pair(limited, "filter"@, query.filter.deep_view());
    let projected = request::with_extra_pair(filtered, "fields"@, query.fields.deep_view());
    request::extra_pairs_read_back(none, "cursor"@, query.cursor.deep_view());
    request::extra_pairs_read_back(resumed, "limit"@, limit);
    request::extra_pairs_read_back(limited, "filter"@, query.filter.deep_view());
    request::extra_pairs_read_back(filtered, "fields"@, query.fields.deep_view());
    request::extra_pairs_read_back(projected, "cursor_field"@, query.cursor_field.deep_view());
}

/// A request to write has the rows, the schema and the disposition under their names, null where
/// there is none.
pub proof fn puts_hold_their_rows(
    rows: JsonView,
    schema: Option<JsonView>,
    disposition: Option<Seq<char>>,
)
    ensures
        ({
            let body = put_body(rows, schema, disposition);
            &&& body is Object
            &&& body.member("rows"@) == Some(rows)
            &&& schema is Some ==> body.member("schema"@) == schema
            &&& schema is None ==> body.member("schema"@) == Some(JsonView::Null)
            &&& disposition is Some ==> body.member("disposition"@) == Some(
                JsonView::Str(disposition->0),
            )
            &&& disposition is None ==> body.member("disposition"@) == Some(JsonView::Null)
        }),
{
    reveal_strlit("rows");
    reveal_strlit("schema");
    reveal_strlit("disposition");
    assert("rows"@.len() == 4 && "schema"@.len() == 6 && "disposition"@.len() == 11);
    let members = put_body(rows, schema, disposition)->Object_0;
    json::lemma_member_at_is(members, "rows"@, 0);
    json::lemma_member_at_is(members, "schema"@, 1);
    json::lemma_member_at_is(members, "disposition"@, 2);
}

/// A response is its JSON where it succeeded and holds JSON. Where it did not succeed, it is an
/// error whatever it holds: the one that it tells, else one that is internal and says what came.
pub proof fn responses_are_read_by_their_status(
    status: Seq<char>,
    body: Seq<char>,
    told: Option<ErrorView>,
)
    ensures
        outcome(true, status, body, told) is Ok <==> json::json_parsed(body) is Ok,
        json::json_parsed(body) is Ok ==> outcome(true, status, body, told)->Ok_0
            == json::json_parsed(body)->Ok_0,
        outcome(true, status, body, told) is Err ==> outcome(
            true,
            status,
            body,
            told,
        )->Err_0.kind == Kind::Internal && body.is_suffix_of(
            outcome(true, status, body, told)->Err_0.message,
        ),
        told is Some ==> outcome(false, status, body, told) == Err::<JsonView, ErrorView>(told->0),
        told is None ==> outcome(false, status, body, told) == Err::<JsonView, ErrorView>(
            ErrorView { kind: Kind::Internal, message: status + ": "@ + body },
        ),
{
    if json::json_parsed(body) is Err {
        let message = outcome(true, status, body, told)->Err_0.message;
        assert(message.subrange(message.len() - body.len(), message.len() as int) =~= body);
    }
}

/// A path that is absolute stays; to any other one slash is put ahead.
pub proof fn absolute_paths_begin_with_a_slash(path: Seq<char>)
    ensures
        absolute_path(path).len() > 0,
        absolute_path(path)[0] == '/',
        path.len() > 0 && path[0] == '/' ==> absolute_path(path) == path,
        !(path.len() > 0 && path[0] == '/') ==> absolute_path(path).skip(1) == path,
{
    reveal_strlit("/");
    if !(path.len() > 0 && path[0] == '/') {
        assert(absolute_path(path).skip(1) =~= path);
    }
}

} // verus!
