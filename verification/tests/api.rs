use strata::api::client::{absolute, decode, Verb};
use strata::api::{Client, Error, Kind, PipeRequest, Query};
use strata::config::ProviderConfig;
use strata::describe::describe_endpoint;
use strata::error::Failure;
use strata::flight::{
    chunk_trailer, described, descriptor_target, do_get, do_put, flights_of, list_flights, make_ticket, provider_of, put_schema, put_target,
    ticket_target, Code, Descriptor, Status, Target,
};
use strata::graphql::{self, build_schema, field_value, row_object, selected, type_ref, Found};
use strata::json::Json;
use strata::mcp;
use strata::page::{Cursor, ListStrategy};
use strata::providers::clickhouse::Clickhouse;
use strata::providers::dummy::Dummy;
use strata::record::strata_schema_to_arrow_schema;
use strata::registry::Registry;
use strata::router::{EndpointInfo, Method, Router};
use strata::schema::{DataType, Field, Schema};
use strata::server::{
    endpoints_under, list_response, pipe_request, put_plan, read_response, schema_response, Options,
};

fn json(text: &str) -> Json {
    Json::from_text(text).unwrap()
}

// === Errors ===

#[test]
fn failures_are_answered() {
    let absent = Failure::message("nothing mounted at `x`. mounted: ".to_string());
    let error = Error::of(&absent);
    assert_eq!((error.kind, error.status()), (Kind::NotFound, 404));
    assert_eq!(error.text(), "nothing mounted at `x`. mounted: ");
    let error = Error::of(&Failure::message("boom".to_string()));
    assert_eq!((error.kind, error.status()), (Kind::Internal, 500));
    let error = Error::invalid("no".to_string());
    assert_eq!((error.kind, error.status()), (Kind::Invalid, 400));
    assert_eq!(Error::not_found("a".to_string()).status(), 404);
    assert_eq!(Error::internal("a".to_string()).clone().message, "a");
}

#[test]
fn absent_mounts_are_not_found() {
    let registry: Registry<String> = Registry::new();
    let failure = registry.get("nope").err().unwrap();
    assert_eq!(Error::of(&failure).kind, Kind::NotFound);
}

// === Client ===

#[test]
fn clients_ask_under_their_base() {
    let client = Client::new("http://h:8080//");
    let call = client.mounts();
    assert_eq!((call.verb, call.url.as_str()), (Verb::Get, "http://h:8080/v1/mounts"));
    assert!(call.body.is_none());
    assert_eq!(client.list(None).url, "http://h:8080/v1/endpoints");
    assert_eq!(client.list(Some("//gen/data")).url, "http://h:8080/v1/endpoints/gen/data");
    assert_eq!(client.schema(Some("gen")).url, "http://h:8080/v1/schema/gen");
    let call = client.read("/gen/data", &Query::default());
    assert_eq!(call.url, "http://h:8080/v1/data/gen/data");
    assert!(call.query.is_empty() && call.body.is_none());
    let query = Query {
        cursor: Some("c".to_string()),
        limit: Some(4),
        filter: Some("f".to_string()),
        fields: Some("a,b".to_string()),
        cursor_field: Some("at".to_string()),
    };
    let pairs = client.read("/gen/data", &query).query;
    let pairs: Vec<String> = pairs.into_iter().map(|(k, v)| format!("{k}={v}")).collect();
    assert_eq!(pairs, ["cursor=c", "limit=4", "filter=f", "fields=a,b", "cursor_field=at"]);
    assert_eq!(client.entity("/a").url, "http://h:8080/v1/entity/a");
    let call = client.create("/a", &json("{\"x\":1}"));
    assert_eq!(call.verb, Verb::Post);
    assert_eq!(call.body.unwrap().text(), "{\"x\":1}");
    let call = client.put("/a", &json("[1]"), None, Some("merge"));
    assert_eq!((call.verb, call.url.as_str()), (Verb::Put, "http://h:8080/v1/data/a"));
    let body = call.body.unwrap();
    assert_eq!(body.get("rows").unwrap().text(), "[1]");
    assert_eq!(body.get("schema").unwrap().text(), "null");
    assert_eq!(body.get("disposition").unwrap().as_str(), Some("merge"));
    let call = client.pipe("/a/b", "/c/d");
    assert_eq!(call.url, "http://h:8080/v1/pipes/run");
    assert_eq!(call.body.unwrap().text(), r#"{"destination":"/c/d","source":"/a/b"}"#);
    assert_eq!(
        client.unreachable("refused").text(),
        "cannot reach the strata server at http://h:8080: refused"
    );
}

#[test]
fn responses_are_decoded() {
    assert_eq!(decode(true, "200 OK", "{\"a\":1}", None).unwrap().text(), "{\"a\":1}");
    let error = decode(true, "200 OK", "{", None).unwrap_err();
    assert!(error.message.starts_with("decoding response: "));
    assert!(error.message.ends_with(": {"));
    let told = Error::not_found("gone".to_string());
    let error = decode(false, "404 Not Found", "..", Some(told)).unwrap_err();
    assert_eq!((error.kind, error.message.as_str()), (Kind::NotFound, "gone"));
    let error = decode(false, "502 Bad Gateway", "oops", None).unwrap_err();
    assert_eq!(error.message, "502 Bad Gateway: oops");
}

#[test]
fn paths_survive_the_wire() {
    assert_eq!(absolute("gen/data".to_string()), "/gen/data");
    assert_eq!(absolute("/gen/data".to_string()), "/gen/data");
    assert_eq!(absolute("".to_string()), "/");
    let base = "http://h/v1/entity/";
    let url = Client::new("http://h").entity("/gen/data").url;
    assert_eq!(absolute(url[base.len()..].to_string()), "/gen/data");
}

// === Server ===

fn endpoints() -> Vec<EndpointInfo> {
    let mut registry = Registry::new();
    registry.mount::<Dummy, _>("gen", &ProviderConfig::default(), &|_| ()).unwrap();
    registry.mount::<Clickhouse, _>("ch", &ProviderConfig::default(), &|_| ()).unwrap();
    registry.endpoints()
}

#[test]
fn endpoints_are_listed_under_a_prefix() {
    assert_eq!(endpoints_under(endpoints(), None).len(), 5);
    let under = endpoints_under(endpoints(), Some("/ch/tables/"));
    let listed: Vec<String> = list_response(&under).endpoints.iter().map(|e| e.text()).collect();
    assert_eq!(
        listed,
        [
            r#""/ch/tables/:table""#,
            r#""/ch/tables/:table/:id""#,
            r#""/ch/tables/:table""#
        ]
    );
    assert!(endpoints_under(endpoints(), Some("/x")).is_empty());
    let described = schema_response(&endpoints_under(endpoints(), Some("/gen"))).schema;
    match described {
        Json::Array(items) => {
            assert_eq!(items.len(), 1);
            assert_eq!(items[0].get("path").unwrap().as_str(), Some("/gen/data"));
        }
        other => panic!("{other:?}"),
    }
}

#[test]
fn endpoints_are_described() {
    let mut endpoint = EndpointInfo::new(Method::List, "/tables/:table/x/:id")
        .strategy(ListStrategy::NextLink)
        .queryable()
        .description("rows");
    endpoint.response = Schema::new(vec![
        Field::new("id", DataType::Int64, false),
        Field::new(
            "o",
            DataType::Struct(vec![Field::new(
                "l",
                DataType::List(Box::new(DataType::Date)),
                true,
            )]),
            true,
        ),
    ]);
    assert_eq!(endpoint.params, ["table", "id"]);
    assert_eq!(
        endpoint.response.to_json_schema().text(),
        r#"{"properties":{"id":{"type":"integer"},"o":{"anyOf":[{"properties":{"l":{"anyOf":[{"items":{"format":"date","type":"string"},"type":"array"},{"type":"null"}]}},"required":[],"type":"object"},{"type":"null"}]}},"required":["id"],"type":"object"}"#
    );
    let described = describe_endpoint(&endpoint);
    assert_eq!(described.get("params").unwrap().text(), r#"["table","id"]"#);
    assert_eq!(
        described.get("metadata").unwrap().text(),
        r#"{"description":"rows","disposition":"Append","queryable":true,"strategy":"NextLink"}"#
    );
    assert_eq!(described.get("body").unwrap().text(), "null");
    assert_eq!(
        described.get("response").unwrap().text(),
        endpoint.response.to_json_schema().text()
    );
    let mut router = Router::new();
    router.add(endpoint);
    assert_eq!(router.endpoints.len(), 1);
}

#[test]
fn schemas_are_described_with_their_notes() {
    let mut id = Field::new("id", DataType::UInt64, false);
    id.annotate("key", "");
    id.annotate("cursor", "x");
    id.annotate("key", "true");
    let schema = Schema::new(vec![
        id,
        Field::new("at", DataType::Timestamp, false),
        Field::new("b", DataType::Bytes, false),
        Field::new("d", DataType::Decimal, false),
        Field::new("f", DataType::Float64, false),
        Field::new("j", DataType::Json, true),
        Field::new("ok", DataType::Bool, false),
        Field::new("s", DataType::String, false),
    ]);
    let told = schema.to_json_schema();
    let properties = told.get("properties").unwrap();
    for (name, text) in [
        (
            "id",
            r#"{"annotations":{"cursor":"x","key":"true"},"minimum":0,"type":"integer"}"#,
        ),
        ("at", r#"{"format":"date-time","type":"string"}"#),
        ("b", r#"{"contentEncoding":"base64","type":"string"}"#),
        ("d", r#"{"format":"decimal","type":"string"}"#),
        ("f", r#"{"type":"number"}"#),
        ("j", r#"{"anyOf":[{},{"type":"null"}]}"#),
        ("ok", r#"{"type":"boolean"}"#),
        ("s", r#"{"type":"string"}"#),
    ] {
        assert_eq!(properties.get(name).unwrap().text(), text);
    }
    assert_eq!(
        told.get("required").unwrap().text(),
        r#"["id","at","b","d","f","ok","s"]"#
    );
    let endpoint = EndpointInfo::new(Method::Create, "/things").body(schema);
    let described = describe_endpoint(&endpoint);
    assert_eq!(described.get("body").unwrap().text(), told.text());
    assert_eq!(endpoint.at("/x".to_string()).body.unwrap().fields.len(), 8);
}

#[test]
fn a_read_is_answered_with_its_first_page() {
    let page = Some((vec![json("1")], Some(Cursor { next: Some("t".to_string()), total: Some(3) })));
    let response = read_response(page);
    assert_eq!(response.rows.len(), 1);
    assert_eq!(response.cursor.next.as_deref(), Some("t"));
    assert_eq!(response.cursor.total, Some(3));
    let response = read_response(Some((Vec::new(), None)));
    assert!(response.cursor.next.is_none() && response.cursor.total.is_none());
    let response = read_response(None);
    assert!(response.rows.is_empty() && response.cursor.next.is_none());
}

#[test]
fn a_put_is_planned() {
    let schema = || Some(Ok(Schema::new(vec![Field::new("n", DataType::Int64, false)])));
    let rows = vec![json("{\"n\":1}"), json("{\"n\":2}")];
    let plan = put_plan(schema(), &rows, Some("upsert"), "/t?a=1").ok().unwrap();
    assert_eq!(plan.path, "/t?a=1&disposition=merge");
    assert_eq!(plan.data.row_count(), 2);
    assert_eq!(plan.schema.fields[0].name, "n");
    let plan = put_plan(schema(), &rows, None, "/t?disposition=x").ok().unwrap();
    assert_eq!(plan.path, "/t?disposition=x");

    let refused = |schema, rows: &Vec<Json>, disposition| {
        let error = put_plan(schema, rows, disposition, "/t").err().unwrap();
        assert_eq!(error.kind, Kind::Invalid);
        error.message
    };
    assert_eq!(refused(None, &rows, None), "a put needs a `schema`");
    assert_eq!(refused(Some(Err("bad".to_string())), &rows, None), "schema: bad");
    assert!(refused(schema(), &vec![json("{\"n\":\"x\"}")], None).starts_with("arrow encode failed: "));
    assert_eq!(
        refused(schema(), &rows, Some("x")),
        "unknown write disposition `x` (append|merge)"
    );
}

#[test]
fn a_pipe_is_requested() {
    let request = |source: &str, destination: &str| PipeRequest {
        source: source.to_string(),
        destination: destination.to_string(),
    };
    let pipe = pipe_request(4, &request("/hn/items?x=1", "lake/tables/t")).unwrap();
    assert_eq!(pipe.id, 4);
    assert_eq!((pipe.source.mount.as_str(), pipe.source.path.as_str()), ("hn", "/items?x=1"));
    assert_eq!(pipe.destination.path, "/tables/t");
    assert!(pipe.cursor.is_none());
    let error = pipe_request(4, &request("/", "/")).unwrap_err();
    assert_eq!((error.kind, error.message.as_str()), (Kind::Internal, "`/` names no mount"));
    assert!(pipe_request(4, &request("/a", "?")).is_err());
}

#[test]
fn options_have_defaults() {
    let options = Options::new();
    assert_eq!(options.flight, "127.0.0.1:50051");
    assert_eq!(options.http, "127.0.0.1:8080");
    assert!(options.config.is_none() && !options.graphql);
    let options = Options::default()
        .config("c.toml")
        .flight("[::1]:1")
        .http("0.0.0.0:2")
        .graphql(true);
    assert_eq!(options.config.as_deref(), Some("c.toml"));
    assert_eq!((options.flight.as_str(), options.http.as_str()), ("[::1]:1", "0.0.0.0:2"));
    assert!(options.graphql);
}

// === Flight ===

fn parts(parts: &[&str]) -> Descriptor {
    Descriptor::Path(parts.iter().map(|p| p.to_string()).collect())
}

fn named(target: Result<Target, Status>) -> (String, String) {
    let target = target.unwrap();
    (target.provider, target.path)
}

#[test]
fn descriptors_name_a_flight() {
    let expected = ("gen".to_string(), "/data/x".to_string());
    assert_eq!(named(descriptor_target(&parts(&["gen", "/data/x"]))), expected);
    assert_eq!(named(descriptor_target(&parts(&["gen", "data", "x"]))), expected);
    assert_eq!(
        named(descriptor_target(&Descriptor::Cmd(b"gen\n/data/x".to_vec()))),
        expected
    );
    assert_eq!(
        named(descriptor_target(&Descriptor::Cmd(b"gen\na\nb".to_vec()))),
        ("gen".to_string(), "/a\nb".to_string())
    );
    let status = descriptor_target(&parts(&["gen"])).unwrap_err();
    assert_eq!(status.code, Code::InvalidArgument);
    assert_eq!(status.message, "descriptor path must be [provider, /endpoint/path]");
    assert!(descriptor_target(&Descriptor::Cmd(b"gen".to_vec())).is_err());
    assert_eq!(
        descriptor_target(&Descriptor::Other).unwrap_err().message,
        "unsupported descriptor type"
    );
}

#[test]
fn tickets_read_back() {
    let target = Target { provider: "gén".to_string(), path: "/d\n?x=1".to_string() };
    let ticket = make_ticket(&target);
    assert_eq!(ticket, "gén\n/d\n?x=1".as_bytes());
    assert_eq!(
        named(ticket_target(&ticket)),
        ("gén".to_string(), "/d\n?x=1".to_string())
    );
    assert_eq!(
        ticket_target(&b"gen".to_vec()).unwrap_err().message,
        "ticket must be `provider\\n/path`"
    );
    assert_eq!(
        named(ticket_target(&b"\xff\n/d".to_vec())),
        ("\u{fffd}".to_string(), "/d".to_string())
    );
}

#[test]
fn puts_name_a_flight_and_a_schema() {
    assert_eq!(put_target(None).unwrap_err().message, "DoPut stream was empty");
    assert_eq!(
        put_target(Some(None)).unwrap_err().message,
        "DoPut stream carried no FlightDescriptor"
    );
    assert_eq!(
        named(put_target(Some(Some(parts(&["a", "/b"]))))),
        ("a".to_string(), "/b".to_string())
    );
    assert_eq!(put_schema(None).unwrap_err().message, "DoPut stream carried no schema");
    let schema = Schema::new(vec![Field::new("n", DataType::Int64, false)]);
    let told = strata_schema_to_arrow_schema(&schema);
    assert!(put_schema(Some(&told)).unwrap().same(&schema));
}

#[test]
fn flights_are_advertised() {
    let mut registry = Registry::new();
    registry.mount::<Dummy, _>("gen", &ProviderConfig::default(), &|_| ()).unwrap();
    assert_eq!(provider_of(&registry, "gen").unwrap().backend, "dummy");
    let status = provider_of(&registry, "x").err().unwrap();
    assert_eq!(status.code, Code::NotFound);
    assert_eq!(status.message, "nothing mounted at `x`. mounted: gen");

    registry.mount::<Clickhouse, _>("ch", &ProviderConfig::default(), &|_| ()).unwrap();
    let all: Vec<String> = list_flights(&registry)
        .iter()
        .map(|f| format!("{} {}", f.provider, f.path))
        .collect();
    assert_eq!(
        all,
        ["ch /tables", "ch /tables/:table", "ch /tables/:table/:id", "ch /tables/:table", "gen /data"]
    );

    let mut endpoint = EndpointInfo::new(Method::List, "/data");
    endpoint.response = Schema::new(vec![Field::new("n", DataType::Int64, false)]);
    let flights = flights_of("gen", &vec![endpoint]);
    assert_eq!((flights[0].provider.as_str(), flights[0].path.as_str()), ("gen", "/data"));
    assert_eq!(flights[0].schema.fields[0].name, "n");

    assert_eq!(
        chunk_trailer(Some(&Cursor::at(3))).unwrap(),
        r#"{"next":"{\"offset\":3}","total":null}"#
    );
    assert_eq!(chunk_trailer(None), None);
    let status = Status::unimplemented("do_action");
    assert_eq!((status.code, status.message.as_str()), (Code::Unimplemented, "do_action is not supported"));
    assert_eq!(Status::internal("x".to_string()).code, Code::Internal);
}

// === GraphQL ===

#[test]
fn columns_have_graphql_types() {
    assert_eq!(type_ref(&DataType::Bool), "Boolean");
    assert_eq!(type_ref(&DataType::UInt64), graphql::LONG);
    assert_eq!(type_ref(&DataType::Float64), "Float");
    assert_eq!(type_ref(&DataType::Decimal), "String");
    assert_eq!(type_ref(&DataType::List(Box::new(DataType::Bool))), graphql::JSON);
    let schema = Schema::new(vec![
        Field::new("id", DataType::Int64, false),
        Field::new("at", DataType::Timestamp, true),
    ]);
    assert_eq!(
        row_object(&schema),
        [
            ("id".to_string(), "Long".to_string()),
            ("at".to_string(), "String".to_string())
        ]
    );
}

#[test]
fn graphql_reads_columns() {
    let row = json(r#"{"a":1,"b":null}"#);
    assert_eq!(field_value(&row, "a").unwrap().text(), "1");
    assert!(field_value(&row, "b").is_none());
    assert!(field_value(&row, "c").is_none());
    let rows = vec![json(r#"{"name":"a"}"#), json("{}"), json(r#"{"name":2}"#), json(r#"{"name":"b"}"#)];
    assert_eq!(graphql::tables(&rows), ["a", "b"]);
    let asked: Vec<String> = ["__typename", "id", "_x"].iter().map(|s| s.to_string()).collect();
    assert_eq!(selected(&asked), ["id", "_x"]);
}

#[test]
fn graphql_fields_stand_for_tables() {
    let found = |table: &str, queryable, known: bool| Found {
        mount: "local".to_string(),
        table: table.to_string(),
        queryable,
        row_schema: if known {
            Some(Schema::new(vec![Field::new("id", DataType::Int64, false)]))
        } else {
            None
        },
    };
    let fields = build_schema(&vec![
        found("a", true, true),
        found("b", false, true),
        found("c", true, false),
        found("d", true, true),
    ]);
    let names: Vec<&str> = fields.iter().map(|f| f.object_name.as_str()).collect();
    assert_eq!(names, ["local_a", "local_d"]);
    assert_eq!((fields[1].mount.as_str(), fields[1].table.as_str()), ("local", "d"));
    assert_eq!(fields[0].fields, [("id".to_string(), "Long".to_string())]);
}

// === Tools ===

#[test]
fn tools_answer() {
    let rows = mcp::list_answer(Some((vec![json("1")], Some(Cursor::empty()))));
    assert_eq!(rows.items.len(), 1);
    assert_eq!(rows.cursor.unwrap().text(), r#"{"total":null}"#);
    let rows = mcp::list_answer(None);
    assert!(rows.items.is_empty() && rows.cursor.is_none());
    assert_eq!(mcp::entity_of(Some(json("1")), json("2")).text(), "1");
    assert_eq!(mcp::entity_of(None, json("2")).text(), "2");
    assert_eq!(mcp::endpoints_of(&json(r#"{"endpoints":[1]}"#)).text(), "[1]");
    assert_eq!(mcp::endpoints_of(&json("[]")).text(), "null");
}

#[test]
fn flights_are_located() {
    let mut registry = Registry::new();
    registry.mount_object("a", 1).unwrap();
    registry.mount_object("b", 2).unwrap();
    let at = |found: Result<(&i32, String), Status>| found.map(|(p, path)| (*p, path)).unwrap();
    let path = "/x".to_string();
    assert_eq!(at(described(&registry, &parts(&["b", "x"]))), (2, path.clone()));
    assert_eq!(at(do_get(&registry, &b"a\n/x".to_vec())), (1, path.clone()));
    assert_eq!(at(do_put(&registry, Some(Some(parts(&["a", "/x"]))))), (1, path));

    let status = do_get(&registry, &b"c\n/x".to_vec()).unwrap_err();
    assert_eq!(status.code, Code::NotFound);
    assert_eq!(status.message, "nothing mounted at `c`. mounted: a, b");
    let status = do_put(&registry, Some(None)).unwrap_err();
    assert_eq!(status.code, Code::InvalidArgument);
    assert_eq!(status.message, "DoPut stream carried no FlightDescriptor");
    assert_eq!(described(&registry, &parts(&["c"])).unwrap_err().code, Code::InvalidArgument);
}

#[test]
fn a_command_names_a_flight() {
    let command = |text: &[u8]| descriptor_target(&Descriptor::Cmd(text.to_vec()));
    let target = command("gén\n/tables/é".as_bytes()).unwrap();
    assert_eq!((target.provider.as_str(), target.path.as_str()), ("gén", "/tables/é"));
    let ticket = make_ticket(&target);
    let again = command(&ticket).unwrap();
    assert_eq!((again.provider, again.path), (target.provider, target.path));
    let target = command(b"gen\ndata").unwrap();
    assert_eq!(target.path, "/data");
    assert!(command(b"gen").is_err());
}
