use strata::api::Query;
use strata::dataset::Disposition;
use strata::graphql;
use strata::json::Json;
use strata::mcp::{self, ListArgs};
use strata::request::{get_param, put_params, set_param, ReadRequest, WriteRequest};
use strata::server::path_with;

#[test]
fn a_param_that_was_set_is_read_back() {
    let path = set_param("/data?a=1&cursor=old&b=x+y", "cursor", Some("{\"offset\":2}&?="));
    assert_eq!(path, "/data?a=1&b=x+y&cursor=%7B%22offset%22%3A2%7D%26%3F%3D");
    assert_eq!(get_param(&path, "cursor"), Some("{\"offset\":2}&?=".to_string()));
    assert_eq!(get_param(&path, "a"), Some("1".to_string()));
    assert_eq!(get_param(&path, "b"), Some("x y".to_string()));
    assert_eq!(get_param(&path, "c"), None);
}

#[test]
fn a_param_is_taken_out() {
    assert_eq!(set_param("/data?cursor=1", "cursor", None), "/data");
    assert_eq!(set_param("/data?cursor=1&a=2&cursor=3", "cursor", None), "/data?a=2");
    assert_eq!(set_param("/data", "cursor", None), "/data");
    assert_eq!(set_param("/data?", "cursor", None), "/data");
}

#[test]
fn setting_a_param_twice_leaves_the_second() {
    let once = set_param("/data?a=1", "k", Some("v"));
    let twice = set_param(&once, "k", Some("w"));
    assert_eq!(twice, set_param("/data?a=1", "k", Some("w")));
    assert_eq!(twice, "/data?a=1&k=w");
}

#[test]
fn params_go_behind_a_path() {
    let pairs = vec![("a".to_string(), "1 2".to_string()), ("".to_string(), "".to_string())];
    let path = put_params("/data".to_string(), &pairs);
    assert_eq!(path, "/data?a=1+2&=");
    assert_eq!(get_param(&path, "a"), Some("1 2".to_string()));
    assert_eq!(put_params("/data".to_string(), &Vec::new()), "/data");
}

#[test]
fn read_requests_set_their_cursor() {
    assert_eq!(ReadRequest::new("/d?cursor=1&x=2").path(), "/d?x=2");
    assert_eq!(
        ReadRequest::new("/d").with_cursor(Some("t".to_string())).path(),
        "/d?cursor=t"
    );
    let cleared = ReadRequest::new("/d").with_cursor(Some("t".to_string())).with_cursor(None);
    assert_eq!(cleared.path(), "/d");
    let ordered = ReadRequest::new("/d?cursor_field=a").with_cursor_field(Some("b".to_string()));
    assert_eq!(ordered.path(), "/d?cursor_field=b");
    assert_eq!(ReadRequest::new("/d?cursor_field=a").path(), "/d?cursor_field=a");
}

#[test]
fn write_requests_set_their_disposition() {
    assert_eq!(WriteRequest::new("/t?disposition=merge").path(), "/t");
    assert_eq!(
        WriteRequest::new("/t?a=1").with_disposition(Disposition::Merge).path(),
        "/t?a=1&disposition=merge"
    );
}

#[test]
fn dispositions_read_back() {
    for disposition in [Disposition::Append, Disposition::Merge] {
        assert_eq!(
            Disposition::from_param(Some(disposition.as_param())).unwrap(),
            disposition
        );
    }
    assert_eq!(Disposition::from_param(None).unwrap(), Disposition::Append);
    assert_eq!(Disposition::from_param(Some("upsert")).unwrap(), Disposition::Merge);
    assert_eq!(Disposition::default(), Disposition::Append);
    assert_eq!(Disposition::PARAM, "disposition");
    assert_eq!(
        Disposition::from_param(Some("x")).unwrap_err().text(),
        "unknown write disposition `x` (append|merge)"
    );
}

#[test]
fn values_are_percent_encoded() {
    let encoded = |value: &str| {
        let query = Query { fields: Some(value.to_string()), ..Query::default() };
        path_with("/d", &query).strip_prefix("/d?fields=").unwrap().to_string()
    };
    assert_eq!(encoded("azAZ09-_.~"), "azAZ09-_.~");
    assert_eq!(encoded("a b+c/d?e&f=g%"), "a%20b%2Bc%2Fd%3Fe%26f%3Dg%25");
    assert_eq!(encoded("\u{7f}\u{e9}\u{20ac}\u{1f600}"), "%7F%C3%A9%E2%82%AC%F0%9F%98%80");
}

#[test]
fn a_read_carries_its_query() {
    let query = Query {
        cursor: Some("{\"offset\":2}".to_string()),
        limit: Some(5),
        filter: Some("{\"and\":[]}".to_string()),
        fields: Some("id, näme".to_string()),
        cursor_field: Some("at".to_string()),
    };
    let path = path_with("/local/tables/t?x=1&cursor=old", &query);
    assert_eq!(
        path,
        "/local/tables/t?x=1&cursor=%7B%22offset%22%3A2%7D&cursor_field=at&limit=5&filter=%7B%22and%22%3A%5B%5D%7D&fields=id%2C%20n%C3%A4me"
    );
    for (key, value) in [
        ("x", "1"),
        ("cursor", "{\"offset\":2}"),
        ("cursor_field", "at"),
        ("limit", "5"),
        ("filter", "{\"and\":[]}"),
        ("fields", "id, näme"),
    ] {
        assert_eq!(get_param(&path, key), Some(value.to_string()));
    }
    assert_eq!(path_with("/d?cursor=old", &Query::default()), "/d");
    let limited = Query { limit: Some(1), ..Query::default() };
    assert_eq!(path_with("/d", &limited), "/d?limit=1");
}

#[test]
fn a_graphql_read_carries_what_is_asked() {
    let filter = Json::from_text(r#"{"cmp":{"field":"id","op":"gte","value":20}}"#).unwrap();
    let fields = vec!["id".to_string(), "name".to_string()];
    let path = graphql::read_path("bench", Some(&filter), &fields, Some(25));
    assert!(path.starts_with("/tables/bench?filter="));
    assert_eq!(get_param(&path, "filter"), Some(filter.text()));
    assert_eq!(get_param(&path, "fields"), Some("id,name".to_string()));
    assert_eq!(get_param(&path, "limit"), Some("25".to_string()));
    assert_eq!(graphql::read_path("bench", None, &Vec::new(), None), "/tables/bench");
}

#[test]
fn a_tool_read_carries_what_is_asked() {
    let args = |cursor: Option<&str>, limit, filter: Option<&str>, fields: Option<Vec<String>>| {
        ListArgs {
            provider: "local".to_string(),
            path: "/tables/t".to_string(),
            cursor: cursor.map(|c| c.to_string()),
            limit,
            filter: filter.map(|f| Json::from_text(f).unwrap()),
            fields,
        }
    };
    let path = mcp::read_path(&args(
        Some("c d"),
        Some(3),
        Some("{\"or\":[]}"),
        Some(vec!["a".to_string(), "b".to_string()]),
    ));
    assert_eq!(path, "/tables/t?cursor=c+d&limit=3&filter=%7B%22or%22%3A%5B%5D%7D&fields=a%2Cb");
    assert_eq!(mcp::read_path(&args(None, None, None, Some(Vec::new()))), "/tables/t");
    assert_eq!(mcp::read_path(&args(None, None, None, None)), "/tables/t");
}
