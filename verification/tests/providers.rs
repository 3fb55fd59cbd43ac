use strata::config::ProviderConfig;
use strata::json::Json;
use strata::page::resume_offset;
use strata::provider::Provider;
use strata::providers::clickhouse::{self, Clickhouse};
use strata::providers::congress::{self, Congress, Window};
use strata::providers::dummy::{generate, schema_param};
use strata::providers::iceberg::{
    self, check_put, file_prefix, warehouse_dir, Iceberg, Pulled, PutAction, PutEvent, PutTable,
    Scan, ScanAction,
};
use strata::providers::sql::filter::{Filter, Op};
use strata::providers::sql::is_table_not_found;
use strata::providers::sql::table::SqlCursor;
use strata::providers::substack;
use strata::schema::{DataType, Field, Schema};

fn json(text: &str) -> Json {
    Json::from_text(text).unwrap()
}

fn settings(params: &[(&str, &str)]) -> ProviderConfig {
    ProviderConfig {
        params: params.iter().map(|(k, v)| (k.to_string(), v.to_string())).collect(),
        ..ProviderConfig::default()
    }
}

fn pairs(query: Vec<(String, String)>) -> Vec<String> {
    query.into_iter().map(|(k, v)| format!("{k}={v}")).collect()
}

fn schema() -> Schema {
    let mut id = Field::new("id", DataType::Int64, true);
    id.annotate("key", "");
    Schema::new(vec![
        id,
        Field::new("na`me", DataType::String, true),
        Field::new("tags", DataType::List(Box::new(DataType::String)), false),
    ])
}

// === ClickHouse ===

#[test]
fn clickhouse_asks_with_its_settings() {
    let config = settings(&[("url", "http://h:8123"), ("database", "db"), ("user", "u")]);
    let server = Clickhouse::new(&config).unwrap();
    assert_eq!(server.url, "http://h:8123");
    assert_eq!(server.user, "u");
    assert_eq!(server.password, "");
    assert_eq!(
        pairs(server.query()),
        ["database=db", "date_time_input_format=best_effort"]
    );
}

#[test]
fn clickhouse_rows_are_read_line_by_line() {
    let rows = clickhouse::query_rows("{\"a\":1}\r\n\n   \n{\"a\":2}\n").unwrap();
    assert_eq!(rows.len(), 2);
    assert_eq!(rows[1].get("a").unwrap().as_i64(), Some(2));
    assert!(clickhouse::query_rows("").unwrap().is_empty());
    let failure = clickhouse::query_rows("{\"a\":1}\n{").unwrap_err();
    assert_eq!(failure.brief(), "parsing clickhouse JSON row");
    assert_eq!(
        failure.text(),
        "parsing clickhouse JSON row: EOF while parsing an object at line 1 column 1"
    );
}

#[test]
fn clickhouse_lists_its_tables() {
    assert_eq!(
        clickhouse::tables_sql(),
        "SELECT name FROM system.tables WHERE database = currentDatabase() ORDER BY name FORMAT JSONEachRow"
    );
    let rows = vec![json(r#"{"name":"a"}"#), json(r#"{"name":"b","x":1}"#)];
    assert_eq!(clickhouse::table_names(&rows).unwrap(), ["a", "b"]);
    let rows = vec![json(r#"{"name":1}"#)];
    assert_eq!(
        clickhouse::table_names(&rows).unwrap_err().text(),
        "table row missing `name`"
    );
}

#[test]
fn clickhouse_columns_are_read() {
    assert_eq!(
        clickhouse::columns_sql("o'b"),
        "SELECT name, type, is_in_primary_key FROM system.columns WHERE database = currentDatabase() AND table = 'o''b' ORDER BY position FORMAT JSONEachRow"
    );
    let column = |declared: &str| {
        let row = json(&format!(r#"{{"name":"c","type":"{declared}"}}"#));
        clickhouse::table_columns(&vec![row]).map(|mut columns| columns.remove(0))
    };
    let c = column("Nullable(Decimal(38, 10))").unwrap();
    assert!(matches!(c.data_type, DataType::Decimal));
    assert!(c.nullable);
    let c = column("UInt256").unwrap();
    assert!(matches!(c.data_type, DataType::Int64));
    assert!(!c.nullable);
    assert!(matches!(column("Bool").unwrap().data_type, DataType::Bool));
    assert!(matches!(column("Float32").unwrap().data_type, DataType::Float64));
    assert!(matches!(column("DateTime64(3)").unwrap().data_type, DataType::Timestamp));
    assert!(matches!(column("Date32").unwrap().data_type, DataType::Date));
    assert!(matches!(column("Map(String, Int8)").unwrap().data_type, DataType::Json));
    assert!(matches!(column("FixedString(16)").unwrap().data_type, DataType::String));
    // A wrapper that is not closed is no wrapper.
    assert_eq!(
        column("Nullable(Int8").unwrap_err().text(),
        "unsupported SQL column type: `Nullable`"
    );
    assert_eq!(
        column("Point(1)").unwrap_err().text(),
        "unsupported SQL column type: `Point`"
    );
    let listed = clickhouse::table_columns(&vec![json(r#"["c","Nullable(Date)"]"#)]).unwrap();
    assert_eq!(listed[0].name, "c");
    assert!(listed[0].nullable);
    assert!(!listed[0].is_key());
    let listed = clickhouse::table_columns(&vec![json(r#"["c","Date",1]"#)]).unwrap();
    assert!(listed[0].is_key());
}

#[test]
fn a_clickhouse_column_row_that_cannot_be_read_is_refused() {
    for (row, cause) in [
        (r#"{"name":"c"}"#, "missing field `type`"),
        (r#"{"type":"Date"}"#, "missing field `name`"),
        (r#"{}"#, "missing field `name`"),
        (r#"{"name":1,"type":2}"#, "invalid type: integer `1`, expected a string"),
        (r#"{"name":"c","type":null}"#, "invalid type: null, expected a string"),
        (r#"{"name":"c","type":-2}"#, "invalid type: integer `-2`, expected a string"),
        (r#"{"name":"c","type":1.5}"#, "invalid type: floating point `1.5`, expected a string"),
        (r#"{"name":"c","type":true}"#, "invalid type: boolean `true`, expected a string"),
        (r#"{"name":"c","type":[]}"#, "invalid type: sequence, expected a string"),
        (r#"{"type":{}}"#, "invalid type: map, expected a string"),
        (r#""a\"b""#, "invalid type: string \"a\\\"b\", expected struct RawColumn"),
        (r#"[]"#, "invalid length 0, expected struct RawColumn with 3 elements"),
        (r#"["c"]"#, "invalid length 1, expected struct RawColumn with 3 elements"),
        (r#"["c",1]"#, "invalid type: integer `1`, expected a string"),
        (r#"["c","Date",1,2]"#, "invalid length 4, expected fewer elements in array"),
    ] {
        let failure = clickhouse::table_columns(&vec![json(row)]).unwrap_err();
        assert_eq!(failure.text(), format!("decoding column row: {cause}"));
        assert_eq!(failure.brief(), "decoding column row");
    }
}

#[test]
fn a_clickhouse_key_comes_back() {
    let mut id = Field::new("id", DataType::Int64, true);
    id.annotate("key", "");
    let schema = Schema::new(vec![id, Field::new("name", DataType::String, true)]);
    assert_eq!(
        clickhouse::create_sql("t", &schema),
        "CREATE TABLE `t` (`id` Int64, `name` Nullable(String)) ENGINE = ReplacingMergeTree ORDER BY (`id`)"
    );
    let rows = vec![
        json(r#"{"name":"id","type":"Int64","is_in_primary_key":1}"#),
        json(r#"{"name":"name","type":"Nullable(String)","is_in_primary_key":0}"#),
    ];
    let columns = clickhouse::table_columns(&rows).unwrap();
    let back = clickhouse::table_schema("t", columns).unwrap();
    assert_eq!(back.fields[0].name, "id");
    assert!(matches!(back.fields[0].data_type, DataType::Int64));
    assert!(back.fields[0].is_key(), "`id` must round-trip as the key");
    assert!(!back.fields[0].nullable);
    assert!(!back.fields[1].is_key(), "`name` is not a key");
    assert!(back.fields[1].nullable);
    assert_eq!(back.get_key_fields(), ["id"]);
    // The table is there now, and has what the schema asks for.
    assert_eq!(clickhouse::upsert_table("t", &schema, &back).unwrap(), None);
    let none = Schema::new(vec![]);
    assert!(clickhouse::upsert_table("t", &schema, &none).unwrap().is_some());
}

#[test]
fn clickhouse_column_types_come_back() {
    for (data_type, same) in [
        (DataType::Bool, true),
        (DataType::Int64, true),
        (DataType::UInt64, false),
        (DataType::Float64, true),
        (DataType::Decimal, true),
        (DataType::Timestamp, true),
        (DataType::Date, true),
        (DataType::Bytes, false),
        (DataType::Json, false),
    ] {
        let schema = Schema::new(vec![Field::new("c", data_type.clone(), false)]);
        let sql = clickhouse::create_sql("t", &schema);
        let stored = sql
            .strip_prefix("CREATE TABLE `t` (`c` ")
            .and_then(|s| s.strip_suffix(") ENGINE = MergeTree ORDER BY tuple()"))
            .unwrap();
        assert_eq!(clickhouse::data_type_to_ch(&data_type), stored);
        let read = clickhouse::ch_to_data_type(stored).unwrap();
        assert_eq!(read.same(&data_type), same, "{stored}");
        let row = json(&format!(r#"{{"name":"c","type":"{stored}"}}"#));
        let back = clickhouse::table_columns(&vec![row]).unwrap().remove(0);
        assert_eq!(back.data_type.same(&data_type), same, "{stored}");
    }
}

#[test]
fn a_clickhouse_table_without_columns_is_absent() {
    let failure = clickhouse::table_schema("t", Vec::new()).unwrap_err();
    assert!(is_table_not_found(&failure));
    assert_eq!(failure.text(), "table `t` not found");
    let found = clickhouse::table_schema("t", schema().fields).unwrap();
    assert!(found.same(&schema()));
}

#[test]
fn clickhouse_reads_a_page() {
    let cursor = SqlCursor { offset: 20, limit: 10, cursor: Some("at".to_string()) };
    let filter = Filter::Cmp { field: "a".to_string(), op: Op::Eq, value: json("1") };
    assert_eq!(
        clickhouse::rows_sql("t", &cursor, Some(&filter)).unwrap(),
        "SELECT * FROM `t` FINAL WHERE `a` = 1 ORDER BY `at` ASC LIMIT 10 OFFSET 20 SETTINGS output_format_json_quote_64bit_integers = 0 FORMAT JSONEachRow"
    );
    let cursor = SqlCursor { offset: 0, limit: 1, cursor: None };
    assert_eq!(
        clickhouse::rows_sql("a`b", &cursor, None).unwrap(),
        "SELECT * FROM `a``b` FINAL LIMIT 1 OFFSET 0 SETTINGS output_format_json_quote_64bit_integers = 0 FORMAT JSONEachRow"
    );
    assert!(clickhouse::rows_sql("t", &cursor, Some(&Filter::Or(Vec::new()))).is_err());
}

#[test]
fn clickhouse_creates_a_table_where_it_is_absent() {
    let none = Schema::new(Vec::new());
    assert_eq!(
        clickhouse::upsert_table("t", &schema(), &none).unwrap().unwrap(),
        "CREATE TABLE `t` (`id` Int64, `na``me` Nullable(String), `tags` String) ENGINE = ReplacingMergeTree ORDER BY (`id`)"
    );
    assert!(clickhouse::upsert_table("t", &schema(), &schema()).unwrap().is_none());
    let fewer = Schema::new(vec![Field::new("id", DataType::Int64, false)]);
    assert!(clickhouse::upsert_table("t", &fewer, &schema()).unwrap().is_none());
    assert_eq!(
        clickhouse::upsert_table("t", &schema(), &fewer).unwrap_err().text(),
        "column `na`me` not present in existing table `t`"
    );
}

#[test]
fn clickhouse_inserts_rows() {
    let rows = vec![
        json(r#"{"id":1,"na`me":"a","tags":["x"],"other":1}"#),
        json(r#"{"id":2,"tags":null}"#),
    ];
    let (statement, result) = clickhouse::write_table("t", &schema(), &rows);
    assert_eq!(
        statement.unwrap(),
        "INSERT INTO `t` FORMAT JSONEachRow\n{\"id\":1,\"na`me\":\"a\",\"tags\":\"[\\\"x\\\"]\"}\n{\"id\":2,\"na`me\":null,\"tags\":null}\n"
    );
    assert_eq!(
        (result.table.as_str(), result.created, result.rows_written),
        ("t", false, 2)
    );
    let (statement, result) = clickhouse::write_table("t", &schema(), &Vec::new());
    assert!(statement.is_none());
    assert_eq!(result.rows_written, 0);
}

// === congress.gov and Substack ===

#[test]
fn congress_asks_for_one_row_more() {
    let congress = Congress::new(&settings(&[("api_key", "k")])).unwrap();
    assert_eq!(pairs(congress.query()), ["format=json", "api_key=k"]);
    let window = congress::page_window(Some("{\"offset\":40}"), None).unwrap();
    assert_eq!((window.offset, window.limit), (40, 20));
    assert_eq!(pairs(congress::page_query(&window)), ["offset=40", "limit=21"]);
    let window = congress::page_window(None, Some(1000)).unwrap();
    assert_eq!((window.offset, window.limit), (0, 249));
    assert!(congress::page_window(Some("x"), None).is_err());
}

#[test]
fn congress_pages_follow_on() {
    let window = Window { offset: 40, limit: 2 };
    let page = congress::page_of(&window, vec![1, 2, 3]);
    assert_eq!(page.items, [1, 2]);
    assert_eq!(resume_offset(page.cursor.next.as_deref()).unwrap(), 42);
    let page = congress::page_of(&window, vec![1, 2]);
    assert_eq!(page.items, [1, 2]);
    assert!(page.cursor.next.is_none());
}

#[test]
fn congress_rows_come_in_an_envelope() {
    let body = json(r#"{"bills":[1,2],"pagination":{}}"#);
    assert_eq!(congress::envelope(&body, "bills").unwrap().text(), "[1,2]");
    assert_eq!(
        congress::envelope(&body, "members").unwrap_err().text(),
        "congress response missing `members`"
    );
    assert_eq!(
        congress::hearing_path(119, "House ÉTÉ", 58512),
        "/hearing/119/house été/58512"
    );
}

#[test]
fn substack_asks_for_one_post_more() {
    let request = substack::archive_request("a.substack.com", Some("{\"offset\":3}"), Some(500)).unwrap();
    assert_eq!(request.url, "https://a.substack.com/api/v1/archive");
    assert_eq!(request.limit, 99);
    let page = substack::page_of(&request, (0..100).collect::<Vec<i32>>());
    assert_eq!(page.items.len(), 99);
    assert_eq!(resume_offset(page.cursor.next.as_deref()).unwrap(), 102);
    assert_eq!(pairs(request.query), ["sort=new", "limit=100", "offset=3"]);
    assert!(substack::archive_request("a", Some("["), None).is_err());
    let request = substack::archive_request("a", None, None).unwrap();
    assert_eq!((request.offset, request.limit), (0, 20));
}

// === Generated rows ===

#[test]
fn generated_pages_cover_all_rows() {
    let mut token: Option<String> = None;
    let mut ranges = Vec::new();
    loop {
        let page = generate(None, token.as_deref(), Some(10), Some("25")).unwrap();
        ranges.push((page.start, page.end));
        token = page.cursor.next;
        if token.is_none() {
            break;
        }
    }
    assert_eq!(ranges, [(0, 10), (10, 20), (20, 25)]);
}

#[test]
fn generated_rows_have_defaults_and_bounds() {
    let page = generate(None, None, None, None).unwrap();
    assert_eq!((page.seed, page.start, page.end), (0, 0, 100));
    let page = generate(Some("7"), Some("{\"offset\":99999}"), Some(5000), Some("99999")).unwrap();
    assert_eq!((page.seed, page.start, page.end), (7, 10_000, 10_000));
    assert!(page.cursor.next.is_none());
    let page = generate(Some("x"), None, Some(5000), Some("-1")).unwrap();
    assert_eq!((page.seed, page.end), (0, 1000));
    assert!(generate(None, Some("{"), None, None).is_err());
    assert_eq!(schema_param(Some("{}")).unwrap(), "{}");
    assert_eq!(
        schema_param(None).unwrap_err().text(),
        "`schema` is required: a JSON-encoded DataType"
    );
}

// === Iceberg ===

#[test]
fn an_iceberg_warehouse_is_located() {
    assert_eq!(warehouse_dir(""), "./warehouse");
    assert_eq!(warehouse_dir("/w"), "/w");
    let at = Iceberg::at("/tmp/w");
    assert_eq!(at.warehouse, "file:///tmp/w");
    assert_eq!(at.db_uri, "sqlite:///tmp/w/catalog.db?mode=rwc");
    assert_eq!(at.dir, "/tmp/w");
    let here = |warehouse: &str, dir: &str| {
        Iceberg::new(&settings(&[("warehouse", warehouse), ("current_dir", dir)])).unwrap().dir
    };
    assert_eq!(here("", "/home/me"), "/home/me/./warehouse");
    assert_eq!(here("w", "/home/me"), "/home/me/w");
    assert_eq!(here("w", "/"), "/w");
    assert_eq!(here("w", ""), "w");
    assert_eq!(here("/w", "/home/me"), "/w");
    assert_eq!(Iceberg::located("w", "/home").db_uri, "sqlite:///home/w/catalog.db?mode=rwc");
    let made = Iceberg::new(&settings(&[("warehouse", "/x")])).unwrap();
    assert_eq!(made.warehouse, "file:///x");
}

#[test]
fn iceberg_tables_are_listed_in_order() {
    let names: Vec<String> = ["c", "a", "b"].iter().map(|s| s.to_string()).collect();
    let page = iceberg::list_tables(&names, None, Some(2)).unwrap();
    let listed: Vec<&str> = page.items.iter().map(|t| t.name.as_str()).collect();
    assert_eq!(listed, ["a", "b"]);
    let page = iceberg::list_tables(&names, page.cursor.next.as_deref(), Some(2)).unwrap();
    let listed: Vec<&str> = page.items.iter().map(|t| t.name.as_str()).collect();
    assert_eq!(listed, ["c"]);
    assert!(page.cursor.next.is_none());
    let page = iceberg::list_tables(&names, Some("{\"offset\":9}"), None).unwrap();
    assert!(page.items.is_empty() && page.cursor.next.is_none());
    assert!(iceberg::list_tables(&names, Some("{"), None).is_err());
}

/// The pages that a scan of the batches yields, each with its token.
fn scanned(batches: &[Vec<i32>], offset: u32) -> Vec<(Vec<i32>, Option<String>)> {
    let mut scan = Scan::new(offset);
    let mut held: Vec<i32> = Vec::new();
    let mut pages = Vec::new();
    let mut pulls = batches.iter();
    loop {
        let batch = pulls.next();
        let pulled = match batch {
            Some(batch) => Pulled::Batch(batch.len() as u32),
            None => Pulled::End,
        };
        match scan.step(pulled) {
            ScanAction::Skip => {}
            ScanAction::Begin(skip) => held = batch.unwrap()[skip as usize..].to_vec(),
            ScanAction::Yield(cursor) => {
                pages.push((held.clone(), cursor.next));
                match batch {
                    Some(batch) => held = batch.clone(),
                    None => return pages,
                }
            }
            ScanAction::Fail => panic!("no pull fails"),
            ScanAction::Done => return pages,
        }
    }
}

#[test]
fn a_resumed_scan_yields_the_rest() {
    let batches = [vec![0, 1, 2], vec![], vec![3, 4], vec![5, 6, 7, 8]];
    let all: Vec<i32> = batches.concat();
    for offset in 0..all.len() + 3 {
        let rows: Vec<i32> =
            scanned(&batches, offset as u32).into_iter().flat_map(|(rows, _)| rows).collect();
        assert_eq!(rows, all.iter().copied().skip(offset).collect::<Vec<i32>>());
    }
}

#[test]
fn scans_resume_behind_their_pages() {
    let batches = [vec![0, 1, 2], vec![], vec![3, 4], vec![5]];
    let token = |offset: u32| Some(format!("{{\"offset\":{offset}}}"));
    assert_eq!(
        scanned(&batches, 1),
        vec![
            (vec![1, 2], token(3)),
            (vec![], token(3)),
            (vec![3, 4], token(5)),
            (vec![5], None),
        ]
    );
    assert_eq!(scanned(&batches, 3), vec![(vec![3, 4], token(5)), (vec![5], None)]);
    assert_eq!(scanned(&batches, 5), vec![(vec![5], None)]);
    assert_eq!(scanned(&batches, 6), vec![]);
    assert_eq!(scanned(&[], 0), vec![]);
}

#[test]
fn a_failed_pull_ends_a_scan() {
    let mut scan = Scan::new(0);
    assert!(matches!(scan.step(Pulled::Batch(2)), ScanAction::Begin(0)));
    assert!(matches!(scan.step(Pulled::Failed), ScanAction::Fail));
    assert!(matches!(scan.step(Pulled::End), ScanAction::Done));
    let mut scan = Scan::new(4);
    assert!(matches!(scan.step(Pulled::Failed), ScanAction::Fail));
}

#[test]
fn what_is_put_is_scanned_once() {
    let chunks = [vec![4, 5], vec![], vec![6], vec![7, 8, 9]];
    let mut table = vec![vec![1, 2, 3]];
    let (mut put, _) = PutTable::new("t", None, &schema()).unwrap();
    put.step(PutEvent::Namespace(true));
    put.step(PutEvent::Table(true));
    assert_eq!(put.step(PutEvent::Opened), PutAction::Pull);
    for chunk in &chunks {
        if put.step(PutEvent::Pulled(chunk.len() as u64)) == PutAction::Write {
            table.insert(0, chunk.clone());
            assert_eq!(put.step(PutEvent::Written), PutAction::Pull);
        }
    }
    assert_eq!(table.len(), 4);
    assert_eq!(put.result.rows_written, 6);
    let mut rows: Vec<i32> = scanned(&table, 0).into_iter().flat_map(|(rows, _)| rows).collect();
    rows.sort();
    assert_eq!(rows, [1, 2, 3, 4, 5, 6, 7, 8, 9]);
}

#[test]
fn iceberg_writes_are_one_snapshot() {
    let (mut put, first) = PutTable::new("t", None, &schema()).unwrap();
    assert_eq!(first, PutAction::FindNamespace);
    let events = [
        (PutEvent::Namespace(false), PutAction::CreateNamespace),
        (PutEvent::NamespaceCreated, PutAction::FindTable),
        (PutEvent::Table(false), PutAction::CreateTable),
        (PutEvent::Opened, PutAction::Pull),
        (PutEvent::Pulled(3), PutAction::Write),
        (PutEvent::Written, PutAction::Pull),
        (PutEvent::Pulled(0), PutAction::Pull),
        (PutEvent::Pulled(2), PutAction::Write),
        (PutEvent::Written, PutAction::Pull),
        (PutEvent::Ended, PutAction::Close),
        (PutEvent::Closed, PutAction::Commit),
        (PutEvent::Committed, PutAction::Done),
    ];
    for (event, action) in events {
        assert_eq!(put.step(event), action);
    }
    assert_eq!(put.result.table, "t");
    assert_eq!((put.result.created, put.result.rows_written), (true, 5));

    let (mut put, _) = PutTable::new("t", Some("append"), &schema()).unwrap();
    assert_eq!(put.step(PutEvent::Namespace(true)), PutAction::FindTable);
    assert_eq!(put.step(PutEvent::Table(true)), PutAction::LoadTable);
    assert!(!put.result.created);
}

#[test]
fn iceberg_only_appends() {
    assert!(check_put(None, &schema()).is_ok());
    assert_eq!(
        check_put(Some("merge"), &Schema::new(Vec::new())).unwrap_err().text(),
        "iceberg sink supports only `append` (merge is not yet implemented)"
    );
    assert_eq!(
        check_put(Some("append"), &Schema::new(Vec::new())).unwrap_err().text(),
        "dataset schema has no columns"
    );
    assert!(check_put(Some("x"), &schema()).is_err());
    assert_eq!(
        PutTable::new("t", Some("merge"), &schema()).unwrap_err().text(),
        "iceberg sink supports only `append` (merge is not yet implemented)"
    );
    assert_eq!(file_prefix(u128::MAX), "strata-340282366920938463463374607431768211455");
    assert_ne!(file_prefix(1), file_prefix(10));
}
