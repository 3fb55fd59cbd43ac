use strata::dataset::Disposition;
use strata::error::Failure;
use strata::json::Json;
use strata::page::{offset_of, page_limit, resume_offset, Cursor, Page};
use strata::paging::probed_page;
use strata::providers::sql::filter::{Filter, Op};
use strata::providers::sql::projection::{
    get_projection, has_name, project_row, project_rows, project_schema,
};
use strata::providers::sql::table::{
    enrich, get_row, list_tables, needs_upsert, next_cursor, normalize_temporals, resolve_cursor,
    table_data_schema, table_get, table_page, table_stream, write_table, SqlCursor, StreamWrite,
    Temporal, WriteAction, WriteEvent, WriteResult, FIELDS_PARAM, FILTER_PARAM,
};
use strata::schema::{DataType, Field, Schema};

fn json(text: &str) -> Json {
    Json::from_text(text).unwrap()
}

fn texts(rows: &Vec<Json>) -> Vec<String> {
    rows.iter().map(|row| row.text()).collect()
}

fn names(schema: &Schema) -> Vec<&str> {
    schema.fields.iter().map(|f| f.name.as_str()).collect()
}

fn events() -> Schema {
    let mut id = Field::new("id", DataType::Int64, false);
    id.annotate("key", "");
    Schema::new(vec![
        id,
        Field::new("Created_At", DataType::Timestamp, true),
        Field::new("day", DataType::Date, true),
        Field::new("name", DataType::String, true),
    ])
}

/// A canonical form for trying things out: a `T` in place of the blank.
fn canonical(kind: Temporal, text: &str) -> Option<String> {
    match kind {
        Temporal::Timestamp if text.len() == 19 => Some(text.replace(' ', "T") + "Z"),
        Temporal::Timestamp => None,
        Temporal::Date => Some(text.to_string()),
    }
}

fn no_filter() -> Result<Option<Filter>, Failure> {
    Ok(None)
}

#[test]
fn offsets_read_back_from_their_tokens() {
    for offset in [0, 1, 20, u32::MAX] {
        let cursor = Cursor::at(offset);
        assert_eq!(cursor.next, Some(format!("{{\"offset\":{offset}}}")));
        assert_eq!(resume_offset(cursor.next.as_deref()).unwrap(), offset);
    }
    assert_eq!(resume_offset(None).unwrap(), 0);
    assert_eq!(resume_offset(Some("{}")).unwrap(), 0);
    assert!(resume_offset(Some("{")).unwrap_err().text().starts_with("decoding cursor: "));
    assert!(resume_offset(Some("{\"offset\":-1}")).is_err());
    assert!(resume_offset(Some("{\"offset\":4294967296}")).is_err());
    for twice in [
        r#"{"offset":1,"offset":2}"#,
        r#"{"offset":1,"\u006fffset":2}"#,
        r#"{"a":{"offset":7},"offset":1,"b":"\"","offset":[1]}"#,
    ] {
        assert_eq!(
            resume_offset(Some(twice)).unwrap_err().text(),
            "decoding cursor: duplicate field `offset`"
        );
    }
    let once = r#"{"a":{"offset":7,"offset":8},"b":["offset",{"offset":1}],"c":"offset","offset":3}"#;
    assert_eq!(resume_offset(Some(once)).unwrap(), 3);
    assert_eq!(offset_of(&json("[]")).unwrap(), 0);
    assert_eq!(offset_of(&json("[9]")).unwrap(), 9);
    assert_eq!(
        offset_of(&json("[9,1]")).unwrap_err().text(),
        "decoding cursor: more than an offset"
    );
    assert_eq!(offset_of(&json("9")).unwrap_err().text(), "decoding cursor: not an object");
    assert_eq!(offset_of(&json("{\"offset\":7,\"x\":1}")).unwrap(), 7);
}

#[test]
fn cursors_carry_a_state() {
    let cursor = Cursor::new(&json("{\"page\": 3}")).unwrap();
    assert_eq!(cursor.next.as_deref(), Some("{\"page\":3}"));
    assert_eq!(cursor.total, None);
    assert_eq!(cursor.to_json().text(), r#"{"next":"{\"page\":3}","total":null}"#);
    let last = Cursor { next: None, total: Some(4) };
    assert_eq!(last.to_json().text(), r#"{"total":4}"#);
    assert_eq!(Cursor::empty().to_json().text(), Cursor::default().to_json().text());
    assert_eq!(last.clone().total, Some(4));
    let page = Page::new(vec![1, 2], last);
    assert_eq!((page.items, page.cursor.total), (vec![1, 2], Some(4)));
}

#[test]
fn page_sizes_are_bounded() {
    assert_eq!(page_limit(None, 10, 1000), 10);
    assert_eq!(page_limit(Some(5), 10, 1000), 5);
    assert_eq!(page_limit(Some(5000), 10, 1000), 1000);
    assert_eq!(page_limit(None, 10, 3), 3);
    assert_eq!(page_limit(Some(0), 10, 1000), 0);
}

#[test]
fn one_row_more_says_that_a_page_follows() {
    let page = probed_page(vec!['a', 'b', 'c'], 4, 2);
    assert_eq!(page.items, ['a', 'b']);
    assert_eq!(resume_offset(page.cursor.next.as_deref()).unwrap(), 6);
    let page = probed_page(vec!['a', 'b'], 4, 2);
    assert_eq!(page.items, ['a', 'b']);
    assert!(page.cursor.next.is_none());
}

#[test]
fn a_full_page_is_followed_by_another() {
    let cursor = SqlCursor { offset: 20, limit: 10, cursor: None };
    assert_eq!(
        next_cursor(&cursor, 10).unwrap().next.as_deref(),
        Some("{\"offset\":30}")
    );
    assert_eq!(next_cursor(&cursor, 9).unwrap().next, None);
    assert_eq!(next_cursor(&SqlCursor::default(), 0).unwrap().next, None);
}

#[test]
fn projections_are_read() {
    assert_eq!(FIELDS_PARAM, "fields");
    assert_eq!(get_projection(None), None);
    assert_eq!(get_projection(Some(" , ,")), None);
    assert_eq!(get_projection(Some("")), None);
    assert_eq!(
        get_projection(Some(" id ,name,,id")),
        Some(vec!["id".to_string(), "name".to_string(), "id".to_string()])
    );
}

#[test]
fn projections_keep_the_order_of_the_schema() {
    let schema = events();
    let columns = vec!["name".to_string(), "id".to_string()];
    let narrowed = project_schema(&schema, Some(&columns)).unwrap();
    assert_eq!(names(&narrowed), ["id", "name"]);
    assert!(narrowed.fields[0].is_key());
    assert!(project_schema(&schema, None).unwrap().same(&schema));
    let unknown = vec!["id".to_string(), "x".to_string(), "y".to_string()];
    assert_eq!(
        project_schema(&schema, Some(&unknown)).unwrap_err().text(),
        "unknown projected column `x`"
    );
    assert!(has_name(&columns, "id"));
    assert!(!has_name(&columns, "ID"));
}

#[test]
fn rows_are_projected() {
    let schema = Schema::new(vec![Field::new("name", DataType::String, true)]);
    let mut rows = vec![json(r#"{"id":1,"name":"a"}"#), json("3"), json("{}")];
    project_rows(&schema, &mut rows);
    assert_eq!(texts(&rows), [r#"{"name":"a"}"#, "3", "{}"]);
    project_rows(&schema, &mut rows);
    assert_eq!(texts(&rows), [r#"{"name":"a"}"#, "3", "{}"]);
    let kept = project_row(&json(r#"{"a":1,"b":2}"#), &vec!["b".to_string()]);
    assert_eq!(kept.text(), r#"{"b":2}"#);
}

#[test]
fn the_cursor_column_is_resolved_in_order() {
    let mut schema = events();
    assert_eq!(resolve_cursor(None, &schema).as_deref(), Some("Created_At"));
    assert_eq!(resolve_cursor(Some("name"), &schema).as_deref(), Some("name"));
    schema.fields[2].annotate("cursor", "");
    assert_eq!(resolve_cursor(Some("name"), &schema).as_deref(), Some("day"));
    let plain = Schema::new(vec![
        Field::new("UPDATED_AT", DataType::Timestamp, true),
        Field::new("x", DataType::Int64, true),
    ]);
    assert_eq!(resolve_cursor(None, &plain).as_deref(), Some("UPDATED_AT"));
    assert_eq!(resolve_cursor(None, &Schema::new(Vec::new())), None);
}

#[test]
fn annotations_enrich_the_columns_of_their_name() {
    let mut name = Field::new("name", DataType::Int64, false);
    name.annotate("cursor", "yes");
    let mut id = Field::new("id", DataType::Int64, false);
    id.annotate("key", "new");
    let annotated = Schema::new(vec![name, id, Field::new("other", DataType::Bool, true)]);
    let enriched = enrich(events(), Some(&annotated));
    assert_eq!(names(&enriched), names(&events()));
    assert!(enriched.fields[3].is_cursor());
    assert!(matches!(enriched.fields[3].data_type, DataType::String));
    assert_eq!(enriched.fields[0].annotations.get("key"), Some("new"));
    assert!(enrich(events(), None).same(&events()));
}

#[test]
fn a_read_is_planned_and_walked() {
    assert_eq!(FILTER_PARAM, "filter");
    let mut read = table_stream(
        events(),
        None,
        Some("name"),
        Some(2),
        None,
        no_filter(),
        Some("{\"offset\":4}"),
    )
    .unwrap();
    assert_eq!(names(&read.schema), ["name"]);
    assert!(read.projected);
    let cursor = read.cursor().unwrap();
    assert_eq!((cursor.offset, cursor.limit), (4, 2));
    // The column to order by is resolved even where it is not selected.
    assert_eq!(cursor.cursor.as_deref(), Some("Created_At"));
    read.advance(true);
    assert_eq!(read.cursor().unwrap().offset, 6);
    read.advance(false);
    assert!(read.cursor().is_none());
    read.advance(true);
    assert!(read.cursor().is_none());
}

#[test]
fn a_read_has_defaults() {
    let read = table_stream(events(), None, None, None, Some("id"), no_filter(), None).unwrap();
    assert!(!read.projected);
    assert!(read.schema.same(&events()));
    let cursor = read.cursor().unwrap();
    assert_eq!((cursor.offset, cursor.limit), (0, 10));
    assert_eq!(cursor.cursor.as_deref(), Some("id"));
    let read = table_stream(events(), None, None, Some(9999), None, no_filter(), None).unwrap();
    assert_eq!(read.limit, 1000);
}

#[test]
fn a_read_is_refused() {
    let failed = || Err(Failure::message("decoding filter: x".to_string()));
    let refused = |fields, filter, token| {
        table_stream(events(), None, fields, None, None, filter, token).unwrap_err().text()
    };
    assert_eq!(refused(Some("x"), failed(), Some("{")), "unknown projected column `x`");
    assert_eq!(refused(None, failed(), Some("{")), "decoding filter: x");
    assert!(refused(None, no_filter(), Some("{")).starts_with("decoding cursor: "));
}

#[test]
fn a_walk_yields_every_row_once() {
    let all: Vec<Json> = (0..23).map(|n| json(&format!("{{\"id\":{n}}}"))).collect();
    let schema = Schema::new(vec![Field::new("id", DataType::Int64, false)]);
    let mut read = table_stream(schema, None, None, Some(5), None, no_filter(), None).unwrap();
    let mut seen = Vec::new();
    let mut pages = 0;
    while let Some(cursor) = read.cursor() {
        let rows: Vec<Json> = all
            .iter()
            .skip(cursor.offset as usize)
            .take(cursor.limit as usize)
            .cloned()
            .collect();
        let page = table_page(&read.schema, &cursor, rows, read.projected, &canonical).unwrap();
        assert_eq!(page.more, page.cursor.next.is_some());
        pages += 1;
        seen.extend(texts(&page.rows));
        read.advance(page.more);
    }
    assert_eq!(pages, 5);
    assert_eq!(seen, texts(&all));
}

#[test]
fn a_page_is_prepared_for_encoding() {
    let cursor = SqlCursor { offset: 0, limit: 1, cursor: None };
    let rows = vec![json(
        r#"{"Created_At":"2024-01-01 12:00:00","day":"2024-01-01","id":1,"name":5,"x":1}"#,
    )];
    let page = table_page(&events(), &cursor, rows, true, &canonical).unwrap();
    assert_eq!(
        texts(&page.rows),
        [r#"{"Created_At":"2024-01-01T12:00:00Z","day":"2024-01-01","id":1,"name":"5"}"#]
    );
    assert_eq!(page.cursor.next.as_deref(), Some("{\"offset\":1}"));
    assert!(page.more);
}

#[test]
fn temporal_text_takes_its_canonical_form() {
    let mut rows = vec![
        json(r#"{"Created_At":"2024-01-01 12:00:00","name":"2024-01-01 12:00:00"}"#),
        json(r#"{"Created_At":"soon"}"#),
        json(r#"{"Created_At":17}"#),
        json("null"),
    ];
    normalize_temporals(&events(), &mut rows, &canonical);
    assert_eq!(
        texts(&rows),
        [
            r#"{"Created_At":"2024-01-01T12:00:00Z","name":"2024-01-01 12:00:00"}"#,
            r#"{"Created_At":"soon"}"#,
            r#"{"Created_At":17}"#,
            "null"
        ]
    );
}

#[test]
fn temporal_text_goes_by_every_column_of_its_name() {
    let schema = Schema::new(vec![
        Field::new("x", DataType::String, true),
        Field::new("x", DataType::Timestamp, true),
        Field::new("x", DataType::Date, true),
    ]);
    let mark = |kind: Temporal, text: &str| {
        let mark = if kind == Temporal::Timestamp { "t" } else { "d" };
        Some(format!("{text}{mark}"))
    };
    let mut rows = vec![json(r#"{"x":"a"}"#)];
    normalize_temporals(&schema, &mut rows, &mark);
    assert_eq!(texts(&rows), [r#"{"x":"atd"}"#]);
}

#[test]
fn the_schema_of_a_read() {
    let schema = table_data_schema(events(), None, Some("day")).unwrap();
    assert_eq!(names(&schema), ["day"]);
    assert_eq!(
        table_data_schema(events(), None, Some("x")).unwrap_err().text(),
        "unknown projected column `x`"
    );
}

#[test]
fn tables_are_listed_in_one_page() {
    let page = list_tables(vec!["b".to_string(), "a".to_string()]);
    let listed: Vec<&str> = page.items.iter().map(|t| t.name.as_str()).collect();
    assert_eq!(listed, ["b", "a"]);
    assert!(page.cursor.next.is_none());
}

#[test]
fn a_row_is_found_by_its_key() {
    let (filter, cursor) = get_row(&events(), "t", "2").unwrap();
    assert_eq!(filter.to_sql('"').unwrap(), "\"id\" = 2");
    assert_eq!((cursor.offset, cursor.limit, cursor.cursor), (0, 1, None));
    let (filter, _) = get_row(&events(), "t", "-3").unwrap();
    assert_eq!(filter.to_sql('"').unwrap(), "\"id\" = -3");
    let (filter, _) = get_row(&events(), "t", "a'b").unwrap();
    assert_eq!(filter.to_sql('"').unwrap(), "\"id\" = 'a''b'");
    match filter {
        Filter::Cmp { op: Op::Eq, .. } => {}
        other => panic!("{other:?}"),
    }
    let mut name = Field::new("name", DataType::String, false);
    name.annotate("key", "");
    let (filter, _) = get_row(&Schema::new(vec![name]), "t", "2").unwrap();
    assert_eq!(filter.to_sql('"').unwrap(), "\"name\" = '2'");
    assert_eq!(
        get_row(&Schema::new(Vec::new()), "t", "2").unwrap_err().text(),
        "table `t` has no key column"
    );
}

#[test]
fn a_row_is_answered() {
    let row = || Some(json(r#"{"id":2,"name":"b"}"#));
    assert_eq!(
        table_get(row(), "t", "2", None).unwrap().text(),
        r#"{"id":2,"name":"b"}"#
    );
    assert_eq!(
        table_get(row(), "t", "2", Some("name, x")).unwrap().text(),
        r#"{"name":"b"}"#
    );
    assert_eq!(
        table_get(None, "t", "9", None).unwrap_err().text(),
        "no row with key `9` in table `t`"
    );
}

#[test]
fn writes_are_admitted() {
    let keyless = Schema::new(vec![Field::new("a", DataType::Int64, true)]);
    assert_eq!(write_table(None, &keyless).unwrap(), Disposition::Append);
    assert_eq!(write_table(Some("merge"), &events()).unwrap(), Disposition::Merge);
    assert_eq!(
        write_table(Some("merge"), &keyless).unwrap_err().text(),
        "merge disposition requires a key, but the dataset schema declares none"
    );
    assert_eq!(
        write_table(None, &Schema::new(Vec::new())).unwrap_err().text(),
        "dataset schema has no columns"
    );
    assert_eq!(
        write_table(Some("x"), &keyless).unwrap_err().text(),
        "unknown write disposition `x` (append|merge)"
    );
}

#[test]
fn a_table_is_reconciled_unless_it_is_the_same() {
    assert!(needs_upsert(None, &events()));
    assert!(!needs_upsert(Some(&events()), &events()));
    let mut other = events();
    other.fields[0].annotate("cursor", "");
    assert!(needs_upsert(Some(&other), &events()));
}

#[test]
fn written_rows_are_counted() {
    let mut result = WriteResult::new("t", true);
    result.record(3);
    result.record(0);
    result.record(4);
    assert_eq!(
        (result.table.as_str(), result.created, result.rows_written),
        ("t", true, 7)
    );
}

#[test]
fn streams_are_written_chunk_by_chunk() {
    let (mut write, first) = StreamWrite::new("t", &events());
    assert_eq!(first, WriteAction::FindTable);
    assert_eq!(write.step(WriteEvent::Table(None)), WriteAction::Upsert);
    assert_eq!(write.step(WriteEvent::Upserted(true)), WriteAction::Pull);
    for rows in [3, 0, 4] {
        assert_eq!(write.step(WriteEvent::Pulled), WriteAction::Write);
        assert_eq!(write.step(WriteEvent::Written(rows)), WriteAction::Pull);
    }
    assert_eq!(write.step(WriteEvent::Ended), WriteAction::Done);
    assert_eq!(write.result.table, "t");
    assert_eq!((write.result.created, write.result.rows_written), (true, 7));

    let (mut write, _) = StreamWrite::new("t", &events());
    assert_eq!(write.step(WriteEvent::Table(Some(events()))), WriteAction::Pull);
    assert_eq!(write.step(WriteEvent::Ended), WriteAction::Done);
    assert!(!write.result.created);

    let (mut write, _) = StreamWrite::new("t", &events());
    let other = Schema::new(Vec::new());
    assert_eq!(write.step(WriteEvent::Table(Some(other))), WriteAction::Upsert);
}
