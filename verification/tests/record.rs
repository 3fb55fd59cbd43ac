use arrow::array::{
    Array, ArrayRef, BinaryArray, Date32Array, Date32Builder, Date64Builder, Decimal128Array,
    DictionaryArray, DurationSecondArray, DurationSecondBuilder, FixedSizeListArray, Int32Builder,
    IntervalYearMonthArray, LargeListArray, MapBuilder, NullArray, StringBuilder, StringViewArray,
    Time32SecondArray, Time64MicrosecondArray,
};
use arrow::datatypes::Int32Type;
use strata::json::Json;
use strata::record::{
    arrow_schema_to_strata, strata_schema_to_arrow_schema, stringify_text_columns,
    temporals_to_iso, ArrowField, ArrowSchema, ArrowType, RecordBatch, Records, TimeUnit,
};
use strata::schema::{Annotations, DataType, Field, Schema};

fn json(text: &str) -> Json {
    Json::from_text(text).unwrap()
}

fn texts(rows: &Vec<Json>) -> Vec<String> {
    rows.iter().map(|row| row.text()).collect()
}

#[test]
fn temporal_maps_to_native_arrow_and_parses_strings() {
    let strata = Schema::new(vec![
        Field::new("d", DataType::Date, true),
        Field::new("ts", DataType::Timestamp, true),
    ]);
    let arrow = strata_schema_to_arrow_schema(&strata);
    assert!(matches!(arrow.fields[0].data_type, ArrowType::Date32));
    assert!(matches!(arrow.fields[1].data_type, ArrowType::Timestamp(_, _)));

    // The string values are parsed into the native temporal arrays.
    let rows = vec![json(r#"{"d": "2025-09-18", "ts": "2025-01-03T12:00:00Z"}"#)];
    let records = Records::encode(&strata, &rows).expect("parse temporal strings");
    assert_eq!(records.batches[0].num_rows(), 1);

    // The reverse maps native Arrow temporal back to the temporal types.
    let back = arrow_schema_to_strata(&arrow);
    assert!(matches!(back.fields[0].data_type, DataType::Date));
    assert!(matches!(back.fields[1].data_type, DataType::Timestamp));
}

#[test]
fn temporal_columns_read_back_as_iso_text() {
    let strata = Schema::new(vec![
        Field::new("d", DataType::Date, true),
        Field::new("ts", DataType::Timestamp, true),
    ]);
    let rows = vec![
        json(r#"{"d": "2025-09-18", "ts": "2025-01-03T12:00:00Z"}"#),
        json(r#"{"d": null, "ts": null}"#),
    ];
    let records = Records::encode(&strata, &rows).unwrap();
    assert_eq!(
        texts(&records.to_json_rows().unwrap()),
        [
            r#"{"d":"2025-09-18","ts":"2025-01-03T12:00:00+00:00"}"#,
            r#"{"d":null,"ts":null}"#
        ]
    );
}

#[test]
fn encode_then_json_rows_round_trips() {
    let schema = Schema::new(vec![
        Field::new("n", DataType::Int64, false),
        Field::new("s", DataType::String, true),
    ]);
    let items = vec![json(r#"{"n": 1, "s": "a"}"#), json(r#"{"n": 2, "s": null}"#)];
    let records = Records::encode(&schema, &items).unwrap();
    assert_eq!(records.batches[0].num_rows(), 2);
    assert_eq!(texts(&records.to_json_rows().unwrap()), texts(&items));
    assert_eq!(records.row_count(), 2);
    assert_eq!(records.checked_row_count(), Some(2));
}

#[test]
fn scalar_rows_round_trip() {
    let schema = Schema::new(vec![
        Field::new("b", DataType::Bool, true),
        Field::new("i", DataType::Int64, true),
        Field::new("s", DataType::String, true),
        Field::new("u", DataType::UInt64, false),
    ]);
    let items = vec![
        json(r#"{"b":true,"i":-9223372036854775808,"s":"","u":18446744073709551615}"#),
        json(r#"{"b":null,"i":9223372036854775807,"s":"é\"\n","u":0}"#),
        json(r#"{"b":false,"i":null,"s":null,"u":7}"#),
    ];
    let records = Records::encode(&schema, &items).unwrap();
    assert_eq!(texts(&records.to_json_rows().unwrap()), texts(&items));

    let turned = Schema::new(vec![
        Field::new("u", DataType::UInt64, false),
        Field::new("s", DataType::String, true),
        Field::new("i", DataType::Int64, true),
        Field::new("b", DataType::Bool, true),
    ]);
    let records = Records::encode(&turned, &items).unwrap();
    assert_eq!(records.schema.fields[0].name, "u");
    assert_eq!(texts(&records.to_json_rows().unwrap()), texts(&items));

    let none = Records::encode(&schema, &Vec::new()).unwrap();
    assert_eq!(none.row_count(), 0);
    assert!(none.to_json_rows().unwrap().is_empty());
}

#[test]
fn moments_dates_and_fractions_round_trip() {
    let schema = Schema::new(vec![
        Field::new("d", DataType::Date, true),
        Field::new("f", DataType::Float64, true),
        Field::new("ts", DataType::Timestamp, false),
    ]);
    let items = vec![
        json(r#"{"d":"2025-09-18","f":-0.5,"ts":"2025-01-03T12:00:00+00:00"}"#),
        json(r#"{"d":"0000-01-01","f":1e300,"ts":"0000-01-01T00:00:00+00:00"}"#),
        json(r#"{"d":"9999-12-31","f":null,"ts":"9999-12-31T23:59:59.999999+00:00"}"#),
        json(r#"{"d":null,"f":0.1,"ts":"1969-12-31T23:59:59.500+00:00"}"#),
    ];
    let records = Records::encode(&schema, &items).unwrap();
    assert_eq!(texts(&records.to_json_rows().unwrap()), texts(&items));
}

#[test]
fn nested_rows_round_trip() {
    let parts = vec![
        Field::new("n", DataType::Int64, true),
        Field::new("t", DataType::List(Box::new(DataType::String)), true),
    ];
    let schema = Schema::new(vec![
        Field::new("l", DataType::List(Box::new(DataType::Float64)), false),
        Field::new("s", DataType::Struct(parts), true),
    ]);
    let items = vec![
        json(r#"{"l":[0.5,null,-2.25],"s":{"n":1,"t":["a",null]}}"#),
        json(r#"{"l":[],"s":null}"#),
        json(r#"{"l":[1.5],"s":{"n":null,"t":null}}"#),
    ];
    let records = Records::encode(&schema, &items).unwrap();
    assert_eq!(texts(&records.to_json_rows().unwrap()), texts(&items));
}

#[test]
fn absent_structs_round_trip_whatever_their_parts() {
    let inner = vec![Field::new("b", DataType::Bool, false)];
    let parts = vec![
        Field::new("d", DataType::Date, false),
        Field::new("f", DataType::Float64, false),
        Field::new("l", DataType::List(Box::new(DataType::UInt64)), false),
        Field::new("n", DataType::Int64, false),
        Field::new("s", DataType::String, false),
        Field::new("ts", DataType::Timestamp, false),
        Field::new("u", DataType::Struct(inner), false),
    ];
    let schema = Schema::new(vec![
        Field::new("o", DataType::Struct(parts.clone()), true),
        Field::new("os", DataType::List(Box::new(DataType::Struct(parts))), true),
    ]);
    let items = vec![
        json(r#"{"o":null,"os":[null,null]}"#),
        json(r#"{"o":null,"os":null}"#),
        json(r#"{"o":null,"os":[]}"#),
    ];
    let records = Records::encode(&schema, &items).unwrap();
    assert_eq!(texts(&records.to_json_rows().unwrap()), texts(&items));
}

/// A batch of one column, as a transport brings it.
fn column(name: &str, values: ArrayRef) -> Records {
    let field = arrow::datatypes::Field::new(name, values.data_type().clone(), true);
    let schema = std::sync::Arc::new(arrow::datatypes::Schema::new(vec![field]));
    let inner = arrow::record_batch::RecordBatch::try_new(schema, vec![values]).unwrap();
    Records::from_record_batch(RecordBatch { inner })
}

/// A map of one row, with an entry for each pair.
fn dates_by_name(pairs: &[(&str, i32)]) -> ArrayRef {
    let mut map = MapBuilder::new(None, StringBuilder::new(), Date32Builder::new());
    for (key, day) in pairs {
        map.keys().append_value(key);
        map.values().append_value(*day);
    }
    map.append(true).unwrap();
    std::sync::Arc::new(map.finish())
}

const RESERVED: &str = "$serde_json::private::RawValue";
const REFUSED: &str = "arrow decode failed: a column cannot be read as JSON";

#[test]
fn every_type_that_is_read_comes_out_as_json() {
    let shown = |records: Records| texts(&records.to_json_rows().unwrap());
    let decimal = Decimal128Array::from(vec![Some(12345), Some(-5), None])
        .with_precision_and_scale(9, 2)
        .unwrap();
    let records = column("c", std::sync::Arc::new(decimal));
    assert!(matches!(records.schema.fields[0].data_type, ArrowType::Decimal128(9, 2)));
    assert_eq!(
        shown(records),
        [r#"{"c":"123.45"}"#, r#"{"c":"-0.05"}"#, r#"{"c":null}"#]
    );

    let records = column("c", std::sync::Arc::new(Time64MicrosecondArray::from(vec![7])));
    assert!(matches!(
        records.schema.fields[0].data_type,
        ArrowType::Time64(TimeUnit::Microsecond)
    ));
    assert_eq!(shown(records), [r#"{"c":7}"#]);
    let records = column("c", std::sync::Arc::new(Time32SecondArray::from(vec![8])));
    assert_eq!(shown(records), [r#"{"c":8}"#]);
    let records = column("c", std::sync::Arc::new(DurationSecondArray::from(vec![i64::MIN])));
    assert_eq!(shown(records), [r#"{"c":-9223372036854775808}"#]);
    let records = column("c", std::sync::Arc::new(StringViewArray::from(vec!["a longer text"])));
    assert_eq!(shown(records), [r#"{"c":"a longer text"}"#]);
    let records = column("c", std::sync::Arc::new(NullArray::new(1)));
    assert_eq!(shown(records), [r#"{"c":null}"#]);

    let rows = vec![Some(vec![Some(1), None]), None, Some(vec![])];
    let list = LargeListArray::from_iter_primitive::<Int32Type, _, _>(rows);
    let records = column("c", std::sync::Arc::new(list));
    assert!(matches!(records.schema.fields[0].data_type, ArrowType::LargeList(_)));
    assert_eq!(shown(records), [r#"{"c":[1,null]}"#, r#"{"c":null}"#, r#"{"c":[]}"#]);
    let rows = vec![Some(vec![Some(1), Some(2)])];
    let list = FixedSizeListArray::from_iter_primitive::<Int32Type, _, _>(rows, 2);
    assert_eq!(shown(column("c", std::sync::Arc::new(list))), [r#"{"c":[1,2]}"#]);

    let words: DictionaryArray<Int32Type> = vec![Some("a"), None, Some("a")].into_iter().collect();
    let records = column("c", std::sync::Arc::new(words));
    assert!(matches!(records.schema.fields[0].data_type, ArrowType::Dictionary(_, _)));
    assert_eq!(shown(records), [r#"{"c":"a"}"#, r#"{"c":null}"#, r#"{"c":"a"}"#]);

    let records = column("c", dates_by_name(&[("k", 3), ("l", i32::MIN)]));
    assert!(matches!(records.schema.fields[0].data_type, ArrowType::Mapping(_, false)));
    assert_eq!(shown(records), [r#"{"c":{"k":3,"l":-2147483648}}"#]);
}

#[test]
fn what_is_not_read_is_refused_as_serde_arrow_refuses_it() {
    let bytes = column("c", std::sync::Arc::new(BinaryArray::from(vec![b"x".as_slice()])));
    let message = bytes.to_json_rows().unwrap_err().text();
    assert!(message.starts_with("arrow decode failed: "), "{message}");
    assert_ne!(message, REFUSED);
    let other = column("c", std::sync::Arc::new(IntervalYearMonthArray::from(vec![1])));
    assert!(matches!(other.schema.fields[0].data_type, ArrowType::Other));
    let message = other.to_json_rows().unwrap_err().text();
    assert_ne!(message, REFUSED);
}

#[test]
fn a_batch_that_would_panic_is_refused() {
    let hollow = arrow::datatypes::Field::new(
        "c",
        arrow::datatypes::DataType::FixedSizeBinary(0),
        true,
    );
    let schema = std::sync::Arc::new(arrow::datatypes::Schema::new(vec![hollow]));
    let inner = arrow::record_batch::RecordBatch::new_empty(schema);
    let records = Records::from_record_batch(RecordBatch { inner });
    assert_eq!(records.to_json_rows().unwrap_err().text(), REFUSED);

    let scaled = |scale: i8| {
        let values = Decimal128Array::from(vec![1]).with_precision_and_scale(38, scale).unwrap();
        column("c", std::sync::Arc::new(values))
    };
    assert_eq!(scaled(-25).to_json_rows().unwrap_err().text(), REFUSED);
    assert_eq!(
        texts(&scaled(-24).to_json_rows().unwrap()),
        [r#"{"c":"1000000000000000000000000"}"#]
    );
}

#[test]
fn dates_that_are_asked_for_as_text_are_within_range() {
    // The keys of a map are asked for as text.
    let by_day = |day: i32| {
        let mut map = MapBuilder::new(None, Date32Builder::new(), Int32Builder::new());
        map.keys().append_value(day);
        map.values().append_value(1);
        map.append(true).unwrap();
        column("c", std::sync::Arc::new(map.finish()))
    };
    assert_eq!(texts(&by_day(0).to_json_rows().unwrap()), [r#"{"c":{"1970-01-01":1}}"#]);
    assert_eq!(
        texts(&by_day(95_026_236).to_json_rows().unwrap()),
        [r#"{"c":{"+262142-12-31":1}}"#]
    );
    assert_eq!(
        texts(&by_day(-96_465_292).to_json_rows().unwrap()),
        [r#"{"c":{"-262143-01-01":1}}"#]
    );
    assert_eq!(by_day(95_026_237).to_json_rows().unwrap_err().text(), REFUSED);
    assert_eq!(by_day(-96_465_293).to_json_rows().unwrap_err().text(), REFUSED);

    let by_milli = |milli: i64| {
        let mut map = MapBuilder::new(None, Date64Builder::new(), Int32Builder::new());
        map.keys().append_value(milli);
        map.values().append_value(1);
        map.append(true).unwrap();
        column("c", std::sync::Arc::new(map.finish()))
    };
    let last: i64 = 95_026_237 * 86_400_000;
    assert!(by_milli(last - 1).to_json_rows().is_ok());
    assert_eq!(by_milli(last).to_json_rows().unwrap_err().text(), REFUSED);
    let first: i64 = -96_465_293 * 86_400_000;
    assert!(by_milli(first + 1).to_json_rows().is_ok());
    assert_eq!(by_milli(first).to_json_rows().unwrap_err().text(), REFUSED);

    let by_span = |span: i64| {
        let mut map = MapBuilder::new(None, DurationSecondBuilder::new(), Int32Builder::new());
        map.keys().append_value(span);
        map.values().append_value(1);
        map.append(true).unwrap();
        column("c", std::sync::Arc::new(map.finish()))
    };
    assert_eq!(texts(&by_span(-5).to_json_rows().unwrap()), [r#"{"c":{"-PT5s":1}}"#]);
    assert_eq!(by_span(i64::MIN).to_json_rows().unwrap_err().text(), REFUSED);

    // So is what stands at the reserved name.
    let records = column("c", dates_by_name(&[(RESERVED, 1)]));
    assert_ne!(records.to_json_rows().unwrap_err().text(), REFUSED);
    let records = column("c", dates_by_name(&[(RESERVED, 1_000_000_000)]));
    assert_eq!(records.to_json_rows().unwrap_err().text(), REFUSED);
    let far = || std::sync::Arc::new(Date32Array::from(vec![-1_000_000_000])) as ArrayRef;
    assert_eq!(column(RESERVED, far()).to_json_rows().unwrap_err().text(), REFUSED);
    assert_eq!(texts(&column("d", far()).to_json_rows().unwrap()), [r#"{"d":-1000000000}"#]);
}

#[test]
fn text_at_the_reserved_name_is_read_as_json() {
    let plain = Schema::new(vec![Field::new(RESERVED, DataType::String, true)]);
    let row = Json::Object(vec![strata::json::Member {
        key: RESERVED.to_string(),
        value: Json::Str("[1]".to_string()),
    }]);
    let records = Records::encode(&plain, &vec![row]).unwrap();
    assert_eq!(texts(&records.to_json_rows().unwrap()), ["[1]"]);
}

#[test]
fn a_batch_from_a_transport_keeps_its_columns_and_rows() {
    let schema = Schema::new(vec![
        Field::new("n", DataType::Int64, false),
        Field::new("s", DataType::String, true),
    ]);
    let items = vec![json(r#"{"n":1,"s":"a"}"#), json(r#"{"n":2,"s":null}"#)];
    let sent = Records::encode(&schema, &items).unwrap();
    let inner = sent.batches[0].record_batch().inner.clone();
    let arrived = Records::from_record_batch(RecordBatch { inner });
    assert_eq!(arrived.schema.fields[1].name, "s");
    assert!(arrived.schema.fields[1].nullable);
    assert!(matches!(arrived.batches[0].columns().fields[0].data_type, ArrowType::Int64));
    assert_eq!(arrived.row_count(), 2);
    assert_eq!(texts(&arrived.to_json_rows().unwrap()), texts(&items));
}

#[test]
fn rows_that_do_not_fit_are_refused() {
    let schema = Schema::new(vec![Field::new("n", DataType::Int64, false)]);
    let message = Records::encode(&schema, &vec![json(r#"{"n": "x"}"#)]).err().unwrap().text();
    assert!(message.starts_with("arrow encode failed: "), "{message}");
    let message = Records::encode(&schema, &vec![json(r#"{"n": null}"#)]).err().unwrap().text();
    assert!(!message.is_empty());
    assert!(Records::encode(&Schema::new(Vec::new()), &vec![json("{}")]).is_err());
}

#[test]
fn nested_columns_ride_as_native_arrow() {
    let schema = Schema::new(vec![
        Field::new("l", DataType::List(Box::new(DataType::Int64)), true),
        Field::new("o", DataType::Struct(vec![Field::new("x", DataType::Float64, true)]), true),
    ]);
    let items = vec![json(r#"{"l":[1,2],"o":{"x":1.5}}"#)];
    let records = Records::encode(&schema, &items).unwrap();
    assert_eq!(texts(&records.to_json_rows().unwrap()), texts(&items));

    let back = arrow_schema_to_strata(&records.schema);
    assert!(matches!(back.fields[0].data_type, DataType::Json));
    assert!(matches!(back.fields[1].data_type, DataType::Json));
}

#[test]
fn schemas_come_back_from_arrow_with_their_notes() {
    let mut id = Field::new("id", DataType::UInt64, false);
    id.annotate("key", "true");
    let price = Field::new("price", DataType::Decimal, true);
    let schema = Schema::new(vec![id, price]);
    let arrow = strata_schema_to_arrow_schema(&schema);
    assert!(matches!(arrow.fields[1].data_type, ArrowType::Utf8));
    assert_eq!(arrow.fields[0].metadata.get("key"), Some("true"));

    let back = arrow_schema_to_strata(&arrow);
    assert!(back.fields[0].same(&schema.fields[0]));
    assert!(back.fields[0].is_key());
    assert!(matches!(back.fields[1].data_type, DataType::String));
    assert!(back.fields[1].nullable);
    assert_eq!(back.get_key_fields(), ["id"]);
}

#[test]
fn foreign_arrow_types_are_read() {
    let read = |data_type: ArrowType| {
        let field = ArrowField {
            name: "f".to_string(),
            data_type,
            nullable: true,
            metadata: Annotations::new(),
        };
        let mut schema = arrow_schema_to_strata(&ArrowSchema { fields: vec![field] });
        schema.fields.remove(0).data_type
    };
    assert!(matches!(read(ArrowType::Int8), DataType::Int64));
    assert!(matches!(read(ArrowType::UInt16), DataType::UInt64));
    assert!(matches!(read(ArrowType::Float32), DataType::Float64));
    assert!(matches!(read(ArrowType::LargeUtf8), DataType::String));
    assert!(matches!(read(ArrowType::LargeBinary), DataType::Bytes));
    assert!(matches!(read(ArrowType::Date64), DataType::Date));
    assert!(matches!(
        read(ArrowType::Timestamp(TimeUnit::Second, None)),
        DataType::Timestamp
    ));
    assert!(matches!(read(ArrowType::Other), DataType::Json));
}

#[test]
fn text_columns_hold_text() {
    let schema = Schema::new(vec![
        Field::new("d", DataType::Decimal, true),
        Field::new("j", DataType::Json, true),
        Field::new("n", DataType::Int64, true),
        Field::new("s", DataType::String, true),
    ]);
    let mut rows = vec![
        json(r#"{"d":1.5,"j":{"a":[1]},"n":1,"s":true,"x":2}"#),
        json(r#"{"d":"1","j":null,"s":"t"}"#),
        json("[1]"),
    ];
    stringify_text_columns(&schema, &mut rows);
    let once = texts(&rows);
    assert_eq!(
        once,
        [
            r#"{"d":"1.5","j":"{\"a\":[1]}","n":1,"s":"true","x":2}"#,
            r#"{"d":"1","j":null,"s":"t"}"#,
            "[1]"
        ]
    );
    stringify_text_columns(&schema, &mut rows);
    assert_eq!(texts(&rows), once);
}

#[test]
fn every_time_unit_has_an_iso_text() {
    let iso = |data_type: ArrowType, value: &str| {
        let field = ArrowField {
            name: "t".to_string(),
            data_type,
            nullable: true,
            metadata: Annotations::new(),
        };
        let schema = ArrowSchema { fields: vec![field] };
        let mut rows = vec![json(&format!(r#"{{"t":{value},"u":1}}"#))];
        temporals_to_iso(&schema, &mut rows);
        assert_eq!(rows[0].get("u").unwrap().as_i64(), Some(1));
        rows[0].get("t").unwrap().text()
    };
    let stamp = |unit| ArrowType::Timestamp(unit, Some("UTC".to_string()));
    assert_eq!(iso(stamp(TimeUnit::Second), "1"), r#""1970-01-01T00:00:01+00:00""#);
    assert_eq!(iso(stamp(TimeUnit::Millisecond), "1500"), r#""1970-01-01T00:00:01.500+00:00""#);
    assert_eq!(
        iso(stamp(TimeUnit::Microsecond), "-1"),
        r#""1969-12-31T23:59:59.999999+00:00""#
    );
    assert_eq!(
        iso(stamp(TimeUnit::Nanosecond), "1"),
        r#""1970-01-01T00:00:00.000000001+00:00""#
    );
    assert_eq!(iso(ArrowType::Date32, "19000"), r#""2022-01-08""#);
    // Out of range, not a number, or not temporal: left as it is.
    assert_eq!(iso(stamp(TimeUnit::Second), "9223372036854775807"), "9223372036854775807");
    assert_eq!(iso(ArrowType::Date32, "9223372036854775807"), "9223372036854775807");
    assert_eq!(iso(ArrowType::Date32, "\"x\""), "\"x\"");
    assert_eq!(iso(ArrowType::Date32, "null"), "null");
    assert_eq!(iso(ArrowType::Int64, "1"), "1");
}
