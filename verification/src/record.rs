//! The record layer: rows as Arrow record batches.
//!
//! Inside the data layer, rows travel as Arrow record batches. This module holds the one
//! mapping between a [`Schema`] and an Arrow schema, and the conversions between batches
//! and JSON rows, which appear at the edges only.

use vstd::prelude::*;
use vstd::string::*;

use arrow::array::ArrayData;
use arrow::datatypes::{DataType as OutsideType, Field as OutsideField, TimeUnit as OutsideUnit};

use crate::error::{self, Failure, FailureView};
use crate::json::{self, Json, JsonView, Member, NumberView};
use crate::page::Cursor;
use crate::schema::{self, Annotations, DataType, Field, FieldView, Schema, TypeView};
use crate::text;

verus! {

// === Arrow types ===

/// The unit of a timestamp.
#[derive(Debug, Clone, Copy, PartialEq, Eq, Structural)]
pub enum TimeUnit {
    Second,
    Millisecond,
    Microsecond,
    Nanosecond,
}

/// The Arrow types that the mapping tells apart.
#[derive(Debug)]
pub enum ArrowType {
    Boolean,
    Int8,
    Int16,
    Int32,
    Int64,
    UInt8,
    UInt16,
    UInt32,
    UInt64,
    Float16,
    Float32,
    Float64,
    Utf8,
    LargeUtf8,
    Binary,
    LargeBinary,
    Timestamp(TimeUnit, Option<String>),
    Date32,
    Date64,
    Null,
    Utf8View,
    BinaryView,
    FixedSizeBinary(i32),
    Time32(TimeUnit),
    Time64(TimeUnit),
    Duration(TimeUnit),
    /// Its digits, and how many of them stand behind the point.
    Decimal128(u8, i8),
    List(Box<ArrowField>),
    LargeList(Box<ArrowField>),
    FixedSizeList(Box<ArrowField>, i32),
    Struct(Vec<ArrowField>),
    /// Its entries, which are a struct of a key and a value, and whether the keys are sorted.
    Mapping(Box<ArrowField>, bool),
    /// The type of its keys, and that of what they stand for.
    Dictionary(Box<ArrowType>, Box<ArrowType>),
    /// Its alternatives.
    Union(Vec<ArrowField>),
    /// Any other Arrow type, none of which is read as JSON.
    Other,
}

/// One column of an Arrow schema.
#[derive(Debug)]
pub struct ArrowField {
    pub name: String,
    pub data_type: ArrowType,
    pub nullable: bool,
    pub metadata: Annotations,
}

/// The columns of an Arrow schema.
#[derive(Debug)]
pub struct ArrowSchema {
    pub fields: Vec<ArrowField>,
}

/// The model of an [`ArrowType`].
pub enum ArrowTypeView {
    Boolean,
    Int8,
    Int16,
    Int32,
    Int64,
    UInt8,
    UInt16,
    UInt32,
    UInt64,
    Float16,
    Float32,
    Float64,
    Utf8,
    LargeUtf8,
    Binary,
    LargeBinary,
    Timestamp(TimeUnit, Option<Seq<char>>),
    Date32,
    Date64,
    Null,
    Utf8View,
    BinaryView,
    FixedSizeBinary(i32),
    Time32(TimeUnit),
    Time64(TimeUnit),
    Duration(TimeUnit),
    Decimal128(u8, i8),
    List(Box<ArrowFieldView>),
    LargeList(Box<ArrowFieldView>),
    FixedSizeList(Box<ArrowFieldView>, i32),
    Struct(Seq<ArrowFieldView>),
    Mapping(Box<ArrowFieldView>, bool),
    Dictionary(Box<ArrowTypeView>, Box<ArrowTypeView>),
    Union(Seq<ArrowFieldView>),
    Other,
}

/// The model of an [`ArrowField`].
pub struct ArrowFieldView {
    pub name: Seq<char>,
    pub data_type: ArrowTypeView,
    pub nullable: bool,
    pub metadata: Map<Seq<char>, Seq<char>>,
}

/// The model of `data_type`.
pub open spec fn arrow_type_view(data_type: ArrowType) -> ArrowTypeView
    decreases data_type,
{
    match data_type {
        ArrowType::Boolean => ArrowTypeView::Boolean,
        ArrowType::Int8 => ArrowTypeView::Int8,
        ArrowType::Int16 => ArrowTypeView::Int16,
        ArrowType::Int32 => ArrowTypeView::Int32,
        ArrowType::Int64 => ArrowTypeView::Int64,
        ArrowType::UInt8 => ArrowTypeView::UInt8,
        ArrowType::UInt16 => ArrowTypeView::UInt16,
        ArrowType::UInt32 => ArrowTypeView::UInt32,
        ArrowType::UInt64 => ArrowTypeView::UInt64,
        ArrowType::Float16 => ArrowTypeView::Float16,
        ArrowType::Float32 => ArrowTypeView::Float32,
        ArrowType::Float64 => ArrowTypeView::Float64,
        ArrowType::Utf8 => ArrowTypeView::Utf8,
        ArrowType::LargeUtf8 => ArrowTypeView::LargeUtf8,
        ArrowType::Binary => ArrowTypeView::Binary,
        ArrowType::LargeBinary => ArrowTypeView::LargeBinary,
        ArrowType::Timestamp(unit, zone) => ArrowTypeView::Timestamp(unit, zone.deep_view()),
        ArrowType::Date32 => ArrowTypeView::Date32,
        ArrowType::Date64 => ArrowTypeView::Date64,
        ArrowType::Null => ArrowTypeView::Null,
        ArrowType::Utf8View => ArrowTypeView::Utf8View,
        ArrowType::BinaryView => ArrowTypeView::BinaryView,
        ArrowType::FixedSizeBinary(n) => ArrowTypeView::FixedSizeBinary(n),
        ArrowType::Time32(unit) => ArrowTypeView::Time32(unit),
        ArrowType::Time64(unit) => ArrowTypeView::Time64(unit),
        ArrowType::Duration(unit) => ArrowTypeView::Duration(unit),
        ArrowType::Decimal128(precision, scale) => ArrowTypeView::Decimal128(precision, scale),
        ArrowType::List(item) => ArrowTypeView::List(Box::new(arrow_field_view(*item))),
        ArrowType::LargeList(item) => ArrowTypeView::LargeList(Box::new(arrow_field_view(*item))),
        ArrowType::FixedSizeList(item, n) => ArrowTypeView::FixedSizeList(
            Box::new(arrow_field_view(*item)),
            n,
        ),
        ArrowType::Struct(fields) => ArrowTypeView::Struct(
            Seq::new(
                fields@.len(),
                |i: int|
                    if 0 <= i < fields@.len() {
                        arrow_field_view(fields@[i])
                    } else {
                        arbitrary()
                    },
            ),
        ),
        ArrowType::Mapping(entries, sorted) => ArrowTypeView::Mapping(
            Box::new(arrow_field_view(*entries)),
            sorted,
        ),
        ArrowType::Dictionary(key, value) => ArrowTypeView::Dictionary(
            Box::new(arrow_type_view(*key)),
            Box::new(arrow_type_view(*value)),
        ),
        ArrowType::Union(fields) => ArrowTypeView::Union(
            Seq::new(
                fields@.len(),
                |i: int|
                    if 0 <= i < fields@.len() {
                        arrow_field_view(fields@[i])
                    } else {
                        arbitrary()
                    },
            ),
        ),
        ArrowType::Other => ArrowTypeView::Other,
    }
}

/// The model of `field`.
pub open spec fn arrow_field_view(field: ArrowField) -> ArrowFieldView
    decreases field,
{
    ArrowFieldView {
        name: field.name@,
        data_type: arrow_type_view(field.data_type),
        nullable: field.nullable,
        metadata: field.metadata@,
    }
}

impl View for ArrowType {
    type V = ArrowTypeView;

    open spec fn view(&self) -> ArrowTypeView {
        arrow_type_view(*self)
    }
}

impl View for ArrowField {
    type V = ArrowFieldView;

    open spec fn view(&self) -> ArrowFieldView {
        arrow_field_view(*self)
    }
}

/// The models of a list of columns.
pub open spec fn arrow_field_views(fields: Seq<ArrowField>) -> Seq<ArrowFieldView> {
    fields.map_values(|field: ArrowField| field@)
}

impl View for ArrowSchema {
    type V = Seq<ArrowFieldView>;

    open spec fn view(&self) -> Seq<ArrowFieldView> {
        arrow_field_views(self.fields@)
    }
}

/// The model of a struct or a union holds the models of its columns.
pub broadcast proof fn lemma_arrow_type_view(data_type: ArrowType)
    ensures
        match data_type {
            ArrowType::Struct(fields) => (#[trigger] data_type@) == ArrowTypeView::Struct(
                arrow_field_views(fields@),
            ),
            ArrowType::Union(fields) => data_type@ == ArrowTypeView::Union(
                arrow_field_views(fields@),
            ),
            _ => true,
        },
{
    match data_type {
        ArrowType::Struct(fields) => {
            assert(data_type@->Struct_0 =~= arrow_field_views(fields@));
        },
        ArrowType::Union(fields) => {
            assert(data_type@->Union_0 =~= arrow_field_views(fields@));
        },
        _ => {},
    }
}

// === The mapping ===

/// The Arrow type that carries a data type. Decimals have no fixed precision and JSON no
/// fixed shape, so both ride as text.
pub open spec fn to_arrow_type(data_type: TypeView) -> ArrowTypeView
    decreases data_type,
{
    match data_type {
        TypeView::Bool => ArrowTypeView::Boolean,
        TypeView::Int64 => ArrowTypeView::Int64,
        TypeView::UInt64 => ArrowTypeView::UInt64,
        TypeView::Float64 => ArrowTypeView::Float64,
        TypeView::String => ArrowTypeView::Utf8,
        TypeView::Bytes => ArrowTypeView::Binary,
        TypeView::Timestamp => ArrowTypeView::Timestamp(TimeUnit::Microsecond, Some("UTC"@)),
        TypeView::Date => ArrowTypeView::Date32,
        TypeView::Decimal => ArrowTypeView::Utf8,
        TypeView::Json => ArrowTypeView::Utf8,
        TypeView::List(inner) => ArrowTypeView::List(
            Box::new(
                ArrowFieldView {
                    name: "item"@,
                    data_type: to_arrow_type(*inner),
                    nullable: true,
                    metadata: Map::empty(),
                },
            ),
        ),
        TypeView::Struct(fields) => ArrowTypeView::Struct(
            Seq::new(
                fields.len(),
                |i: int|
                    if 0 <= i < fields.len() {
                        to_arrow_field(fields[i])
                    } else {
                        arbitrary()
                    },
            ),
        ),
    }
}

/// The Arrow column that carries a field, with its annotations as metadata.
pub open spec fn to_arrow_field(field: FieldView) -> ArrowFieldView
    decreases field,
{
    ArrowFieldView {
        name: field.name,
        data_type: to_arrow_type(field.data_type),
        nullable: field.nullable,
        metadata: field.annotations,
    }
}

/// The Arrow columns that carry the fields.
pub open spec fn to_arrow_fields(fields: Seq<FieldView>) -> Seq<ArrowFieldView> {
    fields.map_values(|field: FieldView| to_arrow_field(field))
}

/// The data type that an Arrow type is read as. Nested and other types are read as JSON.
pub open spec fn from_arrow_type(data_type: ArrowTypeView) -> TypeView {
    match data_type {
        ArrowTypeView::Boolean => TypeView::Bool,
        ArrowTypeView::Int8 => TypeView::Int64,
        ArrowTypeView::Int16 => TypeView::Int64,
        ArrowTypeView::Int32 => TypeView::Int64,
        ArrowTypeView::Int64 => TypeView::Int64,
        ArrowTypeView::UInt8 => TypeView::UInt64,
        ArrowTypeView::UInt16 => TypeView::UInt64,
        ArrowTypeView::UInt32 => TypeView::UInt64,
        ArrowTypeView::UInt64 => TypeView::UInt64,
        ArrowTypeView::Float16 => TypeView::Float64,
        ArrowTypeView::Float32 => TypeView::Float64,
        ArrowTypeView::Float64 => TypeView::Float64,
        ArrowTypeView::Utf8 => TypeView::String,
        ArrowTypeView::LargeUtf8 => TypeView::String,
        ArrowTypeView::Binary => TypeView::Bytes,
        ArrowTypeView::LargeBinary => TypeView::Bytes,
        ArrowTypeView::Timestamp(_, _) => TypeView::Timestamp,
        ArrowTypeView::Date32 => TypeView::Date,
        ArrowTypeView::Date64 => TypeView::Date,
        _ => TypeView::Json,
    }
}

/// The field that an Arrow column is read as, with its metadata as annotations.
pub open spec fn from_arrow_field(field: ArrowFieldView) -> FieldView {
    FieldView {
        name: field.name,
        data_type: from_arrow_type(field.data_type),
        nullable: field.nullable,
        annotations: field.metadata,
    }
}

/// The fields that the Arrow columns are read as.
pub open spec fn from_arrow_fields(fields: Seq<ArrowFieldView>) -> Seq<FieldView> {
    fields.map_values(|field: ArrowFieldView| from_arrow_field(field))
}

/// The data type that comes back from Arrow: text for what rides as text, JSON for what
/// is nested, and every other type itself.
pub open spec fn returned_type(data_type: TypeView) -> TypeView {
    match data_type {
        TypeView::Decimal => TypeView::String,
        TypeView::Json => TypeView::String,
        TypeView::List(_) => TypeView::Json,
        TypeView::Struct(_) => TypeView::Json,
        _ => data_type,
    }
}

/// A schema comes back from Arrow with its names, its order, whether its fields may be
/// null, and its annotations; of the types, those that Arrow has come back as they were.
pub proof fn schema_comes_back_from_arrow(fields: Seq<FieldView>)
    ensures
        from_arrow_fields(to_arrow_fields(fields)) == fields.map_values(
            |field: FieldView|
                FieldView { data_type: returned_type(field.data_type), ..field },
        ),
{
    assert(from_arrow_fields(to_arrow_fields(fields)) =~= fields.map_values(
        |field: FieldView| FieldView { data_type: returned_type(field.data_type), ..field },
    )) by {
        assert forall|i: int| 0 <= i < fields.len() implies from_arrow_field(
            to_arrow_field(#[trigger] fields[i]),
        ) == (FieldView { data_type: returned_type(fields[i].data_type), ..fields[i] }) by {
            match fields[i].data_type {
                TypeView::List(_) => {},
                TypeView::Struct(_) => {},
                _ => {},
            }
        }
    }
}

/// The Arrow type that carries `data_type`.
fn arrow_type(data_type: &DataType) -> (r: ArrowType)
    ensures
        r@ == to_arrow_type(data_type@),
    decreases data_type, 0int,
{
    broadcast use schema::lemma_type_view, lemma_arrow_type_view;

    match data_type {
        DataType::Bool => ArrowType::Boolean,
        DataType::Int64 => ArrowType::Int64,
        DataType::UInt64 => ArrowType::UInt64,
        DataType::Float64 => ArrowType::Float64,
        DataType::String => ArrowType::Utf8,
        DataType::Bytes => ArrowType::Binary,
        DataType::Timestamp => ArrowType::Timestamp(
            TimeUnit::Microsecond,
            Some("UTC".to_string()),
        ),
        DataType::Date => ArrowType::Date32,
        DataType::Decimal => ArrowType::Utf8,
        DataType::Json => ArrowType::Utf8,
        DataType::List(inner) => {
            let item = ArrowField {
                name: "item".to_string(),
                data_type: arrow_type(&**inner),
                nullable: true,
                metadata: Annotations::new(),
            };
            assert(item@ == arrow_field_view(item));
            ArrowType::List(Box::new(item))
        },
        DataType::Struct(fields) => {
            let columns = arrow_fields(fields);
            assert(to_arrow_type(data_type@)->Struct_0 =~= to_arrow_fields(
                schema::field_views(fields@),
            ));
            ArrowType::Struct(columns)
        },
    }
}

/// The Arrow columns that carry `fields`.
fn arrow_fields(fields: &Vec<Field>) -> (r: Vec<ArrowField>)
    ensures
        arrow_field_views(r@) == to_arrow_fields(schema::field_views(fields@)),
    decreases fields, 1int,
{
    let ghost model = to_arrow_fields(schema::field_views(fields@));
    let mut columns: Vec<ArrowField> = Vec::new();
    let mut i: usize = 0;
    while i < fields.len()
        invariant
            i <= fields.len(),
            model == to_arrow_fields(schema::field_views(fields@)),
            arrow_field_views(columns@) == model.take(i as int),
        decreases fields.len() - i,
    {
        let ghost before = arrow_field_views(columns@);
        let column = ArrowField {
            name: fields[i].name.clone(),
            data_type: arrow_type(&fields[i].data_type),
            nullable: fields[i].nullable,
            metadata: fields[i].annotations.clone(),
        };
        assert(column@ == to_arrow_field(fields@[i as int]@));
        columns.push(column);
        assert(arrow_field_views(columns@) =~= before.push(column@));
        assert(arrow_field_views(columns@) =~= model.take(i + 1));
        i = i + 1;
    }
    assert(arrow_field_views(columns@) =~= model);
    columns
}

/// The Arrow schema that carries `schema`.
pub fn strata_schema_to_arrow_schema(schema: &Schema) -> (r: ArrowSchema)
    ensures
        r@ == to_arrow_fields(schema@),
{
    ArrowSchema { fields: arrow_fields(&schema.fields) }
}

/// The data type that `data_type` is read as.
fn data_type_from_arrow(data_type: &ArrowType) -> (r: DataType)
    ensures
        r@ == from_arrow_type(data_type@),
{
    match data_type {
        ArrowType::Boolean => DataType::Bool,
        ArrowType::Int8 | ArrowType::Int16 | ArrowType::Int32 | ArrowType::Int64 => DataType::Int64,
        ArrowType::UInt8
        | ArrowType::UInt16
        | ArrowType::UInt32
        | ArrowType::UInt64 => DataType::UInt64,
        ArrowType::Float16 | ArrowType::Float32 | ArrowType::Float64 => DataType::Float64,
        ArrowType::Utf8 | ArrowType::LargeUtf8 => DataType::String,
        ArrowType::Binary | ArrowType::LargeBinary => DataType::Bytes,
        ArrowType::Timestamp(_, _) => DataType::Timestamp,
        ArrowType::Date32 | ArrowType::Date64 => DataType::Date,
        _ => DataType::Json,
    }
}

/// An Arrow schema as a [`Schema`]: what a writer expects when it takes in Arrow batches.
pub fn arrow_schema_to_strata(schema: &ArrowSchema) -> (r: Schema)
    ensures
        r@ == from_arrow_fields(schema@),
{
    let ghost model = from_arrow_fields(schema@);
    let mut fields: Vec<Field> = Vec::new();
    let mut i: usize = 0;
    while i < schema.fields.len()
        invariant
            i <= schema.fields.len(),
            model == from_arrow_fields(schema@),
            schema::field_views(fields@) == model.take(i as int),
        decreases schema.fields.len() - i,
    {
        let ghost before = schema::field_views(fields@);
        let field = Field {
            name: schema.fields[i].name.clone(),
            data_type: data_type_from_arrow(&schema.fields[i].data_type),
            nullable: schema.fields[i].nullable,
            annotations: schema.fields[i].metadata.clone(),
        };
        assert(schema@[i as int] == schema.fields@[i as int]@);
        assert(field@ == from_arrow_field(schema@[i as int]));
        fields.push(field);
        assert(schema::field_views(fields@) =~= before.push(field@));
        assert(schema::field_views(fields@) =~= model.take(i + 1));
        i = i + 1;
    }
    assert(schema::field_views(fields@) =~= model);
    Schema::new(fields)
}

// === Text columns ===

/// Whether values of the type are stored as text.
pub open spec fn stored_as_text(data_type: TypeView) -> bool {
    data_type is String || data_type is Decimal || data_type is Json
}

/// Whether `name` names a field that is stored as text.
pub open spec fn text_column(fields: Seq<FieldView>, name: Seq<char>) -> bool {
    exists|i: int|
        0 <= i < fields.len() && (#[trigger] fields[i]).name == name && stored_as_text(
            fields[i].data_type,
        )
}

/// A value as its text, unless it is text or null already.
pub open spec fn as_text(value: JsonView) -> JsonView {
    match value {
        JsonView::Str(_) => value,
        JsonView::Null => value,
        _ => JsonView::Str(json::json_rendered(value)),
    }
}

/// A row with the values of its text columns as text.
pub open spec fn with_text(row: JsonView, fields: Seq<FieldView>) -> JsonView {
    match row {
        JsonView::Object(members) => JsonView::Object(
            members.map_values(
                |member: (Seq<char>, JsonView)|
                    if text_column(fields, member.0) {
                        (member.0, as_text(member.1))
                    } else {
                        member
                    },
            ),
        ),
        _ => row,
    }
}

/// A row whose text columns hold text is left as it is.
pub proof fn text_stays_text(row: JsonView, fields: Seq<FieldView>)
    ensures
        with_text(with_text(row, fields), fields) == with_text(row, fields),
{
    match row {
        JsonView::Object(members) => {
            let once = with_text(row, fields)->Object_0;
            let twice = with_text(with_text(row, fields), fields)->Object_0;
            assert(twice =~= once);
        },
        _ => {},
    }
}

/// Whether `name` names a field that is stored as text.
fn is_text_column(schema: &Schema, name: &str) -> (r: bool)
    ensures
        r == text_column(schema@, name@),
{
    let mut i: usize = 0;
    while i < schema.fields.len()
        invariant
            i <= schema.fields.len(),
            forall|j: int|
                0 <= j < i ==> !((#[trigger] schema@[j]).name == name@ && stored_as_text(
                    schema@[j].data_type,
                )),
        decreases schema.fields.len() - i,
    {
        assert(schema@[i as int] == schema.fields@[i as int]@);
        let stored = match &schema.fields[i].data_type {
            DataType::String => true,
            DataType::Decimal => true,
            DataType::Json => true,
            _ => false,
        };
        if stored && text::same(schema.fields[i].name.as_str(), name) {
            return true;
        }
        i = i + 1;
    }
    false
}

/// A row with the values of its text columns as text.
fn stringify_row(schema: &Schema, row: &Json) -> (r: Json)
    ensures
        r@ == with_text(row@, schema@),
{
    broadcast use json::lemma_json_view;

    match row {
        Json::Object(members) => {
            let ghost model = with_text(row@, schema@)->Object_0;
            let mut out: Vec<Member> = Vec::new();
            let mut i: usize = 0;
            while i < members.len()
                invariant
                    i <= members.len(),
                    row@ == JsonView::Object(json::member_views(members@)),
                    model == with_text(row@, schema@)->Object_0,
                    json::member_views(out@) == model.take(i as int),
                decreases members.len() - i,
            {
                let ghost before = json::member_views(out@);
                assert(json::member_views(members@)[i as int] == members@[i as int]@);
                let key = members[i].key.clone();
                let value = if is_text_column(schema, key.as_str()) {
                    match &members[i].value {
                        Json::Str(s) => Json::Str(s.clone()),
                        Json::Null => Json::Null,
                        other => Json::Str(json::render(other)),
                    }
                } else {
                    members[i].value.clone()
                };
                let member = Member { key, value };
                out.push(member);
                assert(json::member_views(out@) =~= before.push(member@));
                assert(json::member_views(out@) =~= model.take(i + 1));
                i = i + 1;
            }
            assert(json::member_views(out@) =~= model);
            Json::Object(out)
        },
        _ => row.clone(),
    }
}

/// Prepares JSON rows for encoding against `schema`. `String`, `Decimal` and `Json`
/// columns are stored as text, so a value that arrives as a number or an object becomes
/// its text. Other columns are left alone.
pub fn stringify_text_columns(schema: &Schema, rows: &mut Vec<Json>)
    ensures
        json::json_views(final(rows)@) == json::json_views(old(rows)@).map_values(
            |row: JsonView| with_text(row, schema@),
        ),
{
    let ghost all = json::json_views(rows@);
    let ghost model = all.map_values(|row: JsonView| with_text(row, schema@));
    let mut out: Vec<Json> = Vec::new();
    let mut i: usize = 0;
    while i < rows.len()
        invariant
            i <= rows.len(),
            all == json::json_views(rows@),
            model == all.map_values(|row: JsonView| with_text(row, schema@)),
            json::json_views(out@) == model.take(i as int),
        decreases rows.len() - i,
    {
        let ghost before = json::json_views(out@);
        assert(all[i as int] == rows@[i as int]@);
        let row = stringify_row(schema, &rows[i]);
        out.push(row);
        assert(json::json_views(out@) =~= before.push(row@));
        assert(json::json_views(out@) =~= model.take(i + 1));
        i = i + 1;
    }
    assert(json::json_views(out@) =~= model);
    *rows = out;
}

// === Temporal columns ===

/// The RFC 3339 text of a number of seconds since the epoch, as `chrono` writes it.
pub uninterp spec fn rfc3339_of_seconds(v: i64) -> Option<Seq<char>>;

/// The RFC 3339 text of a number of milliseconds since the epoch, as `chrono` writes it.
pub uninterp spec fn rfc3339_of_millis(v: i64) -> Option<Seq<char>>;

/// The RFC 3339 text of a number of microseconds since the epoch, as `chrono` writes it.
pub uninterp spec fn rfc3339_of_micros(v: i64) -> Option<Seq<char>>;

/// The RFC 3339 text of a number of nanoseconds since the epoch, as `chrono` writes it.
pub uninterp spec fn rfc3339_of_nanos(v: i64) -> Seq<char>;

/// The date on which a number of seconds since the epoch falls, as `chrono` writes it.
pub uninterp spec fn date_of_seconds(v: i64) -> Option<Seq<char>>;

/// `chrono::DateTime::from_timestamp` with no nanoseconds, and `to_rfc3339` of what it
/// gives. There is no text where the moment is out of `chrono`'s range. The result
/// depends on the number alone.
#[verifier::external_body]
fn rfc3339_seconds(v: i64) -> (r: Option<String>)
    ensures
        r.deep_view() == rfc3339_of_seconds(v),
{
    chrono::DateTime::from_timestamp(v, 0).map(|d| d.to_rfc3339())
}

/// `chrono::DateTime::from_timestamp_millis`, and `to_rfc3339` of what it gives. There is
/// no text where the moment is out of `chrono`'s range. The result depends on the number
/// alone.
#[verifier::external_body]
fn rfc3339_millis(v: i64) -> (r: Option<String>)
    ensures
        r.deep_view() == rfc3339_of_millis(v),
{
    chrono::DateTime::from_timestamp_millis(v).map(|d| d.to_rfc3339())
}

/// `chrono::DateTime::from_timestamp_micros`, and `to_rfc3339` of what it gives. There is
/// no text where the moment is out of `chrono`'s range. The result depends on the number
/// alone.
#[verifier::external_body]
fn rfc3339_micros(v: i64) -> (r: Option<String>)
    ensures
        r.deep_view() == rfc3339_of_micros(v),
{
    chrono::DateTime::from_timestamp_micros(v).map(|d| d.to_rfc3339())
}

/// `chrono::DateTime::from_timestamp_nanos`, and `to_rfc3339` of what it gives. Every
/// number of nanoseconds is in `chrono`'s range. The result depends on the number alone.
#[verifier::external_body]
fn rfc3339_nanos(v: i64) -> (r: String)
    ensures
        r@ == rfc3339_of_nanos(v),
{
    chrono::DateTime::from_timestamp_nanos(v).to_rfc3339()
}

/// `chrono::DateTime::from_timestamp` with no nanoseconds, and the text of the date of
/// what it gives. There is no text where the moment is out of `chrono`'s range. The result
/// depends on the number alone.
#[verifier::external_body]
fn date_text(v: i64) -> (r: Option<String>)
    ensures
        r.deep_view() == date_of_seconds(v),
{
    chrono::DateTime::from_timestamp(v, 0).map(|d| d.date_naive().to_string())
}

/// The seconds of a day.
pub const DAY: i64 = 86_400;

/// The ISO text of a number in a column of the given type. A column that is not temporal
/// has none, nor has a moment that is out of range.
pub open spec fn iso_text(data_type: ArrowTypeView, v: i64) -> Option<Seq<char>> {
    match data_type {
        ArrowTypeView::Timestamp(TimeUnit::Second, _) => rfc3339_of_seconds(v),
        ArrowTypeView::Timestamp(TimeUnit::Millisecond, _) => rfc3339_of_millis(v),
        ArrowTypeView::Timestamp(TimeUnit::Microsecond, _) => rfc3339_of_micros(v),
        ArrowTypeView::Timestamp(TimeUnit::Nanosecond, _) => Some(rfc3339_of_nanos(v)),
        ArrowTypeView::Date32 => if i64::MIN <= v * DAY <= i64::MAX {
            date_of_seconds((v * DAY) as i64)
        } else {
            None
        },
        _ => None,
    }
}

/// A value of a column of the given type, as ISO text where it has one.
pub open spec fn iso_value(data_type: ArrowTypeView, value: JsonView) -> JsonView {
    match value.int64() {
        Some(v) => match iso_text(data_type, v) {
            Some(text) => JsonView::Str(text),
            None => value,
        },
        None => value,
    }
}

/// A row with the values of one column as ISO text.
pub open spec fn iso_column(row: JsonView, field: ArrowFieldView) -> JsonView {
    match row {
        JsonView::Object(members) => JsonView::Object(
            members.map_values(
                |member: (Seq<char>, JsonView)|
                    if member.0 == field.name {
                        (member.0, iso_value(field.data_type, member.1))
                    } else {
                        member
                    },
            ),
        ),
        _ => row,
    }
}

/// A row with the values of its temporal columns as ISO text, column after column.
pub open spec fn iso_row(row: JsonView, fields: Seq<ArrowFieldView>) -> JsonView
    decreases fields.len(),
{
    if fields.len() == 0 {
        row
    } else {
        iso_column(iso_row(row, fields.drop_last()), fields.last())
    }
}

/// The ISO text of a number in a column of the given type.
fn to_iso(data_type: &ArrowType, v: i64) -> (r: Option<String>)
    ensures
        r.deep_view() == iso_text(data_type@, v),
{
    match data_type {
        ArrowType::Timestamp(TimeUnit::Second, _) => rfc3339_seconds(v),
        ArrowType::Timestamp(TimeUnit::Millisecond, _) => rfc3339_millis(v),
        ArrowType::Timestamp(TimeUnit::Microsecond, _) => rfc3339_micros(v),
        ArrowType::Timestamp(TimeUnit::Nanosecond, _) => Some(rfc3339_nanos(v)),
        ArrowType::Date32 => match v.checked_mul(DAY) {
            Some(seconds) => date_text(seconds),
            None => None,
        },
        _ => None,
    }
}

/// Rewrites the values of one column as ISO text.
fn column_to_iso(row: &mut Json, field: &ArrowField)
    ensures
        final(row)@ == iso_column(old(row)@, field@),
{
    broadcast use json::lemma_json_view;

    let rewritten = match &*row {
        Json::Object(members) => {
            let ghost model = iso_column(row@, field@)->Object_0;
            let mut out: Vec<Member> = Vec::new();
            let mut i: usize = 0;
            while i < members.len()
                invariant
                    i <= members.len(),
                    row@ == JsonView::Object(json::member_views(members@)),
                    model == iso_column(row@, field@)->Object_0,
                    json::member_views(out@) == model.take(i as int),
                decreases members.len() - i,
            {
                let ghost before = json::member_views(out@);
                assert(json::member_views(members@)[i as int] == members@[i as int]@);
                let key = members[i].key.clone();
                let value = if text::same(key.as_str(), field.name.as_str()) {
                    match members[i].value.as_i64() {
                        Some(v) => match to_iso(&field.data_type, v) {
                            Some(iso) => Json::Str(iso),
                            None => members[i].value.clone(),
                        },
                        None => members[i].value.clone(),
                    }
                } else {
                    members[i].value.clone()
                };
                let member = Member { key, value };
                out.push(member);
                assert(json::member_views(out@) =~= before.push(member@));
                assert(json::member_views(out@) =~= model.take(i + 1));
                i = i + 1;
            }
            assert(json::member_views(out@) =~= model);
            Json::Object(out)
        },
        _ => row.clone(),
    };
    *row = rewritten;
}

/// Rewrites the `Timestamp` and `Date` columns of the rows, which come out of Arrow as
/// integers, as ISO text.
pub fn temporals_to_iso(schema: &ArrowSchema, rows: &mut Vec<Json>)
    ensures
        json::json_views(final(rows)@) == json::json_views(old(rows)@).map_values(
            |row: JsonView| iso_row(row, schema@),
        ),
{
    let ghost all = json::json_views(rows@);
    let ghost model = all.map_values(|row: JsonView| iso_row(row, schema@));
    let mut out: Vec<Json> = Vec::new();
    let mut i: usize = 0;
    while i < rows.len()
        invariant
            i <= rows.len(),
            all == json::json_views(rows@),
            model == all.map_values(|row: JsonView| iso_row(row, schema@)),
            json::json_views(out@) == model.take(i as int),
        decreases rows.len() - i,
    {
        let ghost before = json::json_views(out@);
        assert(all[i as int] == rows@[i as int]@);
        let mut row = rows[i].clone();
        let mut k: usize = 0;
        while k < schema.fields.len()
            invariant
                k <= schema.fields.len(),
                i < rows.len(),
                row@ == iso_row(rows@[i as int]@, schema@.take(k as int)),
            decreases schema.fields.len() - k,
        {
            assert(schema@.take(k + 1).drop_last() =~= schema@.take(k as int));
            assert(schema@[k as int] == schema.fields@[k as int]@);
            column_to_iso(&mut row, &schema.fields[k]);
            k = k + 1;
        }
        assert(schema@.take(k as int) =~= schema@);
        out.push(row);
        assert(json::json_views(out@) =~= before.push(row@));
        assert(json::json_views(out@) =~= model.take(i + 1));
        i = i + 1;
    }
    assert(json::json_views(out@) =~= model);
    *rows = out;
}

// === Batches ===

/// `arrow::datatypes::DataType`, as it is handed to `arrow`.
#[verifier::external_type_specification]
#[verifier::external_body]
pub struct ExOutsideType(OutsideType);

/// `arrow::datatypes::Field`, as it is handed to `arrow`.
#[verifier::external_type_specification]
#[verifier::external_body]
pub struct ExOutsideField(OutsideField);

/// `arrow::datatypes::TimeUnit`, as it is taken from `arrow`.
#[verifier::external_type_specification]
#[verifier::external_body]
pub struct ExOutsideUnit(OutsideUnit);

/// A record batch of `arrow`, which a transport puts in and takes out. Nothing is known of it
/// but what [`batch_view`] names.
#[verifier::external_body]
#[derive(Debug)]
pub struct RecordBatch {
    pub inner: arrow::record_batch::RecordBatch,
}

/// `arrow::array::ArrayData`, the values of one column.
#[verifier::external_type_specification]
#[verifier::external_body]
pub struct ExArrayData(ArrayData);

/// What the values of a column are made of: the values of its parts; where they are dates or
/// durations, their numbers; and where they are text, that text.
pub struct DataView {
    pub parts: Seq<DataView>,
    pub numbers: Seq<Option<i64>>,
    pub texts: Seq<Option<Seq<char>>>,
}

/// What `data` is made of.
pub uninterp spec fn data_view(data: ArrayData) -> DataView;

/// What the values of the columns are made of.
pub open spec fn data_views(data: Seq<ArrayData>) -> Seq<DataView> {
    data.map_values(|values: ArrayData| data_view(values))
}

/// What a record batch holds: its columns, how many rows, what the values of each column are
/// made of, and the rows that `serde_arrow` reads from it as JSON, or the message of its error.
pub struct BatchView {
    pub columns: Seq<ArrowFieldView>,
    pub rows: nat,
    pub data: Seq<DataView>,
    pub decoded: Result<Seq<JsonView>, Seq<char>>,
}

/// Rows in columns: a record batch, with its columns at hand.
#[derive(Debug)]
pub struct Batch {
    columns: ArrowSchema,
    inner: RecordBatch,
}

impl View for Batch {
    type V = BatchView;

    closed spec fn view(&self) -> BatchView {
        batch_view(self.inner)
    }
}

/// Why rows were not encoded.
#[derive(Debug)]
pub enum EncodeError {
    /// The rows do not fit the columns.
    Rows(String),
    /// The columns do not make a batch.
    Batch(String),
}

/// The model of an [`EncodeError`].
pub enum EncodeErrorView {
    Rows(Seq<char>),
    Batch(Seq<char>),
}

impl View for EncodeError {
    type V = EncodeErrorView;

    open spec fn view(&self) -> EncodeErrorView {
        match self {
            EncodeError::Rows(message) => EncodeErrorView::Rows(message@),
            EncodeError::Batch(message) => EncodeErrorView::Batch(message@),
        }
    }
}

/// What `batch` holds.
pub uninterp spec fn batch_view(batch: RecordBatch) -> BatchView;

/// The batch that `serde_arrow` and `arrow` make of the rows.
pub uninterp spec fn batch_of(fields: Seq<ArrowFieldView>, rows: Seq<JsonView>) -> Result<
    BatchView,
    EncodeErrorView,
>;

/// The metadata key that `serde_arrow` takes as an instruction.
pub const STRATEGY: &'static str = "SERDE_ARROW:strategy";

/// The first and the last microsecond of the years that are written with four digits.
pub const FIRST_MOMENT: i64 = -62_167_219_200_000_000;

pub const LAST_MOMENT: i64 = 253_402_300_799_999_999;

/// The first and the last day of the years that are written with four digits.
pub const FIRST_DAY: i64 = -719_528;

pub const LAST_DAY: i64 = 2_932_896;

/// Whether `text` is the RFC 3339 text of a moment, to the microsecond, as `chrono` writes
/// it.
pub open spec fn writes_moment(text: Seq<char>) -> bool {
    exists|v: i64|
        FIRST_MOMENT <= v <= LAST_MOMENT && #[trigger] rfc3339_of_micros(v) == Some(text)
}

/// A moment with the offset of UTC in place of a `Z`.
pub open spec fn utc_text(text: Seq<char>) -> Seq<char> {
    if text.len() > 0 && text.last() == 'Z' {
        text.drop_last() + "+00:00"@
    } else {
        text
    }
}

/// A row with the moments of one column in the form in which they come back.
pub open spec fn utc_column(row: JsonView, field: ArrowFieldView) -> JsonView {
    match row {
        JsonView::Object(members) => JsonView::Object(
            members.map_values(
                |member: (Seq<char>, JsonView)|
                    match member.1 {
                        JsonView::Str(text) => if member.0 == field.name
                            && field.data_type is Timestamp {
                            (member.0, JsonView::Str(utc_text(text)))
                        } else {
                            member
                        },
                        _ => member,
                    },
            ),
        ),
        _ => row,
    }
}

/// A row with its moments in the form in which they come back, column after column.
pub open spec fn utc_row(row: JsonView, fields: Seq<ArrowFieldView>) -> JsonView
    decreases fields.len(),
{
    if fields.len() == 0 {
        row
    } else {
        utc_column(utc_row(row, fields.drop_last()), fields.last())
    }
}

/// A row whose moments are not written with a `Z` comes back as it was.
pub proof fn rows_without_z_come_back(row: JsonView, fields: Seq<ArrowFieldView>)
    requires
        row is Object ==> forall|i: int, k: int|
            0 <= i < row->Object_0.len() && 0 <= k < fields.len() && (
            #[trigger] fields[k]).data_type is Timestamp && fields[k].name == (
            #[trigger] row->Object_0[i]).0 && row->Object_0[i].1 is Str ==> utc_text(
                row->Object_0[i].1->Str_0,
            ) == row->Object_0[i].1->Str_0,
    ensures
        utc_row(row, fields) == row,
    decreases fields.len(),
{
    if fields.len() > 0 {
        let fewer = fields.drop_last();
        let last = fields.len() - 1;
        assert forall|i: int, k: int|
            row is Object && 0 <= i < row->Object_0.len() && 0 <= k < fewer.len() && (
            #[trigger] fewer[k]).data_type is Timestamp && fewer[k].name == (
            #[trigger] row->Object_0[i]).0 && row->Object_0[i].1 is Str implies utc_text(
            row->Object_0[i].1->Str_0,
        ) == row->Object_0[i].1->Str_0 by {
            assert(fewer[k] == fields[k]);
        }
        rows_without_z_come_back(row, fewer);
        match row {
            JsonView::Object(members) => {
                assert(fields[last] == fields.last());
                assert(utc_column(row, fields[last])->Object_0 =~= members);
            },
            _ => {},
        }
    }
}

/// Whether `text` is a date as `chrono` writes it.
pub open spec fn writes_day(text: Seq<char>) -> bool {
    exists|v: i64|
        FIRST_DAY <= v <= LAST_DAY && #[trigger] date_of_seconds((v * DAY) as i64) == Some(text)
}

/// Whether a column that has no parts holds `value` and gives it back. Moments and dates
/// come back as text at the top of a row only; a moment comes back with the offset of UTC.
pub open spec fn fits_scalar(field: ArrowFieldView, value: JsonView, top: bool) -> bool {
    match value {
        JsonView::Null => field.nullable,
        JsonView::Bool(_) => field.data_type is Boolean,
        JsonView::Str(text) => {
            ||| field.data_type is Utf8
            ||| top && field.data_type is Timestamp && writes_moment(utc_text(text))
            ||| top && field.data_type is Date32 && writes_day(text)
        },
        JsonView::Number(NumberView::PosInt(n)) => field.data_type is UInt64
            || field.data_type is Int64 && n <= i64::MAX,
        JsonView::Number(NumberView::NegInt(n)) => field.data_type is Int64 && n < 0,
        JsonView::Number(NumberView::Float(text)) => field.data_type is Float64
            && json::json_parsed(text) == Ok::<JsonView, Seq<char>>(value),
        _ => false,
    }
}

/// Whether a column holds `value` and gives it back.
pub open spec fn fits(field: ArrowFieldView, value: JsonView, top: bool) -> bool
    decreases value,
{
    match value {
        JsonView::Array(items) => match field.data_type {
            ArrowTypeView::List(item) => forall|i: int|
                0 <= i < items.len() ==> fits(*item, #[trigger] items[i], false),
            _ => false,
        },
        JsonView::Object(members) => match field.data_type {
            ArrowTypeView::Struct(parts) => {
                &&& members.len() == parts.len()
                &&& in_order(members)
                &&& forall|i: int|
                    0 <= i < members.len() ==> fits_member(parts, #[trigger] members[i], false)
            },
            _ => false,
        },
        _ => fits_scalar(field, value, top),
    }
}

/// Whether a column of the name of `member` holds its value and gives it back.
pub open spec fn fits_member(
    fields: Seq<ArrowFieldView>,
    member: (Seq<char>, JsonView),
    top: bool,
) -> bool
    decreases member,
{
    exists|k: int|
        0 <= k < fields.len() && (#[trigger] fields[k]).name == member.0 && fits(
            fields[k],
            member.1,
            top,
        )
}

/// Whether the members stand in the order in which `serde_json` keeps them, each name once.
pub open spec fn in_order(members: Seq<(Seq<char>, JsonView)>) -> bool {
    forall|i: int, j: int|
        0 <= i < j < members.len() ==> text::ordered(
            (#[trigger] members[i]).0,
            (#[trigger] members[j]).0,
        ) && members[i].0 != members[j].0
}

/// Whether `row` has a value for each column that the column holds and gives back.
pub open spec fn fits_row(fields: Seq<ArrowFieldView>, row: JsonView) -> bool {
    match row {
        JsonView::Object(members) => {
            &&& members.len() == fields.len()
            &&& in_order(members)
            &&& forall|i: int|
                0 <= i < members.len() ==> fits_member(fields, #[trigger] members[i], true)
        },
        _ => false,
    }
}

/// Whether no two columns share a name.
pub open spec fn distinct_columns(fields: Seq<ArrowFieldView>) -> bool {
    forall|i: int, j: int|
        0 <= i < j < fields.len() ==> (#[trigger] fields[i]).name != (#[trigger] fields[j]).name
}

/// Whether values of the type come back from a batch, as far as this is stated: booleans,
/// 64-bit numbers, text, moments to the microsecond, dates, and lists and structs of them.
pub open spec fn plain_type(data_type: ArrowTypeView) -> bool
    decreases data_type,
{
    match data_type {
        ArrowTypeView::Boolean => true,
        ArrowTypeView::Int64 => true,
        ArrowTypeView::UInt64 => true,
        ArrowTypeView::Float64 => true,
        ArrowTypeView::Utf8 => true,
        ArrowTypeView::Date32 => true,
        ArrowTypeView::Timestamp(unit, zone) => unit == TimeUnit::Microsecond && zone == Some(
            "UTC"@,
        ),
        ArrowTypeView::List(item) => plain_part(*item),
        ArrowTypeView::Struct(parts) => {
            &&& parts.len() > 0
            &&& distinct_columns(parts)
            &&& forall|i: int| 0 <= i < parts.len() ==> plain_part(#[trigger] parts[i])
        },
        _ => false,
    }
}

/// Whether a part of a column has a plain type, no metadata and no reserved name.
pub open spec fn plain_part(field: ArrowFieldView) -> bool
    decreases field,
{
    &&& field.metadata == Map::<Seq<char>, Seq<char>>::empty()
    &&& field.name != json::RESERVED@
    &&& plain_type(field.data_type)
}

/// Whether the columns have plain types and names of their own, none of them reserved, and
/// instruct `serde_arrow` in nothing.
pub open spec fn plain_columns(fields: Seq<ArrowFieldView>) -> bool {
    &&& distinct_columns(fields)
    &&& forall|i: int|
        0 <= i < fields.len() ==> {
            &&& plain_type((#[trigger] fields[i]).data_type)
            &&& fields[i].name != json::RESERVED@
            &&& !fields[i].metadata.contains_key(STRATEGY@)
        }
}

/// Whether the columns are plain, and hold the values of every row and give them back.
pub open spec fn fits_rows(fields: Seq<ArrowFieldView>, rows: Seq<JsonView>) -> bool {
    &&& plain_columns(fields)
    &&& forall|i: int| 0 <= i < rows.len() ==> fits_row(fields, #[trigger] rows[i])
}

/// The bytes of the text in `value`, as UTF-8, and the items of the lists in it.
pub open spec fn value_size(value: JsonView) -> nat
    decreases value,
{
    match value {
        JsonView::Str(s) => vstd::utf8::encode_utf8(s).len(),
        JsonView::Array(items) => values_size(items),
        JsonView::Object(members) => members_size(members),
        _ => 0,
    }
}

/// The number of values, with the sizes of each.
pub open spec fn values_size(items: Seq<JsonView>) -> nat
    decreases items,
{
    if items.len() == 0 {
        0
    } else {
        values_size(items.subrange(0, items.len() - 1)) + 1 + value_size(items[items.len() - 1])
    }
}

/// The sizes of the values of the members.
pub open spec fn members_size(members: Seq<(Seq<char>, JsonView)>) -> nat
    decreases members,
{
    if members.len() == 0 {
        0
    } else {
        members_size(members.subrange(0, members.len() - 1)) + member_size(
            members[members.len() - 1],
        )
    }
}

/// The size of the value of a member.
pub open spec fn member_size(member: (Seq<char>, JsonView)) -> nat
    decreases member,
{
    value_size(member.1)
}

/// Whether rows are certain to be encoded: there are columns, they hold the values of every
/// row, and the rows are within what the 32-bit offsets of a text or list column can address.
pub open spec fn encodable(fields: Seq<ArrowFieldView>, rows: Seq<JsonView>) -> bool {
    &&& fields.len() > 0
    &&& fits_rows(fields, rows)
    &&& values_size(rows) <= i32::MAX
}

// === Reading ===

/// The first and the last day that `chrono` has a date for, counted from the epoch.
pub const FIRST_DATE: i64 = -96_465_292;

pub const LAST_DATE: i64 = 95_026_236;

/// The milliseconds of a day.
pub const DAY_MILLIS: i64 = 86_400_000;

/// The scales at which `serde_arrow` can write every decimal.
pub const LEAST_SCALE: i8 = -24;

pub const MOST_SCALE: i8 = 61;

/// Whether values of the type cannot be read whatever they are, or not all of them: binary
/// values of no length, and decimals that are longer than `serde_arrow` has room for.
pub open spec fn unread_type(data_type: ArrowTypeView) -> bool
    decreases data_type,
{
    match data_type {
        ArrowTypeView::FixedSizeBinary(n) => n == 0,
        ArrowTypeView::Decimal128(_, scale) => scale < LEAST_SCALE || scale > MOST_SCALE,
        ArrowTypeView::List(item) => unread_part(*item),
        ArrowTypeView::LargeList(item) => unread_part(*item),
        ArrowTypeView::FixedSizeList(item, _) => unread_part(*item),
        ArrowTypeView::Struct(parts) => unread_columns(parts),
        ArrowTypeView::Mapping(entries, _) => unread_part(*entries),
        ArrowTypeView::Union(parts) => unread_columns(parts),
        _ => false,
    }
}

/// Whether the type of a part is one that cannot be read.
pub open spec fn unread_part(field: ArrowFieldView) -> bool
    decreases field,
{
    unread_type(field.data_type)
}

/// Whether a column has a type that cannot be read.
pub open spec fn unread_columns(fields: Seq<ArrowFieldView>) -> bool
    decreases fields,
{
    if fields.len() == 0 {
        false
    } else {
        unread_part(fields[fields.len() - 1]) || unread_columns(
            fields.subrange(0, fields.len() - 1),
        )
    }
}

/// Whether `number` stands for a date or a duration that `serde_arrow` cannot write as text: a
/// date that `chrono` does not have, or the duration that has no opposite.
pub open spec fn stray(data_type: ArrowTypeView, number: i64) -> bool {
    match data_type {
        ArrowTypeView::Date32 => number < FIRST_DATE || number > LAST_DATE,
        ArrowTypeView::Date64 => number <= (FIRST_DATE - 1) * DAY_MILLIS || number >= (LAST_DATE
            + 1) * DAY_MILLIS,
        ArrowTypeView::Duration(_) => number == i64::MIN,
        _ => false,
    }
}

/// Whether the values are dates or durations and one of them cannot be written as text.
pub open spec fn strays(data_type: ArrowTypeView, data: DataView) -> bool {
    exists|i: int|
        0 <= i < data.numbers.len() && match #[trigger] data.numbers[i] {
            Some(number) => stray(data_type, number),
            None => false,
        }
}

/// Whether a key of the type is read as the text that it is.
pub open spec fn text_key(data_type: ArrowTypeView) -> bool {
    match data_type {
        ArrowTypeView::Utf8 => true,
        ArrowTypeView::LargeUtf8 => true,
        ArrowTypeView::Utf8View => true,
        ArrowTypeView::Dictionary(_, _) => true,
        _ => false,
    }
}

/// Whether one of the keys is the name that `serde_json` keeps for raw text.
pub open spec fn names_reserved(data: DataView) -> bool {
    data.texts.contains(Some(json::RESERVED@))
}

/// Whether a value may be asked for as text that cannot be written so. The keys of a map are
/// asked for as text, and so is what stands behind the name that `serde_json` keeps for raw
/// text: the first column of a struct by that name, or what a map holds at that key.
pub open spec fn stray_type(data_type: ArrowTypeView, data: DataView) -> bool
    decreases data_type, 0int,
{
    match data_type {
        ArrowTypeView::List(item) => stray_item(*item, data),
        ArrowTypeView::LargeList(item) => stray_item(*item, data),
        ArrowTypeView::FixedSizeList(item, _) => stray_item(*item, data),
        ArrowTypeView::Struct(parts) => stray_columns(parts, data.parts),
        ArrowTypeView::Mapping(entries, _) => stray_entries(*entries, data),
        _ => false,
    }
}

/// Whether a value in the items of a list may be asked for as text that cannot be written so.
pub open spec fn stray_item(field: ArrowFieldView, data: DataView) -> bool
    decreases field, 0int,
{
    data.parts.len() > 0 && stray_type(field.data_type, data.parts[0])
}

/// Whether a value in the entries of a map may be asked for as text that cannot be written so.
pub open spec fn stray_entries(field: ArrowFieldView, data: DataView) -> bool
    decreases field, 0int,
{
    match field.data_type {
        ArrowTypeView::Struct(parts) => if data.parts.len() > 0 && parts.len() == 2
            && data.parts[0].parts.len() == 2 {
            let inner = data.parts[0].parts;
            ||| strays(parts[0].data_type, inner[0])
            ||| text_key(parts[0].data_type) && names_reserved(inner[0]) && strays(
                parts[1].data_type,
                inner[1],
            )
            ||| stray_any(parts, inner)
        } else {
            false
        },
        _ => false,
    }
}

/// Whether a value of the columns may be asked for as text that cannot be written so.
pub open spec fn stray_columns(fields: Seq<ArrowFieldView>, data: Seq<DataView>) -> bool
    decreases fields, 1int,
{
    ||| fields.len() > 0 && data.len() > 0 && fields[0].name == json::RESERVED@ && strays(
        fields[0].data_type,
        data[0],
    )
    ||| stray_any(fields, data)
}

/// Whether a value within a column may be asked for as text that cannot be written so.
pub open spec fn stray_any(fields: Seq<ArrowFieldView>, data: Seq<DataView>) -> bool
    decreases fields, 0int,
{
    let n = fields.len() - 1;
    if fields.len() == 0 {
        false
    } else {
        stray_any(fields.subrange(0, n), data) || n < data.len() && stray_part(fields[n], data[n])
    }
}

/// Whether a value within a part may be asked for as text that cannot be written so.
pub open spec fn stray_part(field: ArrowFieldView, data: DataView) -> bool
    decreases field, 0int,
{
    stray_type(field.data_type, data)
}

/// Whether `serde_arrow` cannot read the rows of the batch: a column has a type that it cannot
/// read, or a value is asked for as text that it cannot write so. A value that a null hides
/// counts as one that is asked for.
pub open spec fn panics_when_read(batch: BatchView) -> bool {
    unread_columns(batch.columns) || stray_columns(batch.columns, batch.data)
}

/// Whether values of the type cannot be read.
fn has_unread_type(data_type: &ArrowType) -> (r: bool)
    ensures
        r == unread_type(data_type@),
    decreases data_type, 0int,
{
    broadcast use lemma_arrow_type_view;

    match data_type {
        ArrowType::FixedSizeBinary(n) => *n == 0,
        ArrowType::Decimal128(_, scale) => *scale < LEAST_SCALE || *scale > MOST_SCALE,
        ArrowType::List(item) | ArrowType::LargeList(item) | ArrowType::FixedSizeList(
            item,
            _,
        ) | ArrowType::Mapping(item, _) => {
            let r = has_unread_type(&item.data_type);
            assert(unread_part(arrow_field_view(**item)) == r);
            r
        },
        ArrowType::Struct(parts) | ArrowType::Union(parts) => has_unread_columns(parts),
        _ => false,
    }
}

/// Whether a column has a type that cannot be read.
fn has_unread_columns(fields: &Vec<ArrowField>) -> (r: bool)
    ensures
        r == unread_columns(arrow_field_views(fields@)),
    decreases fields, 1int,
{
    let ghost views = arrow_field_views(fields@);
    let mut found: bool = false;
    let mut i: usize = 0;
    while i < fields.len()
        invariant
            i <= fields.len(),
            views == arrow_field_views(fields@),
            found == unread_columns(views.subrange(0, i as int)),
        decreases fields.len() - i,
    {
        assert(views[i as int] == fields@[i as int]@);
        let ghost more = views.subrange(0, i + 1);
        assert(more.subrange(0, more.len() - 1) =~= views.subrange(0, i as int));
        let unread = has_unread_type(&fields[i].data_type);
        assert(unread_part(more[more.len() - 1]) == unread);
        found = found || unread;
        i = i + 1;
    }
    assert(views.subrange(0, i as int) =~= views);
    found
}

/// `arrow::array::Array::to_data` gives the values of each column.
#[verifier::external_body]
fn columns_data(batch: &RecordBatch) -> (r: Vec<ArrayData>)
    ensures
        data_views(r@) == batch_view(*batch).data,
{
    batch.inner.columns().iter().map(|column| arrow::array::Array::to_data(column)).collect()
}

/// `ArrayData::child_data` gives the values of the parts: the columns of a struct, the items of
/// a list, the entries of a map.
#[verifier::external_body]
fn parts_data(data: &ArrayData) -> (r: Vec<ArrayData>)
    ensures
        data_views(r@) == data_view(*data).parts,
{
    data.child_data().to_vec()
}

/// `arrow::compute::cast` gives dates and durations as the numbers that they are kept as, and
/// nothing where a value is null.
#[verifier::external_body]
fn numbers_of(data: &ArrayData) -> (r: Vec<Option<i64>>)
    ensures
        r@ == data_view(*data).numbers,
{
    let values = arrow::array::make_array(data.clone());
    let numbers = arrow::compute::cast(&values, &OutsideType::Int64).unwrap_or(values);
    match arrow::array::AsArray::as_primitive_opt::<arrow::datatypes::Int64Type>(&numbers) {
        Some(numbers) => numbers.iter().collect(),
        None => Vec::new(),
    }
}

/// `arrow::compute::cast` gives text of whatever kind as text, and nothing where a value is
/// null.
#[verifier::external_body]
fn texts_of(data: &ArrayData) -> (r: Vec<Option<String>>)
    ensures
        r.deep_view() == data_view(*data).texts,
{
    let values = arrow::array::make_array(data.clone());
    let texts = arrow::compute::cast(&values, &OutsideType::LargeUtf8).unwrap_or(values);
    match arrow::array::AsArray::as_string_opt::<i64>(&texts) {
        Some(texts) => texts.iter().map(|text| text.map(str::to_string)).collect(),
        None => Vec::new(),
    }
}

/// Whether one of the keys is the name that `serde_json` keeps for raw text.
fn has_reserved(data: &ArrayData) -> (r: bool)
    ensures
        r == names_reserved(data_view(*data)),
{
    let texts = texts_of(data);
    let ghost model = data_view(*data).texts;
    let mut i: usize = 0;
    while i < texts.len()
        invariant
            i <= texts.len(),
            model == texts.deep_view(),
            model == data_view(*data).texts,
            forall|k: int| 0 <= k < i ==> #[trigger] model[k] != Some(json::RESERVED@),
        decreases texts.len() - i,
    {
        assert(model[i as int] == texts@[i as int].deep_view());
        match &texts[i] {
            Some(text) => {
                if text::same(text.as_str(), json::RESERVED) {
                    assert(model[i as int] == Some(json::RESERVED@));
                    return true;
                }
            },
            None => {},
        }
        i = i + 1;
    }
    false
}

/// Whether `number` stands for a date or a duration that cannot be written as text.
fn is_stray(data_type: &ArrowType, number: i64) -> (r: bool)
    ensures
        r == stray(data_type@, number),
{
    match data_type {
        ArrowType::Date32 => number < FIRST_DATE || number > LAST_DATE,
        ArrowType::Date64 => number <= (FIRST_DATE - 1) * DAY_MILLIS || number >= (LAST_DATE + 1)
            * DAY_MILLIS,
        ArrowType::Duration(_) => number == i64::MIN,
        _ => false,
    }
}

/// Whether the values are dates or durations and one of them cannot be written as text.
fn has_strays(data_type: &ArrowType, data: &ArrayData) -> (r: bool)
    ensures
        r == strays(data_type@, data_view(*data)),
{
    let ghost model = data_view(*data).numbers;
    match data_type {
        ArrowType::Date32 | ArrowType::Date64 | ArrowType::Duration(_) => {},
        _ => {
            return false;
        },
    }
    let numbers = numbers_of(data);
    let mut i: usize = 0;
    while i < numbers.len()
        invariant
            i <= numbers.len(),
            model == numbers@,
            model == data_view(*data).numbers,
            forall|k: int|
                0 <= k < i ==> match #[trigger] model[k] {
                    Some(number) => !stray(data_type@, number),
                    None => true,
                },
        decreases numbers.len() - i,
    {
        match numbers[i] {
            Some(number) => {
                if is_stray(data_type, number) {
                    assert(model[i as int] == Some(number));
                    return true;
                }
            },
            None => {},
        }
        i = i + 1;
    }
    false
}

/// Whether a key of the type is read as the text that it is.
fn is_text_key(data_type: &ArrowType) -> (r: bool)
    ensures
        r == text_key(data_type@),
{
    match data_type {
        ArrowType::Utf8
        | ArrowType::LargeUtf8
        | ArrowType::Utf8View
        | ArrowType::Dictionary(_, _) => true,
        _ => false,
    }
}

/// Whether a value may be asked for as text that cannot be written so.
fn has_stray_type(data_type: &ArrowType, data: &ArrayData) -> (r: bool)
    ensures
        r == stray_type(data_type@, data_view(*data)),
    decreases data_type, 0int,
{
    broadcast use lemma_arrow_type_view;

    let ghost view = data_view(*data);
    match data_type {
        ArrowType::List(item) | ArrowType::LargeList(item) | ArrowType::FixedSizeList(item, _) => {
            let parts = parts_data(data);
            assert(parts.len() == view.parts.len());
            let r = if parts.len() > 0 {
                assert(view.parts[0] == data_view(parts@[0]));
                has_stray_type(&item.data_type, &parts[0])
            } else {
                false
            };
            assert(stray_item(arrow_field_view(**item), view) == r);
            r
        },
        ArrowType::Struct(fields) => {
            let parts = parts_data(data);
            has_stray_columns(fields, &parts)
        },
        ArrowType::Mapping(entries, _) => {
            let r = has_stray_entries(entries, data);
            assert(stray_entries(arrow_field_view(**entries), view) == r);
            r
        },
        _ => false,
    }
}

/// Whether a value in the entries of a map may be asked for as text that cannot be written so.
fn has_stray_entries(field: &ArrowField, data: &ArrayData) -> (r: bool)
    ensures
        r == stray_entries(field@, data_view(*data)),
    decreases field, 0int,
{
    broadcast use lemma_arrow_type_view;

    let ghost view = data_view(*data);
    match &field.data_type {
        ArrowType::Struct(fields) => {
            let ghost views = arrow_field_views(fields@);
            let outer = parts_data(data);
            assert(outer.len() == view.parts.len());
            if outer.len() == 0 || fields.len() != 2 {
                return false;
            }
            assert(view.parts[0] == data_view(outer@[0]));
            let inner = parts_data(&outer[0]);
            assert(inner.len() == view.parts[0].parts.len());
            if inner.len() != 2 {
                return false;
            }
            assert(view.parts[0].parts[0] == data_view(inner@[0]));
            assert(view.parts[0].parts[1] == data_view(inner@[1]));
            assert(views[0] == fields@[0]@ && views[1] == fields@[1]@);
            proof {
                lemma_arrow_type_view(field.data_type);
                assert(field@.data_type == field.data_type@);
            }
            let r = has_strays(&fields[0].data_type, &inner[0]) || is_text_key(
                &fields[0].data_type,
            ) && has_reserved(&inner[0]) && has_strays(&fields[1].data_type, &inner[1])
                || has_stray_any(fields, &inner);
            assert(data_views(inner@) =~= view.parts[0].parts);
            r
        },
        _ => false,
    }
}

/// Whether a value of the columns may be asked for as text that cannot be written so.
fn has_stray_columns(fields: &Vec<ArrowField>, data: &Vec<ArrayData>) -> (r: bool)
    ensures
        r == stray_columns(arrow_field_views(fields@), data_views(data@)),
    decreases fields, 2int,
{
    let ghost views = arrow_field_views(fields@);
    if fields.len() > 0 && data.len() > 0 {
        assert(views[0] == fields@[0]@);
        assert(data_views(data@)[0] == data_view(data@[0]));
        if text::same(fields[0].name.as_str(), json::RESERVED) && has_strays(
            &fields[0].data_type,
            &data[0],
        ) {
            return true;
        }
    }
    has_stray_any(fields, data)
}

/// Whether a value within a column may be asked for as text that cannot be written so.
fn has_stray_any(fields: &Vec<ArrowField>, data: &Vec<ArrayData>) -> (r: bool)
    ensures
        r == stray_any(arrow_field_views(fields@), data_views(data@)),
    decreases fields, 1int,
{
    let ghost views = arrow_field_views(fields@);
    let ghost model = data_views(data@);
    let mut found: bool = false;
    let mut i: usize = 0;
    while i < fields.len()
        invariant
            i <= fields.len(),
            views == arrow_field_views(fields@),
            model == data_views(data@),
            found == stray_any(views.subrange(0, i as int), model),
        decreases fields.len() - i,
    {
        assert(views[i as int] == fields@[i as int]@);
        let ghost more = views.subrange(0, i + 1);
        assert(more.subrange(0, more.len() - 1) =~= views.subrange(0, i as int));
        assert(more[more.len() - 1] == views[i as int]);
        let stray = if i < data.len() {
            assert(model[i as int] == data_view(data@[i as int]));
            let stray = has_stray_type(&fields[i].data_type, &data[i]);
            assert(stray_part(views[i as int], model[i as int]) == stray);
            stray
        } else {
            false
        };
        found = found || stray;
        i = i + 1;
    }
    assert(views.subrange(0, i as int) =~= views);
    found
}

/// Values of a plain type can be read.
proof fn lemma_plain_type_read(data_type: ArrowTypeView, data: DataView)
    requires
        plain_type(data_type),
    ensures
        !unread_type(data_type),
        !stray_type(data_type, data),
    decreases data_type, 0int,
{
    match data_type {
        ArrowTypeView::List(item) => {
            lemma_plain_type_read(item.data_type, data.parts[0]);
            assert(!unread_part(*item));
            assert(!stray_item(*item, data));
        },
        ArrowTypeView::Struct(parts) => {
            assert forall|i: int| 0 <= i < parts.len() implies plain_type(
                (#[trigger] parts[i]).data_type,
            ) by {
                assert(plain_part(parts[i]));
            }
            assert(plain_part(parts[0]));
            lemma_plain_columns_read(parts, data.parts);
        },
        _ => {},
    }
}

/// Columns of plain types can be read, where the first does not have the reserved name.
proof fn lemma_plain_columns_read(fields: Seq<ArrowFieldView>, data: Seq<DataView>)
    requires
        forall|i: int| 0 <= i < fields.len() ==> plain_type((#[trigger] fields[i]).data_type),
    ensures
        !unread_columns(fields),
        !stray_any(fields, data),
        fields.len() > 0 && fields[0].name != json::RESERVED@ ==> !stray_columns(fields, data),
    decreases fields, 1int,
{
    if fields.len() > 0 {
        let n = fields.len() - 1;
        let fewer = fields.subrange(0, n);
        assert forall|i: int| 0 <= i < fewer.len() implies plain_type(
            (#[trigger] fewer[i]).data_type,
        ) by {
            assert(fewer[i] == fields[i]);
        }
        lemma_plain_columns_read(fewer, data);
        lemma_plain_type_read(fields[n].data_type, data[n]);
        assert(!unread_part(fields[n]));
        assert(!stray_part(fields[n], data[n]));
    }
}

/// Whether the type is one that a data type is carried as.
pub open spec fn mapped_type(data_type: ArrowTypeView) -> bool
    decreases data_type,
{
    match data_type {
        ArrowTypeView::Boolean => true,
        ArrowTypeView::Int64 => true,
        ArrowTypeView::UInt64 => true,
        ArrowTypeView::Float64 => true,
        ArrowTypeView::Utf8 => true,
        ArrowTypeView::Binary => true,
        ArrowTypeView::Date32 => true,
        ArrowTypeView::Timestamp(unit, zone) => unit == TimeUnit::Microsecond && zone == Some(
            "UTC"@,
        ),
        ArrowTypeView::List(item) => mapped_part(*item),
        ArrowTypeView::Struct(parts) => forall|i: int|
            0 <= i < parts.len() ==> mapped_part(#[trigger] parts[i]),
        _ => false,
    }
}

/// Whether the type of a part is one that a data type is carried as.
pub open spec fn mapped_part(field: ArrowFieldView) -> bool
    decreases field,
{
    mapped_type(field.data_type)
}

/// Whether the columns have types that data types are carried as.
pub open spec fn mapped_columns(fields: Seq<ArrowFieldView>) -> bool {
    forall|i: int| 0 <= i < fields.len() ==> mapped_part(#[trigger] fields[i])
}

/// Every data type is carried as one of those types.
proof fn lemma_mapped_type(data_type: TypeView)
    ensures
        mapped_type(to_arrow_type(data_type)),
    decreases data_type,
{
    match data_type {
        TypeView::List(inner) => {
            lemma_mapped_type(*inner);
            assert(mapped_part(*(to_arrow_type(data_type)->List_0)));
        },
        TypeView::Struct(fields) => {
            let parts = to_arrow_type(data_type)->Struct_0;
            assert forall|i: int| 0 <= i < parts.len() implies mapped_part(#[trigger] parts[i]) by {
                lemma_mapped_field(fields[i]);
            }
        },
        _ => {},
    }
}

/// Every field is carried as a column of one of those types.
proof fn lemma_mapped_field(field: FieldView)
    ensures
        mapped_part(to_arrow_field(field)),
    decreases field,
{
    lemma_mapped_type(field.data_type);
}

/// Rebuilds a number type as `arrow`'s, and leaves every other type to [`flat_type`].
/// Nothing is claimed of the value: it is only handed on to `arrow`.
#[verifier::external_body]
fn outside_type(data_type: &ArrowType) -> OutsideType {
    match data_type {
        ArrowType::Int8 => OutsideType::Int8,
        ArrowType::Int16 => OutsideType::Int16,
        ArrowType::Int32 => OutsideType::Int32,
        ArrowType::Int64 => OutsideType::Int64,
        ArrowType::UInt8 => OutsideType::UInt8,
        ArrowType::UInt16 => OutsideType::UInt16,
        ArrowType::UInt32 => OutsideType::UInt32,
        ArrowType::UInt64 => OutsideType::UInt64,
        ArrowType::Float16 => OutsideType::Float16,
        ArrowType::Float32 => OutsideType::Float32,
        ArrowType::Float64 => OutsideType::Float64,
        other => flat_type(other),
    }
}

/// Rebuilds a type without parts as `arrow`'s, and leaves every other type to
/// [`nested_type`]. Nothing is claimed of the value: it is only handed on to `arrow`.
#[verifier::external_body]
fn flat_type(data_type: &ArrowType) -> OutsideType {
    match data_type {
        ArrowType::Boolean => OutsideType::Boolean,
        ArrowType::Utf8 => OutsideType::Utf8,
        ArrowType::LargeUtf8 => OutsideType::LargeUtf8,
        ArrowType::Binary => OutsideType::Binary,
        ArrowType::LargeBinary => OutsideType::LargeBinary,
        ArrowType::Date32 => OutsideType::Date32,
        ArrowType::Date64 => OutsideType::Date64,
        other => nested_type(other),
    }
}

/// Rebuilds a type with parts as `arrow`'s; a type that no data type is carried as becomes
/// `arrow`'s null type, and is never asked for. Nothing is claimed of the value: it is only
/// handed on to `arrow`.
#[verifier::external_body]
fn nested_type(data_type: &ArrowType) -> OutsideType {
    match data_type {
        ArrowType::Timestamp(unit, zone) => OutsideType::Timestamp(
            match unit {
                TimeUnit::Second => OutsideUnit::Second,
                TimeUnit::Millisecond => OutsideUnit::Millisecond,
                TimeUnit::Microsecond => OutsideUnit::Microsecond,
                TimeUnit::Nanosecond => OutsideUnit::Nanosecond,
            },
            zone.as_deref().map(std::sync::Arc::from),
        ),
        ArrowType::List(item) => OutsideType::List(std::sync::Arc::new(outside_field(item))),
        ArrowType::Struct(fields) => OutsideType::Struct(fields.iter().map(outside_field).collect()),
        _ => OutsideType::Null,
    }
}

/// Rebuilds a column as `arrow`'s. Nothing is claimed of the value: it is only handed on
/// to `arrow`.
#[verifier::external_body]
fn outside_field(field: &ArrowField) -> OutsideField {
    let data_type = outside_type(&field.data_type);
    OutsideField::new(&field.name, data_type, field.nullable)
        .with_metadata(field.metadata.entries.iter().cloned().collect())
}

/// Rebuilds a number type of `arrow`, and leaves every other type to [`inside_flat`]. Nothing
/// is claimed of the value here: [`columns_of`] says what the columns of a batch are.
#[verifier::external_body]
fn inside_type(data_type: &OutsideType) -> ArrowType {
    match data_type {
        OutsideType::Int8 => ArrowType::Int8,
        OutsideType::Int16 => ArrowType::Int16,
        OutsideType::Int32 => ArrowType::Int32,
        OutsideType::Int64 => ArrowType::Int64,
        OutsideType::UInt8 => ArrowType::UInt8,
        OutsideType::UInt16 => ArrowType::UInt16,
        OutsideType::UInt32 => ArrowType::UInt32,
        OutsideType::UInt64 => ArrowType::UInt64,
        OutsideType::Float16 => ArrowType::Float16,
        OutsideType::Float32 => ArrowType::Float32,
        OutsideType::Float64 => ArrowType::Float64,
        other => inside_flat(other),
    }
}

/// Rebuilds a type of `arrow` without parts, and leaves every other type to
/// [`inside_timed`]. Nothing is claimed of the value here.
#[verifier::external_body]
fn inside_flat(data_type: &OutsideType) -> ArrowType {
    match data_type {
        OutsideType::Boolean => ArrowType::Boolean,
        OutsideType::Null => ArrowType::Null,
        OutsideType::Utf8 => ArrowType::Utf8,
        OutsideType::LargeUtf8 => ArrowType::LargeUtf8,
        OutsideType::Utf8View => ArrowType::Utf8View,
        OutsideType::Binary => ArrowType::Binary,
        OutsideType::LargeBinary => ArrowType::LargeBinary,
        OutsideType::BinaryView => ArrowType::BinaryView,
        OutsideType::Date32 => ArrowType::Date32,
        OutsideType::Date64 => ArrowType::Date64,
        other => inside_timed(other),
    }
}

/// Rebuilds a unit of time of `arrow`. Nothing is claimed of the value here.
#[verifier::external_body]
fn inside_unit(unit: &OutsideUnit) -> TimeUnit {
    match unit {
        OutsideUnit::Second => TimeUnit::Second,
        OutsideUnit::Millisecond => TimeUnit::Millisecond,
        OutsideUnit::Microsecond => TimeUnit::Microsecond,
        OutsideUnit::Nanosecond => TimeUnit::Nanosecond,
    }
}

/// Rebuilds a type of `arrow` with a unit or a size, and leaves every other type to
/// [`inside_nested`]. Nothing is claimed of the value here.
#[verifier::external_body]
fn inside_timed(data_type: &OutsideType) -> ArrowType {
    match data_type {
        OutsideType::Timestamp(unit, zone) => {
            ArrowType::Timestamp(inside_unit(unit), zone.as_deref().map(str::to_string))
        },
        OutsideType::Time32(unit) => ArrowType::Time32(inside_unit(unit)),
        OutsideType::Time64(unit) => ArrowType::Time64(inside_unit(unit)),
        OutsideType::Duration(unit) => ArrowType::Duration(inside_unit(unit)),
        OutsideType::FixedSizeBinary(n) => ArrowType::FixedSizeBinary(*n),
        OutsideType::Decimal128(precision, scale) => ArrowType::Decimal128(*precision, *scale),
        other => inside_nested(other),
    }
}

/// Rebuilds a type of `arrow` with one part, and leaves every other type to
/// [`inside_parts`]. Nothing is claimed of the value here.
#[verifier::external_body]
fn inside_nested(data_type: &OutsideType) -> ArrowType {
    let part = |field: &OutsideField| Box::new(inside_field(field));
    match data_type {
        OutsideType::List(item) => ArrowType::List(part(item)),
        OutsideType::LargeList(item) => ArrowType::LargeList(part(item)),
        OutsideType::FixedSizeList(item, n) => ArrowType::FixedSizeList(part(item), *n),
        OutsideType::Map(entries, sorted) => ArrowType::Mapping(part(entries), *sorted),
        other => inside_parts(other),
    }
}

/// Rebuilds a type of `arrow` with several parts; one that `serde_arrow` does not read as
/// [`ArrowType::Other`]. Nothing is claimed of the value here.
#[verifier::external_body]
fn inside_parts(data_type: &OutsideType) -> ArrowType {
    match data_type {
        OutsideType::Struct(parts) => ArrowType::Struct(parts.iter().map(|f| inside_field(f)).collect()),
        OutsideType::Union(parts, _) => ArrowType::Union(parts.iter().map(|f| inside_field(f.1)).collect()),
        OutsideType::Dictionary(key, value) => {
            ArrowType::Dictionary(Box::new(inside_type(key)), Box::new(inside_type(value)))
        },
        _ => ArrowType::Other,
    }
}

/// Rebuilds a column of `arrow`. Nothing is claimed of the value here.
#[verifier::external_body]
fn inside_field(field: &OutsideField) -> ArrowField {
    ArrowField {
        name: field.name().clone(),
        data_type: inside_type(field.data_type()),
        nullable: field.is_nullable(),
        metadata: Annotations {
            entries: field.metadata().iter().map(|(k, v)| (k.clone(), v.clone())).collect(),
        },
    }
}

/// `RecordBatch::schema` gives the columns that the batch holds; they are rebuilt part for
/// part.
#[verifier::external_body]
fn columns_of(batch: &RecordBatch) -> (r: ArrowSchema)
    ensures
        r@ == batch_view(*batch).columns,
{
    let schema = batch.inner.schema();
    ArrowSchema { fields: schema.fields().iter().map(|field| inside_field(field)).collect() }
}

/// Encodes the rows with `serde_arrow::to_arrow` and makes a batch of the arrays with
/// `arrow::record_batch::RecordBatch::try_new`. What comes back depends on the columns and
/// the rows alone. The batch has a row for each row, and the columns it was made with.
///
/// Where the columns are plain, and hold the values of every row and give them back, the rows
/// that `serde_arrow` reads from the batch are the rows that went in, once the numbers in its
/// temporal columns are written as ISO text; a moment that was written with a `Z` comes back
/// with the offset of UTC. The order of the columns does not matter:
/// `serde_arrow` finds the column of a member by its name, and `serde_json` keeps the members
/// of an object in the order of their names. Such rows are encoded wherever there are columns
/// and the text and the lists are within what the 32-bit offsets of a column can address.
/// Whether other rows are encoded or come back is left unsaid.
#[verifier::external_body]
fn encode_batch(schema: &ArrowSchema, rows: &Vec<Json>) -> (r: Result<
    RecordBatch,
    EncodeError,
>)
    requires
        mapped_columns(schema@),
    ensures
        match r {
            Ok(batch) => batch_of(schema@, json::json_views(rows@)) is Ok && batch_view(batch)
                == batch_of(schema@, json::json_views(rows@))->Ok_0,
            Err(error) => batch_of(schema@, json::json_views(rows@)) is Err && error@ == batch_of(
                schema@,
                json::json_views(rows@),
            )->Err_0,
        },
        r is Ok ==> batch_view(r->Ok_0).rows == rows.len(),
        r is Ok ==> batch_view(r->Ok_0).columns == schema@,
        encodable(schema@, json::json_views(rows@)) ==> r is Ok,
        r is Ok && fits_rows(schema@, json::json_views(rows@)) ==> batch_view(
            r->Ok_0,
        ).decoded is Ok && batch_view(r->Ok_0).decoded->Ok_0.map_values(
            |row: JsonView| iso_row(row, schema@),
        ) == json::json_views(rows@).map_values(|row: JsonView| utc_row(row, schema@)),
{
    let fields: arrow::datatypes::Fields = schema.fields.iter().map(outside_field).collect();
    let values: Vec<serde_json::Value> = rows.iter().map(json::to_value).collect();
    let arrays = serde_arrow::to_arrow(&fields, &values).map_err(|e| EncodeError::Rows(e.to_string()))?;
    let schema = std::sync::Arc::new(arrow::datatypes::Schema::new(fields));
    match arrow::record_batch::RecordBatch::try_new(schema, arrays) {
        Ok(inner) => Ok(RecordBatch { inner }),
        Err(e) => Err(EncodeError::Batch(e.to_string())),
    }
}

/// Reads the rows of a batch with `serde_arrow::from_record_batch`, as JSON. What comes
/// back is what the batch holds. The batches that `serde_arrow` panics on are left out.
#[verifier::external_body]
fn decode_batch(batch: &RecordBatch) -> (r: Result<Vec<Json>, String>)
    requires
        !panics_when_read(batch_view(*batch)),
    ensures
        match r {
            Ok(rows) => batch_view(*batch).decoded is Ok && json::json_views(rows@) == batch_view(
                *batch,
            ).decoded->Ok_0,
            Err(message) => batch_view(*batch).decoded is Err && message@ == batch_view(
                *batch,
            ).decoded->Err_0,
        },
{
    let rows: Result<Vec<serde_json::Value>, serde_arrow::Error> = serde_arrow::from_record_batch(&batch.inner);
    rows.map(|rows| rows.into_iter().map(json::from_value).collect()).map_err(|e| e.to_string())
}

/// `RecordBatch::num_rows` gives the number of rows that the batch holds.
#[verifier::external_body]
fn count_rows(batch: &RecordBatch) -> (n: usize)
    ensures
        n == batch_view(*batch).rows,
{
    batch.inner.num_rows()
}

impl Batch {
    /// The columns at hand are those of the batch.
    #[verifier::type_invariant]
    spec fn well_formed(self) -> bool {
        self.columns@ == batch_view(self.inner).columns
    }

    /// A batch that came over a transport.
    pub fn from_record_batch(inner: RecordBatch) -> (r: Batch)
        ensures
            r@ == batch_view(inner),
    {
        let columns = columns_of(&inner);
        Batch { columns, inner }
    }

    /// The batch as a transport takes it.
    pub fn record_batch(&self) -> (r: &RecordBatch)
        ensures
            batch_view(*r) == self@,
    {
        &self.inner
    }

    /// The columns of the batch.
    pub fn columns(&self) -> (r: &ArrowSchema)
        ensures
            r@ == self@.columns,
    {
        proof {
            use_type_invariant(self);
        }
        &self.columns
    }

    /// The number of rows in the batch.
    pub fn num_rows(&self) -> (n: usize)
        ensures
            n == self@.rows,
    {
        count_rows(&self.inner)
    }

    /// The rows of the batch as JSON, or why they cannot be read: those that `serde_arrow`
    /// reads, wherever it does not panic.
    pub fn to_rows(&self) -> (r: Result<Vec<Json>, String>)
        ensures
            match r {
                Ok(rows) => batch_rows(self@) is Ok && json::json_views(rows@) == batch_rows(
                    self@,
                )->Ok_0,
                Err(message) => batch_rows(self@) is Err && message@ == batch_rows(self@)->Err_0,
            },
            !panics_when_read(self@) ==> batch_rows(self@) == self@.decoded,
    {
        proof {
            use_type_invariant(self);
        }
        if has_unread_columns(&self.columns.fields) {
            return Err("a column cannot be read as JSON".to_string());
        }
        let data = columns_data(&self.inner);
        if has_stray_columns(&self.columns.fields, &data) {
            return Err("a column cannot be read as JSON".to_string());
        }
        decode_batch(&self.inner)
    }
}

/// The rows of a batch as JSON, or why they cannot be read.
pub open spec fn batch_rows(batch: BatchView) -> Result<Seq<JsonView>, Seq<char>> {
    if panics_when_read(batch) {
        Err("a column cannot be read as JSON"@)
    } else {
        batch.decoded
    }
}

/// Rows in Arrow form, which flow from reader to writer. The schema is carried once; the
/// batches are the rows.
pub struct Records {
    pub schema: ArrowSchema,
    pub batches: Vec<Batch>,
}

/// The number of rows in the batches.
pub open spec fn rows_in(batches: Seq<Batch>) -> nat
    decreases batches.len(),
{
    if batches.len() == 0 {
        0
    } else {
        rows_in(batches.drop_last()) + batches.last()@.rows
    }
}

/// The rows of the batches as JSON, one batch after the other; or the message of the first
/// that cannot be read.
pub open spec fn decoded_rows(batches: Seq<Batch>) -> Result<
    Seq<JsonView>,
    Seq<char>,
>
    decreases batches.len(),
{
    if batches.len() == 0 {
        Ok(Seq::empty())
    } else {
        match decoded_rows(batches.drop_last()) {
            Err(message) => Err(message),
            Ok(before) => match batch_rows(batches.last()@) {
                Err(message) => Err("arrow decode failed: "@ + message),
                Ok(rows) => Ok(before + rows),
            },
        }
    }
}

/// The rows of the batches as JSON, with ISO text in the temporal columns.
pub open spec fn json_rows(
    fields: Seq<ArrowFieldView>,
    batches: Seq<Batch>,
) -> Result<Seq<JsonView>, Seq<char>> {
    match decoded_rows(batches) {
        Err(message) => Err(message),
        Ok(rows) => Ok(rows.map_values(|row: JsonView| iso_row(row, fields))),
    }
}

/// What an encode error says.
pub open spec fn encode_message(error: EncodeErrorView) -> Seq<char> {
    match error {
        EncodeErrorView::Rows(message) => "arrow encode failed: "@ + message,
        EncodeErrorView::Batch(message) => message,
    }
}

impl Records {
    /// Encodes rows into Arrow against `schema`.
    pub fn encode(schema: &Schema, items: &Vec<Json>) -> (r: Result<Records, Failure>)
        ensures
            ({
                let fields = to_arrow_fields(schema@);
                let expected = batch_of(fields, json::json_views(items@));
                match r {
                    Ok(records) => {
                        &&& expected is Ok
                        &&& records.schema@ == fields
                        &&& records.batches.len() == 1
                        &&& records.batches@[0]@ == expected->Ok_0
                        &&& rows_in(records.batches@) == items.len()
                        &&& fits_rows(fields, json::json_views(items@)) ==> json_rows(
                            fields,
                            records.batches@,
                        ) == Ok::<Seq<JsonView>, Seq<char>>(
                            json::json_views(items@).map_values(
                                |row: JsonView| utc_row(row, fields),
                            ),
                        )
                    },
                    Err(failure) => {
                        &&& expected is Err
                        &&& failure@ == FailureView::Message(encode_message(expected->Err_0))
                        &&& !encodable(fields, json::json_views(items@))
                    },
                }
            }),
    {
        let arrow_schema = strata_schema_to_arrow_schema(schema);
        let ghost fields = arrow_schema@;
        assert forall|i: int| 0 <= i < fields.len() implies mapped_part(#[trigger] fields[i]) by {
            lemma_mapped_field(schema@[i]);
        }
        match encode_batch(&arrow_schema, items) {
            Ok(inner) => {
                let batch = Batch::from_record_batch(inner);
                let batches = vec![batch];
                proof {
                    reveal_with_fuel(rows_in, 2);
                    reveal_with_fuel(decoded_rows, 2);
                    assert(batches@.drop_last() =~= Seq::empty());
                    assert(batches@.last() == batch);
                    if fits_rows(fields, json::json_views(items@)) {
                        assert forall|i: int| 0 <= i < fields.len() implies plain_type(
                            (#[trigger] fields[i]).data_type,
                        ) by {}
                        lemma_plain_columns_read(fields, batch@.data);
                        assert(!panics_when_read(batch@));
                        let rows = batch@.decoded->Ok_0;
                        assert(Seq::<JsonView>::empty() + rows =~= rows);
                        assert(decoded_rows(batches@)->Ok_0 == rows);
                    }
                }
                Ok(Records { schema: arrow_schema, batches })
            },
            Err(EncodeError::Rows(message)) => Err(
                Failure::Message(text::cat2("arrow encode failed: ", message.as_str())),
            ),
            Err(EncodeError::Batch(message)) => Err(Failure::Message(message)),
        }
    }

    /// The rows of one batch that came over a transport.
    pub fn from_record_batch(inner: RecordBatch) -> (r: Records)
        ensures
            r.schema@ == batch_view(inner).columns,
            r.batches.len() == 1,
            r.batches@[0]@ == batch_view(inner),
    {
        let schema = columns_of(&inner);
        let batch = Batch::from_record_batch(inner);
        Records { schema, batches: vec![batch] }
    }

    /// The number of rows in the batches, by which the sync layer sees whether a page
    /// brought anything.
    pub fn row_count(&self) -> (r: usize)
        requires
            rows_in(self.batches@) <= usize::MAX,
        ensures
            r == rows_in(self.batches@),
    {
        let mut total: usize = 0;
        let mut i: usize = 0;
        assert(self.batches@.take(0) =~= Seq::empty());
        while i < self.batches.len()
            invariant
                i <= self.batches.len(),
                total == rows_in(self.batches@.take(i as int)),
                rows_in(self.batches@) <= usize::MAX,
            decreases self.batches.len() - i,
        {
            proof {
                lemma_rows_in_grows(self.batches@, i + 1);
                assert(self.batches@.take(i + 1).drop_last() =~= self.batches@.take(i as int));
            }
            total = total + self.batches[i].num_rows();
            i = i + 1;
        }
        assert(self.batches@.take(i as int) =~= self.batches@);
        total
    }

    /// The number of rows in the batches, where it can be counted.
    pub fn checked_row_count(&self) -> (r: Option<usize>)
        ensures
            match r {
                Some(n) => n == rows_in(self.batches@),
                None => rows_in(self.batches@) > usize::MAX,
            },
    {
        let mut total: usize = 0;
        let mut i: usize = 0;
        assert(self.batches@.take(0) =~= Seq::empty());
        while i < self.batches.len()
            invariant
                i <= self.batches.len(),
                total == rows_in(self.batches@.take(i as int)),
            decreases self.batches.len() - i,
        {
            proof {
                lemma_rows_in_grows(self.batches@, i + 1);
                assert(self.batches@.take(i + 1).drop_last() =~= self.batches@.take(i as int));
            }
            match total.checked_add(self.batches[i].num_rows()) {
                Some(sum) => {
                    total = sum;
                },
                None => {
                    return None;
                },
            }
            i = i + 1;
        }
        assert(self.batches@.take(i as int) =~= self.batches@);
        Some(total)
    }

    /// The rows as JSON, for display and for JSON-native sinks.
    pub fn to_json_rows(&self) -> (r: Result<Vec<Json>, Failure>)
        ensures
            ({
                let expected = json_rows(self.schema@, self.batches@);
                match r {
                    Ok(rows) => expected is Ok && json::json_views(rows@) == expected->Ok_0,
                    Err(failure) => expected is Err && failure@ == FailureView::Message(
                        expected->Err_0,
                    ),
                }
            }),
    {
        let mut rows: Vec<Json> = Vec::new();
        let mut i: usize = 0;
        assert(self.batches@.take(0) =~= Seq::empty());
        assert(json::json_views(rows@) =~= Seq::empty());
        while i < self.batches.len()
            invariant
                i <= self.batches.len(),
                decoded_rows(self.batches@.take(i as int)) is Ok,
                decoded_rows(self.batches@.take(i as int))->Ok_0 == json::json_views(rows@),
            decreases self.batches.len() - i,
        {
            assert(self.batches@.take(i + 1).drop_last() =~= self.batches@.take(i as int));
            match self.batches[i].to_rows() {
                Ok(mut more) => {
                    let ghost before = json::json_views(rows@);
                    let ghost added = json::json_views(more@);
                    rows.append(&mut more);
                    assert(json::json_views(rows@) =~= before + added);
                },
                Err(message) => {
                    proof {
                        lemma_decoded_rows_fail(self.batches@, i + 1);
                    }
                    return Err(
                        Failure::Message(text::cat2("arrow decode failed: ", message.as_str())),
                    );
                },
            }
            i = i + 1;
        }
        assert(self.batches@.take(i as int) =~= self.batches@);
        temporals_to_iso(&self.schema, &mut rows);
        Ok(rows)
    }
}

/// The batches hold at least as many rows as the first of them.
proof fn lemma_rows_in_grows(batches: Seq<Batch>, n: int)
    requires
        0 <= n <= batches.len(),
    ensures
        rows_in(batches.take(n)) <= rows_in(batches),
    decreases batches.len() - n,
{
    if n == batches.len() {
        assert(batches.take(n) =~= batches);
    } else {
        assert(batches.take(n + 1).drop_last() =~= batches.take(n));
        lemma_rows_in_grows(batches, n + 1);
    }
}

/// Batches are refused with the message that refuses the first of them.
proof fn lemma_decoded_rows_fail(batches: Seq<Batch>, n: int)
    requires
        0 <= n <= batches.len(),
        decoded_rows(batches.take(n)) is Err,
    ensures
        decoded_rows(batches) == decoded_rows(batches.take(n)),
    decreases batches.len() - n,
{
    if n == batches.len() {
        assert(batches.take(n) =~= batches);
    } else {
        assert(batches.take(n + 1).drop_last() =~= batches.take(n));
        lemma_decoded_rows_fail(batches, n + 1);
    }
}

/// A page of Arrow rows that a handler made itself, where the schema of its rows is not
/// known ahead.
pub struct RecordPage {
    pub data: Records,
    pub cursor: Cursor,
}


// === Laws of the mapping ===

/// Arrow carries each data type in one form: text for what has no form of its own in Arrow, a
/// moment in microseconds of UTC, a list by items that may be null, and a structure by its fields.
pub proof fn types_are_carried_in_one_form(data_type: TypeView)
    ensures
        to_arrow_type(data_type) is Boolean <==> data_type is Bool,
        to_arrow_type(data_type) is Int64 <==> data_type is Int64,
        to_arrow_type(data_type) is UInt64 <==> data_type is UInt64,
        to_arrow_type(data_type) is Float64 <==> data_type is Float64,
        to_arrow_type(data_type) is Utf8 <==> data_type is String || data_type is Decimal
            || data_type is Json,
        to_arrow_type(data_type) is Binary <==> data_type is Bytes,
        to_arrow_type(data_type) == ArrowTypeView::Timestamp(
            TimeUnit::Microsecond,
            Some("UTC"@),
        ) <==> data_type is Timestamp,
        to_arrow_type(data_type) is Date32 <==> data_type is Date,
        match data_type {
            TypeView::List(inner) => to_arrow_type(data_type) is List && {
                let item = *to_arrow_type(data_type)->List_0;
                &&& item.data_type == to_arrow_type(*inner)
                &&& item.nullable
                &&& item.name == "item"@
                &&& item.metadata == Map::<Seq<char>, Seq<char>>::empty()
            },
            TypeView::Struct(fields) => to_arrow_type(data_type) is Struct && to_arrow_type(
                data_type,
            )->Struct_0.len() == fields.len() && forall|i: int|
                0 <= i < fields.len() ==> #[trigger] to_arrow_type(data_type)->Struct_0[i]
                    == to_arrow_field(fields[i]),
            _ => true,
        },
{
}

/// An Arrow type is read by its kind, whatever its width: integers of either sign, floating-point
/// numbers, text, bytes, moments and days; all else is read as JSON.
pub proof fn arrow_types_are_read_by_kind(data_type: ArrowTypeView)
    ensures
        from_arrow_type(data_type) is Bool <==> data_type is Boolean,
        from_arrow_type(data_type) is Int64 <==> data_type is Int8 || data_type is Int16
            || data_type is Int32 || data_type is Int64,
        from_arrow_type(data_type) is UInt64 <==> data_type is UInt8 || data_type is UInt16
            || data_type is UInt32 || data_type is UInt64,
        from_arrow_type(data_type) is Float64 <==> data_type is Float16 || data_type is Float32
            || data_type is Float64,
        from_arrow_type(data_type) is String <==> data_type is Utf8 || data_type is LargeUtf8,
        from_arrow_type(data_type) is Bytes <==> data_type is Binary || data_type is LargeBinary,
        from_arrow_type(data_type) is Timestamp <==> data_type is Timestamp,
        from_arrow_type(data_type) is Date <==> data_type is Date32 || data_type is Date64,
        !(from_arrow_type(data_type) is Decimal || from_arrow_type(data_type) is List
            || from_arrow_type(data_type) is Struct),
{
}

/// A field is carried, and read, with its name, whether it may be null, and its notes.
pub proof fn fields_are_carried_whole(
    fields: Seq<FieldView>,
    columns: Seq<ArrowFieldView>,
    i: int,
)
    ensures
        to_arrow_fields(fields).len() == fields.len(),
        from_arrow_fields(columns).len() == columns.len(),
        0 <= i < fields.len() ==> {
            let column = to_arrow_fields(fields)[i];
            &&& column.name == fields[i].name
            &&& column.nullable == fields[i].nullable
            &&& column.metadata == fields[i].annotations
            &&& column.data_type == to_arrow_type(fields[i].data_type)
        },
        0 <= i < columns.len() ==> {
            let field = from_arrow_fields(columns)[i];
            &&& field.name == columns[i].name
            &&& field.nullable == columns[i].nullable
            &&& field.annotations == columns[i].metadata
            &&& field.data_type == from_arrow_type(columns[i].data_type)
        },
{
}

// === Laws of rows ===

/// A value of a column of text, decimals or JSON is its text, unless it is text or null already;
/// a value of any other column stays as it is. Nothing is added, dropped or moved.
pub proof fn text_columns_hold_text(
    members: Seq<(Seq<char>, JsonView)>,
    fields: Seq<FieldView>,
    i: int,
)
    requires
        0 <= i < members.len(),
    ensures
        with_text(JsonView::Object(members), fields) is Object,
        ({
            let after = with_text(JsonView::Object(members), fields)->Object_0;
            let value = members[i].1;
            let texts = exists|k: int|
                0 <= k < fields.len() && (#[trigger] fields[k]).name == members[i].0 && (
                fields[k].data_type is String || fields[k].data_type is Decimal
                    || fields[k].data_type is Json);
            &&& after.len() == members.len()
            &&& after[i].0 == members[i].0
            &&& texts && !(value is Str || value is Null) ==> after[i].1 == JsonView::Str(
                json::json_rendered(value),
            )
            &&& !texts || value is Str || value is Null ==> after[i].1 == value
        }),
{
    let name = members[i].0;
    if exists|k: int|
        0 <= k < fields.len() && (#[trigger] fields[k]).name == name && (fields[k].data_type
            is String || fields[k].data_type is Decimal || fields[k].data_type is Json) {
        let k = choose|k: int|
            0 <= k < fields.len() && (#[trigger] fields[k]).name == name && (fields[k].data_type
                is String || fields[k].data_type is Decimal || fields[k].data_type is Json);
        assert(stored_as_text(fields[k].data_type));
        assert(text_column(fields, name));
    }
}

/// An integer in a column of moments is the text of the moment in the column's unit, and one in a
/// column of days that of the day, where they can be written; everything else stays.
pub proof fn temporal_numbers_are_written(
    data_type: ArrowTypeView,
    zone: Option<Seq<char>>,
    v: i64,
    value: JsonView,
)
    requires
        value.int64() == Some(v),
    ensures
        iso_value(ArrowTypeView::Timestamp(TimeUnit::Second, zone), value)
            == match rfc3339_of_seconds(v) {
            Some(text) => JsonView::Str(text),
            None => value,
        },
        iso_value(ArrowTypeView::Timestamp(TimeUnit::Millisecond, zone), value)
            == match rfc3339_of_millis(v) {
            Some(text) => JsonView::Str(text),
            None => value,
        },
        iso_value(ArrowTypeView::Timestamp(TimeUnit::Microsecond, zone), value)
            == match rfc3339_of_micros(v) {
            Some(text) => JsonView::Str(text),
            None => value,
        },
        iso_value(ArrowTypeView::Timestamp(TimeUnit::Nanosecond, zone), value) == JsonView::Str(
            rfc3339_of_nanos(v),
        ),
        i64::MIN <= v * 86_400 <= i64::MAX ==> iso_value(ArrowTypeView::Date32, value)
            == match date_of_seconds((v * 86_400) as i64) {
            Some(text) => JsonView::Str(text),
            None => value,
        },
        !(i64::MIN <= v * 86_400 <= i64::MAX) ==> iso_value(ArrowTypeView::Date32, value) == value,
        !(data_type is Timestamp) && !(data_type is Date32) ==> iso_value(data_type, value)
            == value,
{
}

/// What is no integer stays as it is in every column.
pub proof fn other_values_stay(data_type: ArrowTypeView, value: JsonView)
    requires
        value.int64() is None,
    ensures
        iso_value(data_type, value) == value,
{
}

/// Every value of a row is written by the type of its column, and a value without a column stays.
/// Nothing is added, dropped or moved.
pub proof fn rows_are_written_column_by_column(
    members: Seq<(Seq<char>, JsonView)>,
    fields: Seq<ArrowFieldView>,
    i: int,
    k: int,
)
    requires
        0 <= i < members.len(),
        0 <= k <= fields.len(),
        k < fields.len() ==> fields[k].name == members[i].0,
        forall|j: int|
            0 <= j < fields.len() && j != k ==> (#[trigger] fields[j]).name != members[i].0,
    ensures
        iso_row(JsonView::Object(members), fields) is Object,
        ({
            let after = iso_row(JsonView::Object(members), fields)->Object_0;
            &&& after.len() == members.len()
            &&& after[i].0 == members[i].0
            &&& k < fields.len() ==> after[i].1 == iso_value(fields[k].data_type, members[i].1)
            &&& k == fields.len() ==> after[i].1 == members[i].1
        }),
    decreases fields.len(),
{
    if fields.len() > 0 {
        let fewer = fields.drop_last();
        let last = fields.len() - 1;
        assert(fields.last() == fields[last]);
        assert forall|j: int| 0 <= j < fewer.len() && j != k implies (#[trigger] fewer[j]).name
            != members[i].0 by {
            assert(fewer[j] == fields[j]);
        }
        if k < last {
            assert(fewer[k] == fields[k]);
            rows_are_written_column_by_column(members, fewer, i, k);
        } else {
            rows_are_written_column_by_column(members, fewer, i, fewer.len() as int);
        }
    }
}

/// The batches hold the rows of each, counted once.
pub proof fn batch_rows_add_up(first: Seq<Batch>, second: Seq<Batch>, batch: Batch)
    ensures
        rows_in(first + second) == rows_in(first) + rows_in(second),
        rows_in(seq![batch]) == batch@.rows,
    decreases second.len(),
{
    reveal_with_fuel(rows_in, 2);
    if second.len() == 0 {
        assert(first + second =~= first);
    } else {
        batch_rows_add_up(first, second.drop_last(), batch);
        assert((first + second).drop_last() =~= first + second.drop_last());
    }
}

/// The rows of the batches are those of the first, then those of the next, and so on, where all of
/// them can be read; the first that cannot refuses all, with its own message.
pub proof fn batches_are_read_in_order(batches: Seq<Batch>, n: int)
    requires
        0 <= n <= batches.len(),
        forall|i: int| 0 <= i < n ==> batch_rows((#[trigger] batches[i])@) is Ok,
    ensures
        n == batches.len() ==> decoded_rows(batches) == Ok::<Seq<JsonView>, Seq<char>>(
            batches.map_values(|batch: Batch| batch_rows(batch@)->Ok_0).flatten(),
        ),
        n < batches.len() && batch_rows(batches[n]@) is Err ==> decoded_rows(batches) == Err::<
            Seq<JsonView>,
            Seq<char>,
        >("arrow decode failed: "@ + batch_rows(batches[n]@)->Err_0),
    decreases batches.len(),
{
    let rows = |batch: Batch| batch_rows(batch@)->Ok_0;
    if batches.len() > 0 {
        let front = batches.drop_last();
        assert(batches.last() == batches[batches.len() - 1]);
        assert forall|i: int| 0 <= i < n && i < front.len() implies batch_rows(
            (#[trigger] front[i])@,
        ) is Ok by {
            assert(front[i] == batches[i]);
        }
        if n == batches.len() {
            batches_are_read_in_order(front, n - 1);
            front.map_values(rows).lemma_flatten_push(rows(batches.last()));
            assert(batches.map_values(rows) =~= front.map_values(rows).push(rows(batches.last())));
        } else {
            batches_are_read_in_order(front, n);
            if n < front.len() {
                assert(front[n] == batches[n]);
            }
        }
    } else {
        assert(batches.map_values(rows) =~= Seq::empty());
        assert(batches.map_values(rows).flatten() =~= Seq::<JsonView>::empty());
    }
}

/// Rows are told as JSON one for one, each with its temporal columns written.
pub proof fn rows_are_told_one_for_one(fields: Seq<ArrowFieldView>, batches: Seq<Batch>, i: int)
    ensures
        json_rows(fields, batches) is Ok <==> decoded_rows(batches) is Ok,
        decoded_rows(batches) is Err ==> json_rows(fields, batches) == decoded_rows(batches),
        decoded_rows(batches) is Ok ==> {
            let before = decoded_rows(batches)->Ok_0;
            let after = json_rows(fields, batches)->Ok_0;
            &&& after.len() == before.len()
            &&& 0 <= i < before.len() ==> after[i] == iso_row(before[i], fields)
        },
{
}


// === Laws of reading ===

/// Columns cannot be read where one of them has a type that cannot: binary values of no length, a
/// decimal of a scale that has no room, or what holds such a part.
pub proof fn unread_columns_have_an_unread_type(
    fields: Seq<ArrowFieldView>,
    length: i32,
    precision: u8,
    scale: i8,
    part: ArrowFieldView,
)
    ensures
        unread_columns(fields) <==> exists|i: int|
            0 <= i < fields.len() && unread_type((#[trigger] fields[i]).data_type),
        unread_type(ArrowTypeView::FixedSizeBinary(length)) <==> length == 0,
        unread_type(ArrowTypeView::Decimal128(precision, scale)) <==> !(-24 <= scale <= 61),
        unread_type(ArrowTypeView::List(Box::new(part))) <==> unread_type(part.data_type),
        unread_type(ArrowTypeView::LargeList(Box::new(part))) <==> unread_type(part.data_type),
        unread_type(ArrowTypeView::Struct(fields)) <==> unread_columns(fields),
    decreases fields.len(),
{
    assert(unread_part(part) == unread_type(part.data_type));
    if fields.len() > 0 {
        let n = fields.len() - 1;
        let fewer = fields.subrange(0, n);
        unread_columns_have_an_unread_type(fewer, length, precision, scale, part);
        assert(unread_part(fields[n]) == unread_type(fields[n].data_type));
        if exists|i: int| 0 <= i < fewer.len() && unread_type((#[trigger] fewer[i]).data_type) {
            let i = choose|i: int|
                0 <= i < fewer.len() && unread_type((#[trigger] fewer[i]).data_type);
            assert(fewer[i] == fields[i]);
        }
        if exists|i: int| 0 <= i < fields.len() && unread_type((#[trigger] fields[i]).data_type) {
            let i = choose|i: int|
                0 <= i < fields.len() && unread_type((#[trigger] fields[i]).data_type);
            if i < n {
                assert(fewer[i] == fields[i]);
            }
        }
    }
}

/// A batch of plain columns is read whatever it holds, as it was decoded.
pub proof fn plain_batches_are_read(batch: BatchView)
    requires
        batch.columns.len() > 0,
        batch.columns[0].name != json::RESERVED@,
        forall|i: int|
            0 <= i < batch.columns.len() ==> plain_type((#[trigger] batch.columns[i]).data_type),
    ensures
        batch_rows(batch) == batch.decoded,
{
    lemma_plain_columns_read(batch.columns, batch.data);
}


/// What could not be encoded is told as such, with its cause; what could not be put together in a
/// batch is told by its cause alone.
pub proof fn encoding_failures_tell_their_cause(message: Seq<char>)
    ensures
        encode_message(EncodeErrorView::Rows(message)) == "arrow encode failed: "@ + message,
        encode_message(EncodeErrorView::Batch(message)) == message,
{
}

/// A moment that is written with a `Z` comes back with the offset of UTC in its place; any other
/// text stays.
pub proof fn moments_come_back_with_their_offset(text: Seq<char>)
    ensures
        text.len() > 0 && text.last() == 'Z' ==> utc_text(text) == text.take(text.len() - 1)
            + "+00:00"@,
        !(text.len() > 0 && text.last() == 'Z') ==> utc_text(text) == text,
{
    assert(text.len() > 0 ==> text.drop_last() =~= text.take(text.len() - 1));
}

} // verus!
