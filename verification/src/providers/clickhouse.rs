//! ClickHouse, over its HTTP interface.
//!
//! A statement is posted as text and rows come back as JSON, one object per line. The
//! statements and the reading of what comes back are here.

use vstd::prelude::*;
use vstd::string::*;

use crate::config::ProviderConfig;
use crate::error::{self, Failure, FailureView, SqlError};
use crate::json::{self, Json, JsonView, Member, Number, NumberView};
use crate::providers::sql;
use crate::providers::sql::filter::{self, Filter, FilterView};
use crate::providers::sql::projection;
use crate::providers::sql::table::{self, SqlCursor, WriteResult};
use crate::provider::Provider;
use crate::router::{EndpointView, Router};
use crate::schema::{self, DataType, Field, FieldView, Schema, TypeView};
use crate::text;

pub mod columns;
pub mod statements;

verus! {

/// The quote of identifiers.
pub const QUOTE: char = '`';

/// A ClickHouse server: where it is, the database to use, and who is asking.
#[derive(Debug)]
pub struct Clickhouse {
    pub url: String,
    pub database: String,
    pub user: String,
    pub password: String,
}

impl Clickhouse {
    /// The query params that go with every statement.
    pub fn query(&self) -> (r: Vec<(String, String)>)
        ensures
            r.deep_view() == seq![
                ("database"@, self.database@),
                ("date_time_input_format"@, "best_effort"@),
            ],
    {
        let r = vec![
            ("database".to_string(), self.database.clone()),
            ("date_time_input_format".to_string(), "best_effort".to_string()),
        ];
        assert(r.deep_view() =~= seq![
            ("database"@, self.database@),
            ("date_time_input_format"@, "best_effort"@),
        ]);
        r
    }
}

// === Column types ===

/// The ClickHouse type that stores a data type.
pub open spec fn stored_type(data_type: TypeView) -> Seq<char> {
    match data_type {
        TypeView::Bool => "Bool"@,
        TypeView::Int64 => "Int64"@,
        TypeView::UInt64 => "UInt64"@,
        TypeView::Float64 => "Float64"@,
        TypeView::Decimal => "Decimal(38, 10)"@,
        TypeView::String => "String"@,
        TypeView::Bytes => "String"@,
        TypeView::Timestamp => "DateTime64(3)"@,
        TypeView::Date => "Date"@,
        TypeView::Json => "String"@,
        TypeView::List(_) => "String"@,
        TypeView::Struct(_) => "String"@,
    }
}

/// The ClickHouse type that stores a data type.
pub fn data_type_to_ch(data_type: &DataType) -> (r: &'static str)
    ensures
        r@ == stored_type(data_type@),
{
    match data_type {
        DataType::Bool => "Bool",
        DataType::Int64 => "Int64",
        DataType::UInt64 => "UInt64",
        DataType::Float64 => "Float64",
        DataType::Decimal => "Decimal(38, 10)",
        DataType::String | DataType::Bytes => "String",
        DataType::Timestamp => "DateTime64(3)",
        DataType::Date => "Date",
        DataType::Json | DataType::List(_) | DataType::Struct(_) => "String",
    }
}

/// What stands ahead of the parameters of a type.
pub open spec fn type_head(name: Seq<char>) -> Seq<char> {
    text::split_at(name, '(')[0]
}

/// Whether `head` is one of ClickHouse's integer types.
pub open spec fn is_integer_type(head: Seq<char>) -> bool {
    ||| head == "Int8"@
    ||| head == "Int16"@
    ||| head == "Int32"@
    ||| head == "Int64"@
    ||| head == "Int128"@
    ||| head == "Int256"@
    ||| head == "UInt8"@
    ||| head == "UInt16"@
    ||| head == "UInt32"@
    ||| head == "UInt64"@
    ||| head == "UInt128"@
    ||| head == "UInt256"@
}

/// Whether `head` is one of ClickHouse's decimal types.
pub open spec fn is_decimal_type(head: Seq<char>) -> bool {
    ||| head == "Decimal"@
    ||| head == "Decimal32"@
    ||| head == "Decimal64"@
    ||| head == "Decimal128"@
    ||| head == "Decimal256"@
}

/// Whether `head` is one of the types that are read as text.
pub open spec fn is_text_type(head: Seq<char>) -> bool {
    ||| head == "String"@
    ||| head == "FixedString"@
    ||| head == "UUID"@
    ||| head == "Enum8"@
    ||| head == "Enum16"@
    ||| head == "IPv4"@
    ||| head == "IPv6"@
}

/// The data type that a ClickHouse type is read as.
pub open spec fn read_type(name: Seq<char>) -> Option<TypeView> {
    let head = type_head(name);
    if head == "Bool"@ {
        Some(TypeView::Bool)
    } else if is_integer_type(head) {
        Some(TypeView::Int64)
    } else if head == "Float32"@ || head == "Float64"@ {
        Some(TypeView::Float64)
    } else if is_decimal_type(head) {
        Some(TypeView::Decimal)
    } else if head == "DateTime"@ || head == "DateTime64"@ {
        Some(TypeView::Timestamp)
    } else if head == "Date"@ || head == "Date32"@ {
        Some(TypeView::Date)
    } else if head == "Array"@ || head == "Tuple"@ || head == "Map"@ || head == "Nested"@ {
        Some(TypeView::Json)
    } else if is_text_type(head) {
        Some(TypeView::String)
    } else {
        None
    }
}

/// Whether `head` is one of ClickHouse's integer types.
fn integer_type(head: &str) -> (r: bool)
    ensures
        r == is_integer_type(head@),
{
    text::same(head, "Int8") || text::same(head, "Int16") || text::same(head, "Int32")
        || text::same(head, "Int64") || text::same(head, "Int128") || text::same(head, "Int256")
        || text::same(head, "UInt8") || text::same(head, "UInt16") || text::same(head, "UInt32")
        || text::same(head, "UInt64") || text::same(head, "UInt128") || text::same(head, "UInt256")
}

/// Whether `head` is one of ClickHouse's decimal types.
fn decimal_type(head: &str) -> (r: bool)
    ensures
        r == is_decimal_type(head@),
{
    text::same(head, "Decimal") || text::same(head, "Decimal32") || text::same(head, "Decimal64")
        || text::same(head, "Decimal128") || text::same(head, "Decimal256")
}

/// Whether `head` is one of the types that are read as text.
fn text_type(head: &str) -> (r: bool)
    ensures
        r == is_text_type(head@),
{
    text::same(head, "String") || text::same(head, "FixedString") || text::same(head, "UUID")
        || text::same(head, "Enum8") || text::same(head, "Enum16") || text::same(head, "IPv4")
        || text::same(head, "IPv6")
}

/// The data type that a ClickHouse type is read as. A type that is not known fails, with
/// what stands ahead of its parameters.
pub fn ch_to_data_type(name: &str) -> (r: Result<DataType, SqlError>)
    ensures
        match r {
            Ok(data_type) => read_type(name@) == Some(data_type@),
            Err(error) => read_type(name@) is None && error@
                == FailureView::UnsupportedColumnType(type_head(name@)),
        },
{
    proof {
        text::lemma_split_nonempty(name@, '(');
    }
    let pieces = text::split(name, '(');
    assert(pieces.deep_view()[0] == pieces@[0]@);
    let head = pieces[0].as_str();
    if text::same(head, "Bool") {
        Ok(DataType::Bool)
    } else if integer_type(head) {
        Ok(DataType::Int64)
    } else if text::same(head, "Float32") || text::same(head, "Float64") {
        Ok(DataType::Float64)
    } else if decimal_type(head) {
        Ok(DataType::Decimal)
    } else if text::same(head, "DateTime") || text::same(head, "DateTime64") {
        Ok(DataType::Timestamp)
    } else if text::same(head, "Date") || text::same(head, "Date32") {
        Ok(DataType::Date)
    } else if text::same(head, "Array") || text::same(head, "Tuple") || text::same(head, "Map")
        || text::same(head, "Nested") {
        Ok(DataType::Json)
    } else if text_type(head) {
        Ok(DataType::String)
    } else {
        Err(SqlError::UnsupportedColumnType(head.to_string()))
    }
}

/// What a `Nullable(..)` wraps, and whether the type is one.
pub open spec fn unwrapped(name: Seq<char>) -> (Seq<char>, bool) {
    let prefix = "Nullable("@;
    if prefix.is_prefix_of(name) && name.skip(prefix.len() as int).len() > 0 && name.last()
        == ')' {
        (name.subrange(prefix.len() as int, name.len() - 1), true)
    } else {
        (name, false)
    }
}

/// Takes the `Nullable(..)` off a type, and says whether there was one.
fn strip_nullable(name: &str) -> (r: (String, bool))
    ensures
        (r.0@, r.1) == unwrapped(name@),
{
    let prefix = "Nullable(";
    if text::starts_with(name, prefix) {
        let chars = text::chars(name);
        let n = text::chars(prefix).len();
        if chars.len() > n && chars[chars.len() - 1] == ')' {
            let inner = text::string_of(&chars, n, chars.len() - 1);
            return (inner, true);
        }
    }
    (name.to_string(), false)
}

/// The type of a nullable column is unwrapped to what was wrapped.
pub proof fn nullable_unwraps(name: Seq<char>)
    ensures
        unwrapped("Nullable("@ + name + ")"@) == (name, true),
{
    reveal_strlit(")");
    let whole = "Nullable("@ + name + ")"@;
    assert("Nullable("@.is_prefix_of(whole)) by {
        assert(whole.subrange(0, "Nullable("@.len() as int) =~= "Nullable("@);
    }
    assert(whole.subrange("Nullable("@.len() as int, whole.len() - 1) =~= name);
}

/// The data type that comes back from a column that was created for a data type.
pub open spec fn returned_type(data_type: TypeView) -> TypeView {
    match data_type {
        TypeView::UInt64 => TypeView::Int64,
        TypeView::Bytes => TypeView::String,
        TypeView::Json => TypeView::String,
        TypeView::List(_) => TypeView::String,
        TypeView::Struct(_) => TypeView::String,
        _ => data_type,
    }
}

/// A name without parameters is its own head.
proof fn lemma_head_plain(name: Seq<char>)
    requires
        forall|i: int| 0 <= i < name.len() ==> name[i] != '(',
    ensures
        type_head(name) == name,
{
    text::lemma_find_is(name, '(', name.len() as int);
}

/// The head of a name with parameters stands ahead of the first `(`.
proof fn lemma_head_until(name: Seq<char>, n: int)
    requires
        0 <= n < name.len(),
        name[n] == '(',
        forall|i: int| 0 <= i < n ==> name[i] != '(',
    ensures
        type_head(name) == name.take(n),
{
    text::lemma_find_is(name, '(', n);
}

/// Every column type that is created can be read back: as the data type it was created
/// for, or, where ClickHouse has no such type, as the one it is stored as.
pub proof fn column_types_come_back(data_type: TypeView)
    ensures
        read_type(stored_type(data_type)) == Some(returned_type(data_type)),
{
    reveal_strlit("Bool");
    reveal_strlit("Int64");
    reveal_strlit("UInt64");
    reveal_strlit("Float64");
    reveal_strlit("Decimal(38, 10)");
    reveal_strlit("Decimal");
    reveal_strlit("String");
    reveal_strlit("DateTime64(3)");
    reveal_strlit("DateTime64");
    reveal_strlit("Date");
    match data_type {
        TypeView::Decimal => {
            lemma_head_until("Decimal(38, 10)"@, 7);
            assert("Decimal(38, 10)"@.take(7) =~= "Decimal"@);
        },
        TypeView::Timestamp => {
            lemma_head_until("DateTime64(3)"@, 10);
            assert("DateTime64(3)"@.take(10) =~= "DateTime64"@);
        },
        _ => {
            lemma_head_plain(stored_type(data_type));
        },
    }
    lemma_heads_differ();
}

/// The heads of the types that are created are told apart by the first test that each
/// meets.
proof fn lemma_heads_differ()
    ensures
        !is_integer_type("Float64"@),
        !is_integer_type("Decimal"@),
        !is_integer_type("String"@),
        !is_integer_type("DateTime64"@),
        !is_integer_type("Date"@),
        !is_decimal_type("String"@),
        !is_decimal_type("DateTime64"@),
        !is_decimal_type("Date"@),
        "Int64"@ != "Bool"@,
        "UInt64"@ != "Bool"@,
        "Float64"@ != "Bool"@,
        "Decimal"@ != "Bool"@,
        "String"@ != "Bool"@,
        "DateTime64"@ != "Bool"@,
        "Date"@ != "Bool"@,
        "Decimal"@ != "Float32"@ && "Decimal"@ != "Float64"@,
        "String"@ != "Float32"@ && "String"@ != "Float64"@,
        "DateTime64"@ != "Float32"@ && "DateTime64"@ != "Float64"@,
        "Date"@ != "Float32"@ && "Date"@ != "Float64"@,
        "String"@ != "DateTime"@ && "String"@ != "DateTime64"@,
        "Date"@ != "DateTime"@ && "Date"@ != "DateTime64"@,
        "String"@ != "Date"@ && "String"@ != "Date32"@,
        "String"@ != "Array"@ && "String"@ != "Tuple"@ && "String"@ != "Map"@ && "String"@
            != "Nested"@,
{
    reveal_strlit("Bool");
    reveal_strlit("Int8");
    reveal_strlit("Int16");
    reveal_strlit("Int32");
    reveal_strlit("Int64");
    reveal_strlit("Int128");
    reveal_strlit("Int256");
    reveal_strlit("UInt8");
    reveal_strlit("UInt16");
    reveal_strlit("UInt32");
    reveal_strlit("UInt64");
    reveal_strlit("UInt128");
    reveal_strlit("UInt256");
    reveal_strlit("Float32");
    reveal_strlit("Float64");
    reveal_strlit("Decimal");
    reveal_strlit("Decimal32");
    reveal_strlit("Decimal64");
    reveal_strlit("Decimal128");
    reveal_strlit("Decimal256");
    reveal_strlit("String");
    reveal_strlit("DateTime");
    reveal_strlit("DateTime64");
    reveal_strlit("Date");
    reveal_strlit("Date32");
    reveal_strlit("Array");
    reveal_strlit("Tuple");
    reveal_strlit("Map");
    reveal_strlit("Nested");
    let float = "Float64"@;
    let decimal = "Decimal"@;
    let string = "String"@;
    let time = "DateTime64"@;
    let date = "Date"@;
    assert(float[0] == 'F' && decimal[0] == 'D' && string[0] == 'S' && time[0] == 'D' && date[0]
        == 'D');
    assert("Int8"@[0] == 'I' && "Int16"@[0] == 'I' && "Int32"@[0] == 'I' && "Int64"@[0] == 'I'
        && "Int128"@[0] == 'I' && "Int256"@[0] == 'I');
    assert("UInt8"@[0] == 'U' && "UInt16"@[0] == 'U' && "UInt32"@[0] == 'U' && "UInt64"@[0]
        == 'U' && "UInt128"@[0] == 'U' && "UInt256"@[0] == 'U');
    assert("Decimal"@[1] == 'e' && "Decimal32"@[1] == 'e' && "Decimal64"@[1] == 'e'
        && "Decimal128"@[1] == 'e' && "Decimal256"@[1] == 'e');
    assert(time[1] == 'a' && date[1] == 'a');
    assert("Bool"@[0] == 'B');
    assert("Float32"@[0] == 'F');
    assert(date.len() == 4 && "DateTime"@.len() == 8 && time.len() == 10);
    assert("Array"@[0] == 'A' && "Tuple"@[0] == 'T' && "Map"@[0] == 'M' && "Nested"@[0] == 'N');
}

// === Rows ===

/// The rows that the lines write, blank lines left out; or why the first that is not JSON
/// cannot be parsed.
pub open spec fn rows_of(lines: Seq<Seq<char>>) -> Result<Seq<JsonView>, Seq<char>>
    decreases lines.len(),
{
    if lines.len() == 0 {
        Ok(Seq::empty())
    } else {
        match rows_of(lines.drop_last()) {
            Err(cause) => Err(cause),
            Ok(rows) => if text::trimmed(lines.last()).len() == 0 {
                Ok(rows)
            } else {
                match json::json_parsed(lines.last()) {
                    Err(cause) => Err(cause),
                    Ok(row) => Ok(rows.push(row)),
                }
            },
        }
    }
}

/// A body is refused for the reason that refuses the first of its lines.
proof fn lemma_rows_fail(lines: Seq<Seq<char>>, n: int)
    requires
        0 <= n <= lines.len(),
        rows_of(lines.take(n)) is Err,
    ensures
        rows_of(lines) == rows_of(lines.take(n)),
    decreases lines.len() - n,
{
    if n == lines.len() {
        assert(lines.take(n) =~= lines);
    } else {
        assert(lines.take(n + 1).drop_last() =~= lines.take(n));
        lemma_rows_fail(lines, n + 1);
    }
}

/// Reads the rows of a response: one JSON value per line that is not blank.
pub fn query_rows(body: &str) -> (r: Result<Vec<Json>, Failure>)
    ensures
        match r {
            Ok(rows) => rows_of(text::lines_of(body@)) is Ok && json::json_views(rows@)
                == rows_of(text::lines_of(body@))->Ok_0,
            Err(failure) => rows_of(text::lines_of(body@)) is Err && failure@
                == FailureView::Within(
                "parsing clickhouse JSON row"@,
                rows_of(text::lines_of(body@))->Err_0,
            ),
        },
{
    let lines = text::lines(body);
    let ghost all = lines.deep_view();
    let mut rows: Vec<Json> = Vec::new();
    let mut i: usize = 0;
    assert(all.take(0) =~= Seq::empty());
    assert(json::json_views(rows@) =~= Seq::empty());
    while i < lines.len()
        invariant
            i <= lines.len(),
            all == lines.deep_view(),
            all == text::lines_of(body@),
            rows_of(all.take(i as int)) is Ok,
            rows_of(all.take(i as int))->Ok_0 == json::json_views(rows@),
        decreases lines.len() - i,
    {
        assert(all.take(i + 1).drop_last() =~= all.take(i as int));
        assert(all[i as int] == lines@[i as int]@);
        let ghost before = json::json_views(rows@);
        let blank = text::trim(lines[i].as_str());
        if !blank.as_str().is_empty() {
            match json::parse(lines[i].as_str()) {
                Ok(row) => {
                    rows.push(row);
                    assert(json::json_views(rows@) =~= before.push(row@));
                },
                Err(cause) => {
                    proof {
                        lemma_rows_fail(all, i + 1);
                    }
                    return Err(Failure::Within("parsing clickhouse JSON row".to_string(), cause));
                },
            }
        }
        i = i + 1;
    }
    assert(all.take(i as int) =~= all);
    Ok(rows)
}

// === The catalog ===

/// The statement that lists the tables.
pub fn tables_sql() -> (r: String)
    ensures
        r@ == "SELECT name FROM system.tables WHERE database = currentDatabase() ORDER BY name FORMAT JSONEachRow"@,
{
    "SELECT name FROM system.tables WHERE database = currentDatabase() ORDER BY name FORMAT JSONEachRow".to_string()
}

/// The names in the rows of a table listing, or the message that refuses a row without
/// one.
pub open spec fn names_in(rows: Seq<JsonView>) -> Result<Seq<Seq<char>>, Seq<char>>
    decreases rows.len(),
{
    if rows.len() == 0 {
        Ok(Seq::empty())
    } else {
        match names_in(rows.drop_last()) {
            Err(message) => Err(message),
            Ok(names) => match rows.last().member("name"@) {
                Some(JsonView::Str(name)) => Ok(names.push(name)),
                _ => Err("table row missing `name`"@),
            },
        }
    }
}

/// A listing is refused with the message that refuses the first of its rows.
proof fn lemma_names_fail(rows: Seq<JsonView>, n: int)
    requires
        0 <= n <= rows.len(),
        names_in(rows.take(n)) is Err,
    ensures
        names_in(rows) == names_in(rows.take(n)),
    decreases rows.len() - n,
{
    if n == rows.len() {
        assert(rows.take(n) =~= rows);
    } else {
        assert(rows.take(n + 1).drop_last() =~= rows.take(n));
        lemma_names_fail(rows, n + 1);
    }
}

/// The names in the rows of a table listing.
pub fn table_names(rows: &Vec<Json>) -> (r: Result<Vec<String>, Failure>)
    ensures
        ({
            let expected = names_in(json::json_views(rows@));
            match r {
                Ok(names) => expected is Ok && names.deep_view() == expected->Ok_0,
                Err(failure) => expected is Err && failure@ == FailureView::Message(
                    expected->Err_0,
                ),
            }
        }),
{
    let ghost all = json::json_views(rows@);
    let mut names: Vec<String> = Vec::new();
    let mut i: usize = 0;
    assert(all.take(0) =~= Seq::empty());
    assert(names.deep_view() =~= Seq::empty());
    while i < rows.len()
        invariant
            i <= rows.len(),
            all == json::json_views(rows@),
            names_in(all.take(i as int)) is Ok,
            names_in(all.take(i as int))->Ok_0 == names.deep_view(),
        decreases rows.len() - i,
    {
        assert(all.take(i + 1).drop_last() =~= all.take(i as int));
        assert(all[i as int] == rows@[i as int]@);
        let ghost before = names.deep_view();
        let found = match rows[i].get("name") {
            Some(value) => value.as_str(),
            None => None,
        };
        match found {
            Some(name) => {
                names.push(name.to_string());
                assert(names.deep_view() =~= before.push(name@));
            },
            None => {
                proof {
                    lemma_names_fail(all, i + 1);
                }
                return Err(Failure::Message("table row missing `name`".to_string()));
            },
        }
        i = i + 1;
    }
    assert(all.take(i as int) =~= all);
    Ok(names)
}

/// The statement that lists the columns of a table, and which of them are its key.
pub open spec fn columns_text(table: Seq<char>) -> Seq<char> {
    "SELECT name, type, is_in_primary_key FROM system.columns WHERE database = currentDatabase() AND table = "@
        + sql::quoted(table, '\'') + " ORDER BY position FORMAT JSONEachRow"@
}

/// The statement that lists the columns of a table, and which of them are its key.
pub fn columns_sql(table: &str) -> (r: String)
    ensures
        r@ == columns_text(table@),
{
    let name = sql::quote_str(table);
    text::cat3(
        "SELECT name, type, is_in_primary_key FROM system.columns WHERE database = currentDatabase() AND table = ",
        name.as_str(),
        " ORDER BY position FORMAT JSONEachRow",
    )
}

/// How an error calls a value that is not what was expected.
pub open spec fn unexpected(value: JsonView) -> Seq<char> {
    match value {
        JsonView::Null => "null"@,
        JsonView::Bool(b) => if b {
            "boolean `true`"@
        } else {
            "boolean `false`"@
        },
        JsonView::Number(NumberView::PosInt(n)) => "integer `"@ + text::decimal(n as nat) + "`"@,
        JsonView::Number(NumberView::NegInt(n)) => "integer `"@ + text::signed_decimal(n as int)
            + "`"@,
        JsonView::Number(NumberView::Float(text)) => "floating point `"@ + text + "`"@,
        JsonView::Str(s) => "string "@ + text::debug_quoted(s),
        JsonView::Array(_) => "sequence"@,
        JsonView::Object(_) => "map"@,
    }
}

/// How an error calls a value that is not what was expected.
fn unexpected_text(value: &Json) -> (r: String)
    ensures
        r@ == unexpected(value@),
{
    proof {
        json::lemma_json_view(*value);
    }
    match value {
        Json::Null => "null".to_string(),
        Json::Bool(b) => if *b {
            "boolean `true`".to_string()
        } else {
            "boolean `false`".to_string()
        },
        Json::Number(Number::PosInt(n)) => {
            let digits = text::decimal_u64(*n);
            text::cat3("integer `", digits.as_str(), "`")
        },
        Json::Number(Number::NegInt(n)) => {
            let digits = text::decimal_i64(*n);
            text::cat3("integer `", digits.as_str(), "`")
        },
        Json::Number(Number::Float(text)) => text::cat3("floating point `", text.as_str(), "`"),
        Json::Str(s) => {
            let quoted = text::debug_quote(s.as_str());
            text::cat2("string ", quoted.as_str())
        },
        Json::Array(_) => "sequence".to_string(),
        Json::Object(_) => "map".to_string(),
    }
}

/// What refuses a value where text was expected.
pub open spec fn not_text(value: JsonView) -> Seq<char> {
    "invalid type: "@ + unexpected(value) + ", expected a string"@
}

/// Whether a key flag is set: a number other than zero.
pub open spec fn is_set(flag: Option<JsonView>) -> bool {
    match flag {
        Some(value) => value.uint64() is Some && value.uint64() != Some(0u64),
        None => false,
    }
}

/// A row of a column listing as it is read: the name, the type, and whether the column is
/// part of the key.
pub struct Listed {
    pub name: Seq<char>,
    pub declared: Seq<char>,
    pub key: bool,
}

/// What a row of a column listing says, or why it cannot be read. The row is an object, whose
/// members are known by their names, or an array, whose items stand in their order; either
/// way the key flag may be left out.
pub open spec fn listed(row: JsonView) -> Result<Listed, Seq<char>> {
    match row {
        JsonView::Array(items) => if items.len() == 0 {
            Err("invalid length 0, expected struct RawColumn with 3 elements"@)
        } else if !(items[0] is Str) {
            Err(not_text(items[0]))
        } else if items.len() == 1 {
            Err("invalid length 1, expected struct RawColumn with 3 elements"@)
        } else if !(items[1] is Str) {
            Err(not_text(items[1]))
        } else if items.len() > 3 {
            Err(
                "invalid length "@ + text::decimal(items.len())
                    + ", expected fewer elements in array"@,
            )
        } else {
            Ok(
                Listed {
                    name: items[0]->Str_0,
                    declared: items[1]->Str_0,
                    key: items.len() == 3 && is_set(Some(items[2])),
                },
            )
        },
        JsonView::Object(_) => match (row.member("name"@), row.member("type"@)) {
            (Some(JsonView::Str(name)), Some(JsonView::Str(declared))) => Ok(
                Listed { name, declared, key: is_set(row.member("is_in_primary_key"@)) },
            ),
            (Some(name), declared) => if !(name is Str) {
                Err(not_text(name))
            } else {
                match declared {
                    Some(declared) => Err(not_text(declared)),
                    None => Err("missing field `type`"@),
                }
            },
            (None, Some(declared)) => if !(declared is Str) {
                Err(not_text(declared))
            } else {
                Err("missing field `name`"@)
            },
            (None, None) => Err("missing field `name`"@),
        },
        _ => Err("invalid type: "@ + unexpected(row) + ", expected struct RawColumn"@),
    }
}

/// The annotations of a listed column.
pub open spec fn key_note(key: bool) -> Map<Seq<char>, Seq<char>> {
    if key {
        Map::empty().insert(schema::KEY@, ""@)
    } else {
        Map::empty()
    }
}

/// The column that a row of a column listing describes, or why it describes none.
pub open spec fn column_in(row: JsonView) -> Result<FieldView, FailureView> {
    match listed(row) {
        Ok(column) => {
            let (base, nullable) = unwrapped(column.declared);
            match read_type(base) {
                Some(data_type) => Ok(
                    FieldView {
                        name: column.name,
                        data_type,
                        nullable,
                        annotations: key_note(column.key),
                    },
                ),
                None => Err(FailureView::UnsupportedColumnType(type_head(base))),
            }
        },
        Err(cause) => Err(FailureView::Within("decoding column row"@, cause)),
    }
}

/// The columns that the rows of a column listing describe, or why the first that describes
/// none does not.
pub open spec fn columns_in(rows: Seq<JsonView>) -> Result<Seq<FieldView>, FailureView>
    decreases rows.len(),
{
    if rows.len() == 0 {
        Ok(Seq::empty())
    } else {
        match columns_in(rows.drop_last()) {
            Err(failure) => Err(failure),
            Ok(columns) => match column_in(rows.last()) {
                Err(failure) => Err(failure),
                Ok(column) => Ok(columns.push(column)),
            },
        }
    }
}

/// A listing is refused for the reason that refuses the first of its rows.
proof fn lemma_columns_fail(rows: Seq<JsonView>, n: int)
    requires
        0 <= n <= rows.len(),
        columns_in(rows.take(n)) is Err,
    ensures
        columns_in(rows) == columns_in(rows.take(n)),
    decreases rows.len() - n,
{
    if n == rows.len() {
        assert(rows.take(n) =~= rows);
    } else {
        assert(rows.take(n + 1).drop_last() =~= rows.take(n));
        lemma_columns_fail(rows, n + 1);
    }
}

/// Why a value is refused where text was expected.
fn refuse_text(value: &Json) -> (r: String)
    ensures
        r@ == not_text(value@),
{
    let found = unexpected_text(value);
    text::cat3("invalid type: ", found.as_str(), ", expected a string")
}

/// Whether a key flag is set.
fn flag_set(flag: Option<&Json>) -> (r: bool)
    ensures
        r == is_set(
            match flag {
                Some(value) => Some(value@),
                None => None,
            },
        ),
{
    match flag {
        Some(value) => match value.as_u64() {
            Some(n) => n != 0,
            None => false,
        },
        None => false,
    }
}

/// The name, the type and the key flag in a row of a column listing that is an array.
fn listed_items(items: &Vec<Json>) -> (r: Result<(String, String, bool), String>)
    ensures
        ({
            let expected = listed(JsonView::Array(json::json_views(items@)));
            match r {
                Ok((name, declared, key)) => expected is Ok && expected->Ok_0 == (Listed {
                    name: name@,
                    declared: declared@,
                    key,
                }),
                Err(cause) => expected is Err && cause@ == expected->Err_0,
            }
        }),
{
    if items.len() == 0 {
        return Err("invalid length 0, expected struct RawColumn with 3 elements".to_string());
    }
    let ghost views = json::json_views(items@);
    assert(views[0] == items@[0]@);
    let name = match items[0].as_str() {
        Some(name) => name,
        None => {
            return Err(refuse_text(&items[0]));
        },
    };
    if items.len() == 1 {
        return Err("invalid length 1, expected struct RawColumn with 3 elements".to_string());
    }
    assert(views[1] == items@[1]@);
    let declared = match items[1].as_str() {
        Some(declared) => declared,
        None => {
            return Err(refuse_text(&items[1]));
        },
    };
    if items.len() > 3 {
        let n = text::decimal_u64(items.len() as u64);
        return Err(text::cat3("invalid length ", n.as_str(), ", expected fewer elements in array"));
    }
    let key = if items.len() == 3 {
        assert(views[2] == items@[2]@);
        flag_set(Some(&items[2]))
    } else {
        false
    };
    Ok((name.to_string(), declared.to_string(), key))
}

/// The name, the type and the key flag in a row of a column listing.
fn read_listed(row: &Json) -> (r: Result<(String, String, bool), String>)
    ensures
        match r {
            Ok((name, declared, key)) => listed(row@) is Ok && listed(row@)->Ok_0 == (Listed {
                name: name@,
                declared: declared@,
                key,
            }),
            Err(cause) => listed(row@) is Err && cause@ == listed(row@)->Err_0,
        },
{
    proof {
        json::lemma_json_view(*row);
    }
    match row {
        Json::Array(items) => {
            return listed_items(items);
        },
        Json::Object(_) => {},
        _ => {
            let found = unexpected_text(row);
            return Err(
                text::cat3("invalid type: ", found.as_str(), ", expected struct RawColumn"),
            );
        },
    }
    let name = row.get("name");
    let declared = row.get("type");
    if let Some(value) = name {
        if value.as_str().is_none() {
            return Err(refuse_text(value));
        }
    }
    if let Some(value) = declared {
        if value.as_str().is_none() {
            return Err(refuse_text(value));
        }
    }
    let name = match name {
        Some(value) => value.as_str(),
        None => None,
    };
    let declared = match declared {
        Some(value) => value.as_str(),
        None => None,
    };
    match (name, declared) {
        (Some(name), Some(declared)) => {
            let key = flag_set(row.get("is_in_primary_key"));
            Ok((name.to_string(), declared.to_string(), key))
        },
        (None, _) => Err("missing field `name`".to_string()),
        (_, None) => Err("missing field `type`".to_string()),
    }
}

/// The column that a row of a column listing describes.
fn column_of(row: &Json) -> (r: Result<Field, Failure>)
    ensures
        match r {
            Ok(field) => column_in(row@) is Ok && field@ == column_in(row@)->Ok_0,
            Err(failure) => column_in(row@) is Err && failure@ == column_in(row@)->Err_0,
        },
{
    match read_listed(row) {
        Ok((name, declared, key)) => {
            let (base, nullable) = strip_nullable(declared.as_str());
            match ch_to_data_type(base.as_str()) {
                Ok(data_type) => {
                    let mut field = Field::new(name.as_str(), data_type, nullable);
                    if key {
                        field.annotate(schema::KEY, "");
                    }
                    Ok(field)
                },
                Err(error) => Err(Failure::Sql(error)),
            }
        },
        Err(cause) => Err(Failure::Within("decoding column row".to_string(), cause)),
    }
}

/// The columns that the rows of a column listing describe.
pub fn table_columns(rows: &Vec<Json>) -> (r: Result<Vec<Field>, Failure>)
    ensures
        ({
            let expected = columns_in(json::json_views(rows@));
            match r {
                Ok(fields) => expected is Ok && schema::field_views(fields@) == expected->Ok_0,
                Err(failure) => expected is Err && failure@ == expected->Err_0,
            }
        }),
{
    let ghost all = json::json_views(rows@);
    let mut fields: Vec<Field> = Vec::new();
    let mut i: usize = 0;
    assert(all.take(0) =~= Seq::empty());
    assert(schema::field_views(fields@) =~= Seq::empty());
    while i < rows.len()
        invariant
            i <= rows.len(),
            all == json::json_views(rows@),
            columns_in(all.take(i as int)) is Ok,
            columns_in(all.take(i as int))->Ok_0 == schema::field_views(fields@),
        decreases rows.len() - i,
    {
        assert(all.take(i + 1).drop_last() =~= all.take(i as int));
        assert(all[i as int] == rows@[i as int]@);
        let ghost before = schema::field_views(fields@);
        match column_of(&rows[i]) {
            Ok(field) => {
                fields.push(field);
                assert(schema::field_views(fields@) =~= before.push(field@));
            },
            Err(failure) => {
                proof {
                    lemma_columns_fail(all, i + 1);
                }
                return Err(failure);
            },
        }
        i = i + 1;
    }
    assert(all.take(i as int) =~= all);
    Ok(fields)
}

/// The schema of a table with the given columns. A table without columns does not exist.
pub open spec fn schema_of(table: Seq<char>, columns: Seq<FieldView>) -> Result<
    Seq<FieldView>,
    FailureView,
> {
    if columns.len() == 0 {
        Err(FailureView::TableNotFound(table))
    } else {
        Ok(columns)
    }
}

/// The schema of a table with the given columns. A table without columns does not exist.
pub fn table_schema(table: &str, columns: Vec<Field>) -> (r: Result<Schema, Failure>)
    ensures
        match r {
            Ok(schema) => schema_of(table@, schema::field_views(columns@)) == Ok::<
                Seq<FieldView>,
                FailureView,
            >(schema@),
            Err(failure) => schema_of(table@, schema::field_views(columns@)) == Err::<
                Seq<FieldView>,
                FailureView,
            >(failure@),
        },
{
    if columns.len() == 0 {
        Err(Failure::Sql(SqlError::TableNotFound(table.to_string())))
    } else {
        Ok(Schema::new(columns))
    }
}

// === Reading ===

/// The clause that orders by the cursor column, with a space behind it.
pub open spec fn order_text(column: Option<Seq<char>>) -> Seq<char> {
    match column {
        Some(column) => "ORDER BY "@ + sql::quoted(column, QUOTE) + " ASC "@,
        None => Seq::empty(),
    }
}

/// The statement that reads one page of a table, or the message that refuses the filter.
pub open spec fn rows_text(
    table: Seq<char>,
    offset: u32,
    limit: u32,
    column: Option<Seq<char>>,
    filter: Option<FilterView>,
) -> Result<Seq<char>, Seq<char>> {
    match filter::where_text(filter, QUOTE) {
        Err(message) => Err(message),
        Ok(condition) => Ok(
            "SELECT * FROM "@ + sql::quoted(table, QUOTE) + " FINAL "@ + condition + order_text(
                column,
            ) + "LIMIT "@ + text::decimal(limit as nat) + " OFFSET "@ + text::decimal(
                offset as nat,
            )
                + " SETTINGS output_format_json_quote_64bit_integers = 0 FORMAT JSONEachRow"@,
        ),
    }
}

/// The clause that orders by the cursor column, with a space behind it.
fn order_sql(column: &Option<String>) -> (r: String)
    ensures
        r@ == order_text(column.deep_view()),
{
    match column {
        Some(column) => {
            let name = sql::quote_ident(column.as_str(), QUOTE);
            text::cat3("ORDER BY ", name.as_str(), " ASC ")
        },
        None => {
            let none = String::new();
            assert(none@ =~= Seq::<char>::empty());
            none
        },
    }
}

/// The statement that reads one page of a table. `FINAL` collapses the duplicate keys of a
/// replacing table when it is read, and 64-bit integers stay JSON numbers.
pub fn rows_sql(table: &str, cursor: &SqlCursor, filter: Option<&Filter>) -> (r: Result<
    String,
    Failure,
>)
    ensures
        error::gives(
            r,
            rows_text(
                table@,
                cursor.offset,
                cursor.limit,
                cursor.cursor.deep_view(),
                match filter {
                    Some(filter) => Some(filter@),
                    None => None,
                },
            ),
        ),
{
    let condition = match filter::where_clause(filter, QUOTE) {
        Ok(condition) => condition,
        Err(failure) => {
            return Err(failure);
        },
    };
    let name = sql::quote_ident(table, QUOTE);
    let order = order_sql(&cursor.cursor);
    let limit = text::decimal_u64(cursor.limit as u64);
    let offset = text::decimal_u64(cursor.offset as u64);
    let mut r = text::cat5(
        "SELECT * FROM ",
        name.as_str(),
        " FINAL ",
        condition.as_str(),
        order.as_str(),
    );
    r.append("LIMIT ");
    r.append(limit.as_str());
    r.append(" OFFSET ");
    r.append(offset.as_str());
    r.append(" SETTINGS output_format_json_quote_64bit_integers = 0 FORMAT JSONEachRow");
    Ok(r)
}

// === Creating ===

/// The type of a new column. A column of the sorting key cannot be null.
pub open spec fn column_type(field: FieldView, keys: Seq<Seq<char>>) -> Seq<char> {
    if field.nullable && !keys.contains(field.name) {
        "Nullable("@ + stored_type(field.data_type) + ")"@
    } else {
        stored_type(field.data_type)
    }
}

/// The definition of a new column.
pub open spec fn column_text(field: FieldView, keys: Seq<Seq<char>>) -> Seq<char> {
    sql::quoted(field.name, QUOTE) + " "@ + column_type(field, keys)
}

/// The definitions of the columns of a new table.
pub open spec fn column_texts(fields: Seq<FieldView>) -> Seq<Seq<char>> {
    fields.map_values(|field: FieldView| column_text(field, schema::key_names(fields)))
}

/// The engine of a new table: one that collapses duplicate keys, where there is a key.
pub open spec fn engine_text(keys: Seq<Seq<char>>) -> Seq<char> {
    if keys.len() == 0 {
        "ENGINE = MergeTree ORDER BY tuple()"@
    } else {
        "ENGINE = ReplacingMergeTree ORDER BY ("@ + sql::quoted_list(keys, QUOTE) + ")"@
    }
}

/// The statement that creates a table.
pub open spec fn create_text(table: Seq<char>, fields: Seq<FieldView>) -> Seq<char> {
    "CREATE TABLE "@ + sql::quoted(table, QUOTE) + " ("@ + text::joined(
        column_texts(fields),
        ", "@,
    ) + ") "@ + engine_text(schema::key_names(fields))
}

/// The row with which the server lists a column of a table that [`create_text`] created: the
/// name, the type as it was declared, and whether the sorting key, which is the primary key
/// too, has the column.
pub open spec fn listing_row(field: FieldView, keys: Seq<Seq<char>>) -> JsonView {
    let flag: u64 = if keys.contains(field.name) {
        1
    } else {
        0
    };
    JsonView::Object(
        seq![
            ("is_in_primary_key"@, JsonView::Number(NumberView::PosInt(flag))),
            ("name"@, JsonView::Str(field.name)),
            ("type"@, JsonView::Str(column_type(field, keys))),
        ],
    )
}

/// The rows with which the server lists the columns of a table that [`create_text`] created.
pub open spec fn listing_of(fields: Seq<FieldView>) -> Seq<JsonView> {
    fields.map_values(|field: FieldView| listing_row(field, schema::key_names(fields)))
}

/// A column as it comes back from a table that was created with it.
pub open spec fn returned_field(field: FieldView, keys: Seq<Seq<char>>) -> FieldView {
    FieldView {
        name: field.name,
        data_type: returned_type(field.data_type),
        nullable: field.nullable && !keys.contains(field.name),
        annotations: key_note(keys.contains(field.name)),
    }
}

/// The type of a column that was created is no `Nullable(..)` unless it was made one.
proof fn lemma_column_type_unwraps(field: FieldView, keys: Seq<Seq<char>>)
    ensures
        unwrapped(column_type(field, keys)) == (
            stored_type(field.data_type),
            field.nullable && !keys.contains(field.name),
        ),
{
    nullable_unwraps(stored_type(field.data_type));
    reveal_strlit("Nullable(");
    reveal_strlit("Bool");
    reveal_strlit("Int64");
    reveal_strlit("UInt64");
    reveal_strlit("Float64");
    reveal_strlit("Decimal(38, 10)");
    reveal_strlit("String");
    reveal_strlit("DateTime64(3)");
    reveal_strlit("Date");
    let stored = stored_type(field.data_type);
    assert("Nullable("@[0] == 'N');
    assert(stored[0] != 'N');
    assert(!"Nullable("@.is_prefix_of(stored));
}

/// The row of a column that was created reads back as that column.
proof fn lemma_listed_row(field: FieldView, keys: Seq<Seq<char>>)
    ensures
        column_in(listing_row(field, keys)) == Ok::<FieldView, FailureView>(
            returned_field(field, keys),
        ),
{
    reveal_strlit("is_in_primary_key");
    reveal_strlit("name");
    reveal_strlit("type");
    let members = listing_row(field, keys)->Object_0;
    assert("name"@[0] == 'n' && "type"@[0] == 't' && "is_in_primary_key"@[0] == 'i');
    json::lemma_member_at_is(members, "is_in_primary_key"@, 0);
    json::lemma_member_at_is(members, "name"@, 1);
    json::lemma_member_at_is(members, "type"@, 2);
    column_types_come_back(field.data_type);
    lemma_column_type_unwraps(field, keys);
}

/// The columns of a table that was created are listed back in order, each with its name, the
/// type that comes back from the one it was created with, and the key mark where the key has
/// it.
pub proof fn created_columns_come_back(fields: Seq<FieldView>)
    ensures
        columns_in(listing_of(fields)) == Ok::<Seq<FieldView>, FailureView>(
            fields.map_values(
                |field: FieldView| returned_field(field, schema::key_names(fields)),
            ),
        ),
{
    lemma_columns_come_back(fields, schema::key_names(fields));
}

/// The columns are listed back whatever names are taken for the key.
proof fn lemma_columns_come_back(fields: Seq<FieldView>, keys: Seq<Seq<char>>)
    ensures
        columns_in(fields.map_values(|field: FieldView| listing_row(field, keys))) == Ok::<
            Seq<FieldView>,
            FailureView,
        >(fields.map_values(|field: FieldView| returned_field(field, keys))),
    decreases fields.len(),
{
    let rows = fields.map_values(|field: FieldView| listing_row(field, keys));
    let columns = fields.map_values(|field: FieldView| returned_field(field, keys));
    if fields.len() == 0 {
        assert(columns =~= Seq::<FieldView>::empty());
    } else {
        let fewer = fields.drop_last();
        lemma_columns_come_back(fewer, keys);
        lemma_listed_row(fields.last(), keys);
        assert(rows.drop_last() =~= fewer.map_values(|field: FieldView| listing_row(field, keys)));
        assert(columns =~= fewer.map_values(
            |field: FieldView| returned_field(field, keys),
        ).push(returned_field(fields.last(), keys)));
    }
}

/// A name is a key name where a field that is part of the key has it.
proof fn lemma_key_names(fields: Seq<FieldView>, name: Seq<char>)
    ensures
        schema::key_names(fields).contains(name) <==> exists|i: int|
            0 <= i < fields.len() && (#[trigger] fields[i]).is_key() && fields[i].name == name,
    decreases fields.len(),
{
    if fields.len() > 0 {
        let fewer = fields.drop_last();
        let before = schema::key_names(fewer);
        lemma_key_names(fewer, name);
        if fields.last().is_key() {
            let all = before.push(fields.last().name);
            if all.contains(name) {
                let k = choose|k: int| 0 <= k < all.len() && all[k] == name;
                if k < before.len() {
                    assert(before[k] == name);
                    assert(before.contains(name));
                } else {
                    assert(fields[fields.len() - 1].is_key());
                }
            }
            if before.contains(name) {
                let k = choose|k: int| 0 <= k < before.len() && before[k] == name;
                assert(all[k] == name);
            }
            assert(all[before.len() as int] == fields.last().name);
        }
        if exists|i: int|
            0 <= i < fewer.len() && (#[trigger] fewer[i]).is_key() && fewer[i].name == name {
            let i = choose|i: int|
                0 <= i < fewer.len() && (#[trigger] fewer[i]).is_key() && fewer[i].name == name;
            assert(fields[i].is_key());
        }
        if exists|i: int|
            0 <= i < fields.len() && (#[trigger] fields[i]).is_key() && fields[i].name == name {
            let i = choose|i: int|
                0 <= i < fields.len() && (#[trigger] fields[i]).is_key() && fields[i].name
                    == name;
            if i < fewer.len() {
                assert(fewer[i].is_key());
            }
        }
    }
}

/// The fields that come back are part of the key where the fields were.
proof fn lemma_returned_keys(fields: Seq<FieldView>, all: Seq<FieldView>)
    requires
        fields.len() <= all.len(),
        fields == all.take(fields.len() as int),
        forall|i: int, j: int|
            0 <= i < j < all.len() ==> (#[trigger] all[i]).name != (#[trigger] all[j]).name,
    ensures
        schema::key_names(
            fields.map_values(|field: FieldView| returned_field(field, schema::key_names(all))),
        ) == schema::key_names(fields),
    decreases fields.len(),
{
    let keys = schema::key_names(all);
    let columns = fields.map_values(|field: FieldView| returned_field(field, keys));
    if fields.len() > 0 {
        let fewer = fields.drop_last();
        assert(fewer =~= all.take(fewer.len() as int));
        lemma_returned_keys(fewer, all);
        assert(columns.drop_last() =~= fewer.map_values(
            |field: FieldView| returned_field(field, keys),
        ));
        let n = fields.len() - 1;
        assert(fields.last() == all[n]);
        lemma_key_names(all, all[n].name);
        if keys.contains(all[n].name) {
            let i = choose|i: int|
                0 <= i < all.len() && (#[trigger] all[i]).is_key() && all[i].name == all[n].name;
            assert(i == n);
        }
        assert(columns.last().is_key() == fields.last().is_key());
    }
}

/// A table that was created with columns of different names lists back exactly the key that it
/// was created with.
pub proof fn created_keys_come_back(fields: Seq<FieldView>)
    requires
        forall|i: int, j: int|
            0 <= i < j < fields.len() ==> (#[trigger] fields[i]).name != (
            #[trigger] fields[j]).name,
    ensures
        columns_in(listing_of(fields)) is Ok,
        schema::key_names(columns_in(listing_of(fields))->Ok_0) == schema::key_names(fields),
{
    created_columns_come_back(fields);
    assert(fields =~= fields.take(fields.len() as int));
    lemma_returned_keys(fields, fields);
}

/// The definition of a new column.
fn column_sql(field: &Field, keys: &Vec<String>) -> (r: String)
    ensures
        r@ == column_text(field@, keys.deep_view()),
{
    let name = sql::quote_ident(field.name.as_str(), QUOTE);
    let base = data_type_to_ch(&field.data_type);
    let mut r = text::cat2(name.as_str(), " ");
    if field.nullable && !projection::has_name(keys, field.name.as_str()) {
        let wrapped = text::cat3("Nullable(", base, ")");
        r.append(wrapped.as_str());
    } else {
        r.append(base);
    }
    r
}

/// The statement that creates a table: ordered by the key, so that duplicate keys collapse.
pub fn create_sql(table: &str, schema: &Schema) -> (r: String)
    ensures
        r@ == create_text(table@, schema@),
{
    let keys = schema.get_key_fields();
    let ghost names = schema::key_names(schema@);
    let ghost model = column_texts(schema@);
    let mut columns: Vec<String> = Vec::new();
    let mut i: usize = 0;
    while i < schema.fields.len()
        invariant
            i <= schema.fields.len(),
            names == schema::key_names(schema@),
            keys.deep_view() == names,
            model == column_texts(schema@),
            columns.deep_view() == model.take(i as int),
        decreases schema.fields.len() - i,
    {
        let ghost before = columns.deep_view();
        assert(schema@[i as int] == schema.fields@[i as int]@);
        let column = column_sql(&schema.fields[i], &keys);
        columns.push(column);
        assert(columns.deep_view() =~= before.push(column@));
        assert(columns.deep_view() =~= model.take(i + 1));
        i = i + 1;
    }
    assert(model.take(i as int) =~= model);
    assert(keys.len() == keys.deep_view().len());
    let engine = if keys.len() == 0 {
        "ENGINE = MergeTree ORDER BY tuple()".to_string()
    } else {
        let list = sql::quote_idents(&keys, QUOTE);
        text::cat3("ENGINE = ReplacingMergeTree ORDER BY (", list.as_str(), ")")
    };
    let name = sql::quote_ident(table, QUOTE);
    let list = text::join(&columns, ", ");
    let mut r = text::cat4("CREATE TABLE ", name.as_str(), " (", list.as_str());
    r.append(") ");
    r.append(engine.as_str());
    r
}

/// The first field that the existing columns do not have.
pub open spec fn first_absent(fields: Seq<FieldView>, existing: Seq<FieldView>) -> Option<Seq<char>>
    decreases fields.len(),
{
    if fields.len() == 0 {
        None
    } else if schema::field_at(existing, fields[0].name) == existing.len() {
        Some(fields[0].name)
    } else {
        first_absent(fields.drop_first(), existing)
    }
}

/// How a table is reconciled with a schema: by a statement that creates it, where it is
/// absent; by nothing, where it has all the columns; else not at all.
pub open spec fn reconciled(
    table: Seq<char>,
    fields: Seq<FieldView>,
    existing: Seq<FieldView>,
) -> Result<Option<Seq<char>>, Seq<char>> {
    if existing.len() == 0 {
        Ok(Some(create_text(table, fields)))
    } else {
        match first_absent(fields, existing) {
            Some(name) => Err(
                "column `"@ + name + "` not present in existing table `"@ + table + "`"@,
            ),
            None => Ok(None),
        }
    }
}

/// The fields are there where each has its name among the existing columns.
proof fn lemma_none_absent(fields: Seq<FieldView>, existing: Seq<FieldView>)
    requires
        forall|i: int|
            0 <= i < fields.len() ==> exists|j: int|
                0 <= j < existing.len() && (#[trigger] existing[j]).name == (
                #[trigger] fields[i]).name,
    ensures
        first_absent(fields, existing) is None,
    decreases fields.len(),
{
    if fields.len() > 0 {
        let rest = fields.drop_first();
        assert forall|i: int| 0 <= i < rest.len() implies exists|j: int|
            0 <= j < existing.len() && (#[trigger] existing[j]).name == (
            #[trigger] rest[i]).name by {
            assert(rest[i] == fields[i + 1]);
        }
        lemma_none_absent(rest, existing);
        let name = fields[0].name;
        assert(exists|j: int| 0 <= j < existing.len() && (#[trigger] existing[j]).name == name);
        let j = choose|j: int| 0 <= j < existing.len() && (#[trigger] existing[j]).name == name;
        schema::lemma_field_at(existing, name);
        assert(existing[j].name == name);
    }
}

/// A table that was created with columns has a schema: its columns in order, each with its
/// name, the type that comes back, whether it can be null, and, where the names differ, the key
/// that it was created with. The same schema then needs nothing of the table.
pub proof fn created_tables_have_their_schema(table: Seq<char>, fields: Seq<FieldView>)
    requires
        fields.len() > 0,
    ensures
        columns_in(listing_of(fields)) is Ok,
        ({
            let keys = schema::key_names(fields);
            let read = schema_of(table, columns_in(listing_of(fields))->Ok_0);
            &&& read is Ok
            &&& read->Ok_0.len() == fields.len()
            &&& forall|i: int|
                0 <= i < fields.len() ==> #[trigger] read->Ok_0[i] == returned_field(
                    fields[i],
                    keys,
                )
            &&& (forall|i: int, j: int|
                0 <= i < j < fields.len() ==> (#[trigger] fields[i]).name != (
                #[trigger] fields[j]).name) ==> schema::key_names(read->Ok_0) == keys
            &&& reconciled(table, fields, read->Ok_0) == Ok::<Option<Seq<char>>, Seq<char>>(None)
        }),
{
    created_columns_come_back(fields);
    let columns = columns_in(listing_of(fields))->Ok_0;
    if forall|i: int, j: int|
        0 <= i < j < fields.len() ==> (#[trigger] fields[i]).name != (#[trigger] fields[j]).name {
        created_keys_come_back(fields);
    }
    assert forall|i: int| 0 <= i < fields.len() implies exists|j: int|
        0 <= j < columns.len() && (#[trigger] columns[j]).name == (#[trigger] fields[i]).name by {
        assert(columns[i].name == fields[i].name);
    }
    lemma_none_absent(fields, columns);
}

/// A table that is not there has no schema, and is created.
pub proof fn absent_tables_have_no_schema(table: Seq<char>, fields: Seq<FieldView>)
    ensures
        columns_in(Seq::empty()) == Ok::<Seq<FieldView>, FailureView>(Seq::empty()),
        schema_of(table, Seq::empty()) == Err::<Seq<FieldView>, FailureView>(
            FailureView::TableNotFound(table),
        ),
        reconciled(table, fields, Seq::empty()) == Ok::<Option<Seq<char>>, Seq<char>>(
            Some(create_text(table, fields)),
        ),
{
}

/// Reconciles a table with `schema`, given its existing columns. Gives the statement to
/// run, where the table is to be created.
pub fn upsert_table(table: &str, schema: &Schema, existing: &Schema) -> (r: Result<
    Option<String>,
    Failure,
>)
    ensures
        ({
            let expected = reconciled(table@, schema@, existing@);
            match r {
                Ok(statement) => expected is Ok && statement.deep_view() == expected->Ok_0,
                Err(failure) => expected is Err && failure@ == FailureView::Message(
                    expected->Err_0,
                ),
            }
        }),
{
    if existing.fields.len() == 0 {
        return Ok(Some(create_sql(table, schema)));
    }
    let mut i: usize = 0;
    assert(schema@.skip(0) =~= schema@);
    while i < schema.fields.len()
        invariant
            i <= schema.fields.len(),
            existing@.len() > 0,
            first_absent(schema@, existing@) == first_absent(schema@.skip(i as int), existing@),
        decreases schema.fields.len() - i,
    {
        assert(schema@[i as int] == schema.fields@[i as int]@);
        assert(schema@.skip(i as int).drop_first() =~= schema@.skip(i + 1));
        if existing.position(schema.fields[i].name.as_str()).is_none() {
            return Err(
                Failure::Message(
                    text::cat5(
                        "column `",
                        schema.fields[i].name.as_str(),
                        "` not present in existing table `",
                        table,
                        "`",
                    ),
                ),
            );
        }
        i = i + 1;
    }
    Ok(None)
}

// === Writing ===

/// What a column stores of a value: its text, where the column is nested and stored as
/// text.
pub open spec fn stored_value(data_type: TypeView, value: JsonView) -> JsonView {
    match data_type {
        TypeView::Json | TypeView::List(_) | TypeView::Struct(_) => match value {
            JsonView::Null => JsonView::Null,
            _ => JsonView::Str(json::json_rendered(value)),
        },
        _ => value,
    }
}

/// A row as it is inserted: a value for each column, null where the row has none.
pub open spec fn stored_row(fields: Seq<FieldView>, row: JsonView) -> JsonView {
    JsonView::Object(
        fields.map_values(
            |field: FieldView|
                (
                    field.name,
                    stored_value(
                        field.data_type,
                        match row.member(field.name) {
                            Some(value) => value,
                            None => JsonView::Null,
                        },
                    ),
                ),
        ),
    )
}

/// The lines of an insert, each with its line feed.
pub open spec fn lines_text(fields: Seq<FieldView>, rows: Seq<JsonView>) -> Seq<char>
    decreases rows.len(),
{
    if rows.len() == 0 {
        Seq::empty()
    } else {
        lines_text(fields, rows.drop_last()) + json::json_rendered(stored_row(fields, rows.last()))
            + "\n"@
    }
}

/// The statement that inserts the rows; none where there are no rows.
pub open spec fn insert_text(
    table: Seq<char>,
    fields: Seq<FieldView>,
    rows: Seq<JsonView>,
) -> Option<Seq<char>> {
    if rows.len() == 0 {
        None
    } else {
        Some(
            "INSERT INTO "@ + sql::quoted(table, QUOTE) + " FORMAT JSONEachRow\n"@ + lines_text(
                fields,
                rows,
            ),
        )
    }
}

/// A row as it is inserted.
fn insert_row(schema: &Schema, row: &Json) -> (r: Json)
    ensures
        r@ == stored_row(schema@, row@),
{
    broadcast use json::lemma_json_view;

    let ghost model = stored_row(schema@, row@)->Object_0;
    let mut members: Vec<Member> = Vec::new();
    let mut i: usize = 0;
    while i < schema.fields.len()
        invariant
            i <= schema.fields.len(),
            model == stored_row(schema@, row@)->Object_0,
            json::member_views(members@) == model.take(i as int),
        decreases schema.fields.len() - i,
    {
        let ghost before = json::member_views(members@);
        assert(schema@[i as int] == schema.fields@[i as int]@);
        let value = match row.get(schema.fields[i].name.as_str()) {
            Some(value) => value.clone(),
            None => Json::Null,
        };
        let stored = match &schema.fields[i].data_type {
            DataType::Json | DataType::List(_) | DataType::Struct(_) => match value {
                Json::Null => Json::Null,
                other => Json::Str(json::render(&other)),
            },
            _ => value,
        };
        let member = Member { key: schema.fields[i].name.clone(), value: stored };
        members.push(member);
        assert(json::member_views(members@) =~= before.push(member@));
        assert(json::member_views(members@) =~= model.take(i + 1));
        i = i + 1;
    }
    assert(json::member_views(members@) =~= model);
    Json::Object(members)
}

/// The statement that inserts the rows, one JSON object per line; none where there are no
/// rows.
fn insert_sql(table: &str, schema: &Schema, rows: &Vec<Json>) -> (r: Option<String>)
    ensures
        r.deep_view() == insert_text(table@, schema@, json::json_views(rows@)),
{
    if rows.len() == 0 {
        return None;
    }
    let name = sql::quote_ident(table, QUOTE);
    let mut body = text::cat3("INSERT INTO ", name.as_str(), " FORMAT JSONEachRow\n");
    let ghost all = json::json_views(rows@);
    let ghost head = body@;
    let mut i: usize = 0;
    assert(head + lines_text(schema@, all.take(0)) =~= head);
    while i < rows.len()
        invariant
            i <= rows.len(),
            all == json::json_views(rows@),
            body@ == head + lines_text(schema@, all.take(i as int)),
        decreases rows.len() - i,
    {
        let ghost before = body@;
        assert(all.take(i + 1).drop_last() =~= all.take(i as int));
        assert(all[i as int] == rows@[i as int]@);
        let row = insert_row(schema, &rows[i]);
        let line = json::render(&row);
        body.append(line.as_str());
        body.append("\n");
        assert(body@ =~= head + lines_text(schema@, all.take(i + 1)));
        i = i + 1;
    }
    assert(all.take(i as int) =~= all);
    Some(body)
}

/// Writes rows into a table that is there: the statement to run, where there are rows, and
/// the outcome once it has run. Every row counts as written.
pub fn write_table(table: &str, schema: &Schema, rows: &Vec<Json>) -> (r: (
    Option<String>,
    WriteResult,
))
    ensures
        r.0.deep_view() == insert_text(table@, schema@, json::json_views(rows@)),
        r.1.table@ == table@,
        !r.1.created,
        r.1.rows_written == rows.len(),
{
    let mut result = WriteResult::new(table, false);
    result.record(rows.len() as u64);
    (insert_sql(table, schema, rows), result)
}

// === The provider ===

impl Provider for Clickhouse {
    open spec fn backend() -> Seq<char> {
        "clickhouse"@
    }

    open spec fn routes() -> Seq<EndpointView> {
        table::table_routes()
    }

    fn name() -> (r: &'static str) {
        "clickhouse"
    }

    fn new(config: &ProviderConfig) -> (r: Result<Self, Failure>)
        ensures
            r is Ok,
            r->Ok_0.url@ == config@.param("url"@),
            r->Ok_0.database@ == config@.param("database"@),
            r->Ok_0.user@ == config@.param("user"@),
            r->Ok_0.password@ == config@.param("password"@),
    {
        Ok(
            Clickhouse {
                url: config.param("url"),
                database: config.param("database"),
                user: config.param("user"),
                password: config.param("password"),
            },
        )
    }

    fn register(router: &mut Router) {
        table::register_tables(router);
    }
}


/// The provider answers for its tables as every SQL provider does, and is called by its name.
pub proof fn clickhouse_answers_for_its_tables()
    ensures
        Clickhouse::backend() == "clickhouse"@,
        Clickhouse::routes() == table::table_routes(),
{
}

} // verus!
