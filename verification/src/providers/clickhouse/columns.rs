//! What is read of a server's answers: the types of its columns, its rows and its listings.

use vstd::prelude::*;
use vstd::string::*;

use super::{
    column_in, columns_in, create_text, first_absent, listed, names_in, read_type,
    reconciled, rows_of, schema_of, stored_row, type_head, unexpected, unwrapped,
};
use crate::error::FailureView;
use crate::json::{self, JsonView, NumberView};
use crate::schema::{self, FieldView, TypeView};
use crate::text;

verus! {

// === Types ===

/// Whether a type is called `head`, alone or ahead of its parameters.
pub open spec fn called(name: Seq<char>, head: Seq<char>) -> bool {
    &&& !head.contains('(')
    &&& head.is_prefix_of(name)
    &&& name.len() == head.len() || name[head.len() as int] == '('
}

/// What a type is called is what stands ahead of its parameters.
proof fn lemma_called(name: Seq<char>, head: Seq<char>)
    requires
        called(name, head),
    ensures
        type_head(name) == head,
{
    let n = head.len() as int;
    assert(name.take(n) =~= head);
    assert forall|i: int| 0 <= i < n implies name[i] != '(' by {
        assert(name.take(n)[i] == head[i]);
        assert(head.contains(head[i]));
    }
    text::lemma_find_is(name, '(', n);
    assert(name.len() == n ==> name =~= head);
}

/// A column is read by what its type is called, whatever its parameters are: the integers as
/// integers, the decimals as decimals, moments and days as such, what is nested as JSON, what is
/// written as text as text; and no other type is read.
#[verifier::rlimit(60)]
#[verifier::spinoff_prover]
pub proof fn types_are_read_by_what_they_are_called(name: Seq<char>, head: Seq<char>)
    requires
        called(name, head),
    ensures
        read_type(name) == Some(TypeView::Bool) <==> head == "Bool"@,
        read_type(name) == Some(TypeView::Int64) <==> {
            ||| head == "Int8"@
            ||| head == "Int16"@
            ||| head == "Int32"@
            ||| head == "Int64"@
            ||| head == "Int128"@
            ||| head == "Int256"@
            ||| head == "UInt8"@
            ||| head == "UInt16"@
            ||| head == "UInt32"@
            ||| head == "UInt64"@
            ||| head == "UInt128"@
            ||| head == "UInt256"@
        },
        read_type(name) == Some(TypeView::Float64) <==> (head == "Float32"@ || head == "Float64"@),
        read_type(name) == Some(TypeView::Decimal) <==> {
            ||| head == "Decimal"@
            ||| head == "Decimal32"@
            ||| head == "Decimal64"@
            ||| head == "Decimal128"@
            ||| head == "Decimal256"@
        },
        read_type(name) == Some(TypeView::Timestamp) <==> {
            ||| head == "DateTime"@
            ||| head == "DateTime64"@
        },
        read_type(name) == Some(TypeView::Date) <==> (head == "Date"@ || head == "Date32"@),
        read_type(name) == Some(TypeView::Json) <==> {
            ||| head == "Array"@
            ||| head == "Tuple"@
            ||| head == "Map"@
            ||| head == "Nested"@
        },
        read_type(name) == Some(TypeView::String) <==> {
            ||| head == "String"@
            ||| head == "FixedString"@
            ||| head == "UUID"@
            ||| head == "Enum8"@
            ||| head == "Enum16"@
            ||| head == "IPv4"@
            ||| head == "IPv6"@
        },
        read_type(name) is Some ==> !(read_type(name)->0 is UInt64 || read_type(name)->0 is Bytes
            || read_type(name)->0 is List || read_type(name)->0 is Struct),
{
    lemma_called(name, head);
    reveal_strlit("Bool");
    reveal_strlit("Int8");
    reveal_strlit("Int16");
    reveal_strlit("Int32");
    reveal_strlit("Int64");
    reveal_strlit("Int128");
    reveal_strlit("Int256");
    reveal_strlit("UInt8");
    reveal_strlit("UInt16");
    reveal_strlit("UInt32");
    reveal_strlit("UInt64");
    reveal_strlit("UInt128");
    reveal_strlit("UInt256");
    reveal_strlit("Float32");
    reveal_strlit("Float64");
    reveal_strlit("Decimal");
    reveal_strlit("Decimal32");
    reveal_strlit("Decimal64");
    reveal_strlit("Decimal128");
    reveal_strlit("Decimal256");
    reveal_strlit("DateTime");
    reveal_strlit("DateTime64");
    reveal_strlit("Date");
    reveal_strlit("Date32");
    reveal_strlit("Array");
    reveal_strlit("Tuple");
    reveal_strlit("Map");
    reveal_strlit("Nested");
    reveal_strlit("String");
    reveal_strlit("FixedString");
    reveal_strlit("UUID");
    reveal_strlit("Enum8");
    reveal_strlit("Enum16");
    reveal_strlit("IPv4");
    reveal_strlit("IPv6");
    assert("Bool"@.len() == 4 && "Bool"@[0] == 'B' && "Bool"@[1] == 'o');
    assert("Int8"@.len() == 4 && "Int8"@[0] == 'I' && "Int8"@[1] == 'n');
    assert("Int16"@.len() == 5 && "Int16"@[0] == 'I' && "Int16"@[1] == 'n');
    assert("Int32"@.len() == 5 && "Int32"@[0] == 'I' && "Int32"@[1] == 'n');
    assert("Int64"@.len() == 5 && "Int64"@[0] == 'I' && "Int64"@[1] == 'n');
    assert("Int128"@.len() == 6 && "Int128"@[0] == 'I' && "Int128"@[1] == 'n');
    assert("Int256"@.len() == 6 && "Int256"@[0] == 'I' && "Int256"@[1] == 'n');
    assert("UInt8"@.len() == 5 && "UInt8"@[0] == 'U' && "UInt8"@[1] == 'I');
    assert("UInt16"@.len() == 6 && "UInt16"@[0] == 'U' && "UInt16"@[1] == 'I');
    assert("UInt32"@.len() == 6 && "UInt32"@[0] == 'U' && "UInt32"@[1] == 'I');
    assert("UInt64"@.len() == 6 && "UInt64"@[0] == 'U' && "UInt64"@[1] == 'I');
    assert("UInt128"@.len() == 7 && "UInt128"@[0] == 'U' && "UInt128"@[1] == 'I');
    assert("UInt256"@.len() == 7 && "UInt256"@[0] == 'U' && "UInt256"@[1] == 'I');
    assert("Float32"@.len() == 7 && "Float32"@[0] == 'F' && "Float32"@[1] == 'l');
    assert("Float64"@.len() == 7 && "Float64"@[0] == 'F' && "Float64"@[1] == 'l');
    assert("Decimal"@.len() == 7 && "Decimal"@[0] == 'D' && "Decimal"@[1] == 'e');
    assert("Decimal32"@.len() == 9 && "Decimal32"@[0] == 'D' && "Decimal32"@[1] == 'e');
    assert("Decimal64"@.len() == 9 && "Decimal64"@[0] == 'D' && "Decimal64"@[1] == 'e');
    assert("Decimal128"@.len() == 10 && "Decimal128"@[0] == 'D' && "Decimal128"@[1] == 'e');
    assert("Decimal256"@.len() == 10 && "Decimal256"@[0] == 'D' && "Decimal256"@[1] == 'e');
    assert("DateTime"@.len() == 8 && "DateTime"@[0] == 'D' && "DateTime"@[1] == 'a');
    assert("DateTime64"@.len() == 10 && "DateTime64"@[0] == 'D' && "DateTime64"@[1] == 'a');
    assert("Date"@.len() == 4 && "Date"@[0] == 'D' && "Date"@[1] == 'a');
    assert("Date32"@.len() == 6 && "Date32"@[0] == 'D' && "Date32"@[1] == 'a');
    assert("Array"@.len() == 5 && "Array"@[0] == 'A' && "Array"@[1] == 'r');
    assert("Tuple"@.len() == 5 && "Tuple"@[0] == 'T' && "Tuple"@[1] == 'u');
    assert("Map"@.len() == 3 && "Map"@[0] == 'M' && "Map"@[1] == 'a');
    assert("Nested"@.len() == 6 && "Nested"@[0] == 'N' && "Nested"@[1] == 'e');
    assert("String"@.len() == 6 && "String"@[0] == 'S' && "String"@[1] == 't');
    assert("FixedString"@.len() == 11 && "FixedString"@[0] == 'F' && "FixedString"@[1] == 'i');
    assert("UUID"@.len() == 4 && "UUID"@[0] == 'U' && "UUID"@[1] == 'U');
    assert("Enum8"@.len() == 5 && "Enum8"@[0] == 'E' && "Enum8"@[1] == 'n');
    assert("Enum16"@.len() == 6 && "Enum16"@[0] == 'E' && "Enum16"@[1] == 'n');
    assert("IPv4"@.len() == 4 && "IPv4"@[0] == 'I' && "IPv4"@[1] == 'P');
    assert("IPv6"@.len() == 4 && "IPv6"@[0] == 'I' && "IPv6"@[1] == 'P');
}

/// A type is nullable where it is wrapped as one, and is then what is wrapped.
pub proof fn only_nullable_types_are_unwrapped(name: Seq<char>)
    ensures
        unwrapped(name).1 ==> name == "Nullable("@ + unwrapped(name).0 + seq![')'],
        !unwrapped(name).1 ==> unwrapped(name).0 == name,
        unwrapped(name).1 <==> "Nullable("@.is_prefix_of(name) && name.len() > "Nullable("@.len()
            && name.last() == ')',
{
    let prefix = "Nullable("@;
    if unwrapped(name).1 {
        assert(name.take(prefix.len() as int) =~= prefix);
        assert(name =~= prefix + unwrapped(name).0 + seq![')']);
    }
}

// === Rows ===

/// Every line that is not blank is a row, in order, where each of them is JSON.
pub proof fn lines_are_rows(lines: Seq<Seq<char>>)
    requires
        forall|i: int|
            0 <= i < lines.len() && text::trimmed(#[trigger] lines[i]).len() > 0
                ==> json::json_parsed(lines[i]) is Ok,
    ensures
        rows_of(lines) == Ok::<Seq<JsonView>, Seq<char>>(
            lines.filter(|line: Seq<char>| text::trimmed(line).len() > 0).map_values(
                |line: Seq<char>| json::json_parsed(line)->Ok_0,
            ),
        ),
    decreases lines.len(),
{
    reveal(Seq::filter);
    let kept = |line: Seq<char>| text::trimmed(line).len() > 0;
    let row = |line: Seq<char>| json::json_parsed(line)->Ok_0;
    if lines.len() > 0 {
        let front = lines.drop_last();
        assert forall|i: int|
            0 <= i < front.len() && text::trimmed(#[trigger] front[i]).len() > 0 implies json::json_parsed(
            front[i],
        ) is Ok by {
            assert(front[i] == lines[i]);
        }
        lines_are_rows(front);
        let last = lines[lines.len() - 1];
        assert(last == lines.last());
        if kept(last) {
            assert(lines.filter(kept).map_values(row) =~= front.filter(kept).map_values(row).push(
                row(last),
            ));
        }
    } else {
        assert(lines.filter(kept).map_values(row) =~= Seq::empty());
    }
}

/// The first line that is neither blank nor JSON refuses all, for its own reason.
pub proof fn the_first_bad_line_refuses(lines: Seq<Seq<char>>, n: int)
    requires
        0 <= n < lines.len(),
        forall|i: int|
            0 <= i < n && text::trimmed(#[trigger] lines[i]).len() > 0 ==> json::json_parsed(
                lines[i],
            ) is Ok,
        text::trimmed(lines[n]).len() > 0,
        json::json_parsed(lines[n]) is Err,
    ensures
        rows_of(lines) == Err::<Seq<JsonView>, Seq<char>>(json::json_parsed(lines[n])->Err_0),
    decreases lines.len(),
{
    let front = lines.drop_last();
    if n == lines.len() - 1 {
        assert forall|i: int|
            0 <= i < front.len() && text::trimmed(#[trigger] front[i]).len() > 0 implies json::json_parsed(
            front[i],
        ) is Ok by {
            assert(front[i] == lines[i]);
        }
        lines_are_rows(front);
    } else {
        assert forall|i: int|
            0 <= i < n && text::trimmed(#[trigger] front[i]).len() > 0 implies json::json_parsed(
            front[i],
        ) is Ok by {
            assert(front[i] == lines[i]);
        }
        assert(front[n] == lines[n]);
        the_first_bad_line_refuses(front, n);
    }
}

/// Whether a row of a table listing has a name.
pub open spec fn has_name(row: JsonView) -> bool {
    row.member("name"@) is Some && row.member("name"@)->0 is Str
}

/// A table listing gives the name of each of its rows, in order; a row without a name refuses it.
pub proof fn every_table_is_named(rows: Seq<JsonView>)
    ensures
        (forall|i: int| 0 <= i < rows.len() ==> has_name(#[trigger] rows[i])) ==> names_in(rows)
            == Ok::<Seq<Seq<char>>, Seq<char>>(
            rows.map_values(|row: JsonView| row.member("name"@)->0->Str_0),
        ),
        !(forall|i: int| 0 <= i < rows.len() ==> has_name(#[trigger] rows[i])) ==> names_in(rows)
            == Err::<Seq<Seq<char>>, Seq<char>>("table row missing `name`"@),
    decreases rows.len(),
{
    let name = |row: JsonView| row.member("name"@)->0->Str_0;
    if rows.len() > 0 {
        let front = rows.drop_last();
        every_table_is_named(front);
        assert(rows.last() == rows[rows.len() - 1]);
        if forall|i: int| 0 <= i < rows.len() ==> has_name(#[trigger] rows[i]) {
            assert forall|i: int| 0 <= i < front.len() implies has_name(#[trigger] front[i]) by {
                assert(front[i] == rows[i]);
            }
            assert(rows.map_values(name) =~= front.map_values(name).push(name(rows.last())));
        } else if forall|i: int| 0 <= i < front.len() ==> has_name(#[trigger] front[i]) {
            assert forall|i: int| 0 <= i < rows.len() && i != rows.len() - 1 implies has_name(
                #[trigger] rows[i],
            ) by {
                assert(front[i] == rows[i]);
            }
            assert(!has_name(rows.last()));
        }
    } else {
        assert(rows.map_values(name) =~= Seq::empty());
    }
}

// === Columns ===

/// A column listing gives the column of each of its rows, in order; the first row that describes
/// none refuses it, for its own reason.
pub proof fn every_column_is_described(rows: Seq<JsonView>, n: int)
    requires
        0 <= n <= rows.len(),
        forall|i: int| 0 <= i < n ==> column_in(#[trigger] rows[i]) is Ok,
    ensures
        n == rows.len() ==> columns_in(rows) == Ok::<Seq<FieldView>, FailureView>(
            rows.map_values(|row: JsonView| column_in(row)->Ok_0),
        ),
        n < rows.len() && column_in(rows[n]) is Err ==> columns_in(rows) == Err::<
            Seq<FieldView>,
            FailureView,
        >(column_in(rows[n])->Err_0),
    decreases rows.len(),
{
    let column = |row: JsonView| column_in(row)->Ok_0;
    if rows.len() > 0 {
        let front = rows.drop_last();
        assert(rows.last() == rows[rows.len() - 1]);
        assert forall|i: int| 0 <= i < n && i < front.len() implies column_in(
            #[trigger] front[i],
        ) is Ok by {
            assert(front[i] == rows[i]);
        }
        if n == rows.len() {
            every_column_is_described(front, n - 1);
            assert(rows.map_values(column) =~= front.map_values(column).push(column(rows.last())));
        } else {
            every_column_is_described(front, n);
            if n < front.len() {
                assert(front[n] == rows[n]);
            }
        }
    } else {
        assert(rows.map_values(column) =~= Seq::empty());
    }
}

/// The row of a column listing, as an object.
pub open spec fn object_row(name: Seq<char>, declared: Seq<char>, flag: Option<JsonView>) -> JsonView {
    let named = seq![("name"@, JsonView::Str(name)), ("type"@, JsonView::Str(declared))];
    JsonView::Object(
        match flag {
            Some(flag) => named.push(("is_in_primary_key"@, flag)),
            None => named,
        },
    )
}

/// The row of a column listing, as an array.
pub open spec fn array_row(name: Seq<char>, declared: Seq<char>, flag: Option<JsonView>) -> JsonView {
    let named = seq![JsonView::Str(name), JsonView::Str(declared)];
    JsonView::Array(
        match flag {
            Some(flag) => named.push(flag),
            None => named,
        },
    )
}

/// A listed column has the name and the type of its row, can be null where the type is wrapped so,
/// and is of the key where the flag is a number other than zero. It is the same whether the row
/// is an object or an array.
pub proof fn listed_columns_are_described(
    name: Seq<char>,
    declared: Seq<char>,
    data_type: TypeView,
    flag: Option<JsonView>,
)
    requires
        read_type(declared) == Some(data_type),
        !"Nullable("@.is_prefix_of(declared),
    ensures
        ({
            let row = object_row(name, declared, flag);
            let wrapped = object_row(name, "Nullable("@ + declared + seq![')'], flag);
            let plain = column_in(row)->Ok_0;
            let key = flag is Some && flag->0 is Number && (match flag->0->Number_0 {
                NumberView::PosInt(n) => n != 0,
                NumberView::NegInt(_) => false,
                NumberView::Float(_) => false,
            });
            &&& column_in(row) is Ok
            &&& plain.name == name
            &&& plain.data_type == data_type
            &&& !plain.nullable
            &&& plain.annotations.contains_key("key"@) == key
            &&& column_in(wrapped) == Ok::<FieldView, FailureView>(
                FieldView { nullable: true, ..plain },
            )
            &&& column_in(array_row(name, declared, flag)) == column_in(row)
            &&& column_in(array_row(name, "Nullable("@ + declared + seq![')'], flag)) == column_in(
                wrapped,
            )
        }),
{
    let whole = "Nullable("@ + declared + seq![')'];
    lemma_object_row(name, declared, flag);
    lemma_object_row(name, whole, flag);
    reveal_strlit(")");
    assert(")"@ =~= seq![')']);
    super::nullable_unwraps(declared);
    only_nullable_types_are_unwrapped(declared);
}

/// The members of the row of a column listing.
proof fn lemma_object_row(name: Seq<char>, declared: Seq<char>, flag: Option<JsonView>)
    ensures
        ({
            let row = object_row(name, declared, flag);
            &&& row is Object
            &&& row.member("name"@) == Some(JsonView::Str(name))
            &&& row.member("type"@) == Some(JsonView::Str(declared))
            &&& row.member("is_in_primary_key"@) == flag
        }),
{
    reveal_strlit("name");
    reveal_strlit("type");
    reveal_strlit("is_in_primary_key");
    assert("name"@[0] == 'n' && "type"@[0] == 't' && "is_in_primary_key"@[0] == 'i');
    let members = object_row(name, declared, flag)->Object_0;
    json::lemma_member_at_is(members, "name"@, 0);
    json::lemma_member_at_is(members, "type"@, 1);
    json::lemma_member_at_is(members, "is_in_primary_key"@, 2);
}

/// A column whose type is not read refuses its row by what the type is called.
pub proof fn unread_types_are_refused(name: Seq<char>, declared: Seq<char>, head: Seq<char>)
    requires
        called(declared, head),
        head != "Nullable"@,
        read_type(declared) is None,
    ensures
        column_in(object_row(name, declared, None)) == Err::<FieldView, FailureView>(
            FailureView::UnsupportedColumnType(head),
        ),
{
    reveal_strlit("Nullable");
    reveal_strlit("Nullable(");
    lemma_object_row(name, declared, None);
    lemma_called(declared, head);
    if "Nullable("@.is_prefix_of(declared) {
        assert(declared.take(9) =~= "Nullable("@);
        assert(declared.take(9)[8] == declared[8]);
        if head.len() < 8 {
            assert(declared[head.len() as int] == declared.take(9)[head.len() as int]);
        } else if head.len() > 8 {
            assert(declared.take(head.len() as int) =~= head);
            assert(declared.take(head.len() as int)[8] == head[8]);
            assert(head.contains('('));
        } else {
            assert(declared.take(head.len() as int) =~= head);
            assert forall|i: int| 0 <= i < 8 implies head[i] == "Nullable"@[i] by {
                assert(declared.take(8)[i] == head[i]);
                assert(declared.take(9)[i] == declared[i]);
            }
            assert(head =~= "Nullable"@);
        }
    }
    only_nullable_types_are_unwrapped(declared);
}

// === Reconciling ===

/// Whether the columns have one of this name.
pub open spec fn has_column(columns: Seq<FieldView>, name: Seq<char>) -> bool {
    exists|j: int| 0 <= j < columns.len() && (#[trigger] columns[j]).name == name
}

/// The field that is found absent is the first that the table has no column for.
proof fn lemma_first_absent(fields: Seq<FieldView>, existing: Seq<FieldView>, n: int)
    requires
        0 <= n <= fields.len(),
        forall|i: int| 0 <= i < n ==> has_column(existing, (#[trigger] fields[i]).name),
        n < fields.len() ==> !has_column(existing, fields[n].name),
    ensures
        n == fields.len() ==> first_absent(fields, existing) is None,
        n < fields.len() ==> first_absent(fields, existing) == Some(fields[n].name),
    decreases fields.len(),
{
    if fields.len() > 0 {
        schema::lemma_field_at(existing, fields[0].name);
        let at = schema::field_at(existing, fields[0].name) as int;
        if n > 0 {
            let rest = fields.drop_first();
            assert(has_column(existing, fields[0].name));
            assert forall|i: int| 0 <= i < n - 1 implies has_column(
                existing,
                (#[trigger] rest[i]).name,
            ) by {
                assert(rest[i] == fields[i + 1]);
            }
            lemma_first_absent(rest, existing, n - 1);
        } else if at < existing.len() {
            assert(existing[at].name == fields[0].name);
        }
    }
}

/// A table without columns is created with all fields. One with columns is left as it is where it
/// has a column for each field; else the first field that it has none for refuses it by name.
pub proof fn tables_are_reconciled(
    table: Seq<char>,
    fields: Seq<FieldView>,
    existing: Seq<FieldView>,
    n: int,
)
    requires
        0 <= n <= fields.len(),
        forall|i: int| 0 <= i < n ==> has_column(existing, (#[trigger] fields[i]).name),
        n < fields.len() ==> !has_column(existing, fields[n].name),
    ensures
        existing.len() == 0 ==> reconciled(table, fields, existing) == Ok::<
            Option<Seq<char>>,
            Seq<char>,
        >(Some(create_text(table, fields))),
        existing.len() > 0 && n == fields.len() ==> reconciled(table, fields, existing) == Ok::<
            Option<Seq<char>>,
            Seq<char>,
        >(None),
        existing.len() > 0 && n < fields.len() ==> reconciled(table, fields, existing) == Err::<
            Option<Seq<char>>,
            Seq<char>,
        >(
            "column `"@ + fields[n].name + "` not present in existing table `"@ + table + "`"@,
        ),
{
    lemma_first_absent(fields, existing, n);
}

// === Storing ===

/// A row is stored with a value for each column, in order: what the row has of it, null where it
/// has nothing; as text where the column is nested and the value is not null.
pub proof fn rows_are_stored_by_column(fields: Seq<FieldView>, row: JsonView, i: int)
    requires
        0 <= i < fields.len(),
    ensures
        stored_row(fields, row) is Object,
        ({
            let members = stored_row(fields, row)->Object_0;
            let field = fields[i];
            let value = row.member(field.name);
            let nested = field.data_type is Json || field.data_type is List || field.data_type
                is Struct;
            &&& members.len() == fields.len()
            &&& members[i].0 == field.name
            &&& value is None ==> members[i].1 is Null
            &&& value is Some && (!nested || value->0 is Null) ==> members[i].1 == value->0
            &&& value is Some && nested && !(value->0 is Null) ==> members[i].1 == JsonView::Str(
                json::json_rendered(value->0),
            )
        }),
{
}


// === Refusals ===

/// What is not what was expected is called by its kind, a scalar with its value.
pub proof fn values_are_called_by_kind(
    n: u64,
    v: i64,
    text: Seq<char>,
    items: Seq<JsonView>,
    members: Seq<(Seq<char>, JsonView)>,
)
    ensures
        unexpected(JsonView::Null) == "null"@,
        unexpected(JsonView::Bool(true)) == "boolean `true`"@,
        unexpected(JsonView::Bool(false)) == "boolean `false`"@,
        unexpected(JsonView::Number(NumberView::PosInt(n))) == "integer `"@ + text::decimal(
            n as nat,
        ) + "`"@,
        v < 0 ==> unexpected(JsonView::Number(NumberView::NegInt(v))) == "integer `"@ + (seq!['-']
            + text::decimal((-v) as nat)) + "`"@,
        unexpected(JsonView::Number(NumberView::Float(text))) == "floating point `"@ + text + "`"@,
        unexpected(JsonView::Str(text)) == "string "@ + text::debug_quoted(text),
        unexpected(JsonView::Array(items)) == "sequence"@,
        unexpected(JsonView::Object(members)) == "map"@,
{
}

/// A row of a column listing without a name or without a type is refused for what it lacks, and
/// one whose name or type is no text for what it has in its place.
pub proof fn incomplete_rows_are_refused(row: JsonView, value: JsonView)
    requires
        !(value is Str),
    ensures
        row is Object && row.member("name"@) is None && row.member("type"@) is None ==> listed(row)
            == Err::<super::Listed, Seq<char>>("missing field `name`"@),
        row is Object && row.member("name"@) is None && row.member("type"@) is Some && row.member(
            "type"@,
        )->0 is Str ==> listed(row) == Err::<super::Listed, Seq<char>>("missing field `name`"@),
        row is Object && row.member("name"@) is Some && row.member("name"@)->0 is Str
            && row.member("type"@) is None ==> listed(row) == Err::<super::Listed, Seq<char>>(
            "missing field `type`"@,
        ),
        row is Object && row.member("name"@) == Some(value) ==> listed(row) == Err::<
            super::Listed,
            Seq<char>,
        >("invalid type: "@ + unexpected(value) + ", expected a string"@),
        row is Object && row.member("name"@) is Some && row.member("name"@)->0 is Str
            && row.member("type"@) == Some(value) ==> listed(row) == Err::<
            super::Listed,
            Seq<char>,
        >("invalid type: "@ + unexpected(value) + ", expected a string"@),
        !(row is Object) && !(row is Array) ==> listed(row) == Err::<super::Listed, Seq<char>>(
            "invalid type: "@ + unexpected(row) + ", expected struct RawColumn"@,
        ),
        row is Array && (row->Array_0.len() < 2 || row->Array_0.len() > 3) ==> listed(row) is Err,
{
}

/// A row that cannot be read fails in the decoding of its column, for its own reason; a table
/// without columns is not found, and one with columns has just those.
pub proof fn tables_without_columns_are_not_found(
    row: JsonView,
    table: Seq<char>,
    columns: Seq<FieldView>,
)
    ensures
        listed(row) is Err ==> column_in(row) == Err::<FieldView, FailureView>(
            FailureView::Within("decoding column row"@, listed(row)->Err_0),
        ),
        columns.len() == 0 ==> schema_of(table, columns) == Err::<Seq<FieldView>, FailureView>(
            FailureView::TableNotFound(table),
        ),
        columns.len() > 0 ==> schema_of(table, columns) == Ok::<Seq<FieldView>, FailureView>(
            columns,
        ),
{
}

} // verus!
