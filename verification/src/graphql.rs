//! The tables of the mounted providers as a GraphQL schema.
//!
//! Each queryable table becomes a query field that returns its rows. The columns that a
//! query selects, its predicate and its limit become the params of a read.

use vstd::prelude::*;
use vstd::string::*;

use crate::json::{self, Json, JsonView};
use crate::request;
use crate::schema::{DataType, FieldView, Schema, TypeView};
use crate::text;

verus! {

/// The scalar of 64-bit integers, since the `Int` of GraphQL has 32 bits.
pub const LONG: &'static str = "Long";

/// The scalar of nested and opaque values, and of predicates.
pub const JSON: &'static str = "JSON";

/// The GraphQL type of a column.
pub open spec fn scalar_of(data_type: TypeView) -> Seq<char> {
    match data_type {
        TypeView::Bool => "Boolean"@,
        TypeView::Int64 => LONG@,
        TypeView::UInt64 => LONG@,
        TypeView::Float64 => "Float"@,
        TypeView::String => "String"@,
        TypeView::Decimal => "String"@,
        TypeView::Timestamp => "String"@,
        TypeView::Date => "String"@,
        TypeView::Bytes => "String"@,
        TypeView::Json => JSON@,
        TypeView::List(_) => JSON@,
        TypeView::Struct(_) => JSON@,
    }
}

/// The GraphQL type of a column. Temporal values and decimals ride as text.
pub fn type_ref(data_type: &DataType) -> (r: &'static str)
    ensures
        r@ == scalar_of(data_type@),
{
    match data_type {
        DataType::Bool => "Boolean",
        DataType::Int64 | DataType::UInt64 => LONG,
        DataType::Float64 => "Float",
        DataType::String
        | DataType::Decimal
        | DataType::Timestamp
        | DataType::Date
        | DataType::Bytes => "String",
        DataType::Json | DataType::List(_) | DataType::Struct(_) => JSON,
    }
}

/// The fields of the object type of a row: for each column its name and its type.
pub fn row_object(row_schema: &Schema) -> (r: Vec<(String, String)>)
    ensures
        r.deep_view() == row_schema@.map_values(
            |field: FieldView| (field.name, scalar_of(field.data_type)),
        ),
{
    let ghost model = row_schema@.map_values(
        |field: FieldView| (field.name, scalar_of(field.data_type)),
    );
    let mut fields: Vec<(String, String)> = Vec::new();
    let mut i: usize = 0;
    while i < row_schema.fields.len()
        invariant
            i <= row_schema.fields.len(),
            model == row_schema@.map_values(
                |field: FieldView| (field.name, scalar_of(field.data_type)),
            ),
            fields.deep_view() == model.take(i as int),
        decreases row_schema.fields.len() - i,
    {
        let ghost before = fields.deep_view();
        assert(row_schema@[i as int] == row_schema.fields@[i as int]@);
        let field = (
            row_schema.fields[i].name.clone(),
            type_ref(&row_schema.fields[i].data_type).to_string(),
        );
        fields.push(field);
        assert(fields.deep_view() =~= before.push((field.0@, field.1@)));
        assert(fields.deep_view() =~= model.take(i + 1));
        i = i + 1;
    }
    assert(fields.deep_view() =~= model);
    fields
}

/// The value of a column in a row, where it has one that is not null.
pub open spec fn column_value(row: JsonView, key: Seq<char>) -> Option<JsonView> {
    match row.member(key) {
        Some(JsonView::Null) => None,
        found => found,
    }
}

/// The value of a column in a row.
pub fn field_value(row: &Json, key: &str) -> (r: Option<Json>)
    ensures
        match r {
            Some(value) => column_value(row@, key@) == Some(value@),
            None => column_value(row@, key@) is None,
        },
{
    match row.get(key) {
        Some(Json::Null) => None,
        Some(value) => Some(value.clone()),
        None => None,
    }
}

/// The names in the rows of a table listing. Rows without a name are passed over.
pub open spec fn names_in(rows: Seq<JsonView>) -> Seq<Seq<char>>
    decreases rows.len(),
{
    if rows.len() == 0 {
        Seq::empty()
    } else {
        let before = names_in(rows.drop_last());
        match rows.last().member("name"@) {
            Some(JsonView::Str(name)) => before.push(name),
            _ => before,
        }
    }
}

/// The names in the rows of a table listing.
pub fn tables(rows: &Vec<Json>) -> (r: Vec<String>)
    ensures
        r.deep_view() == names_in(json::json_views(rows@)),
{
    let ghost all = json::json_views(rows@);
    let mut names: Vec<String> = Vec::new();
    let mut i: usize = 0;
    assert(all.take(0) =~= Seq::empty());
    assert(names.deep_view() =~= Seq::empty());
    while i < rows.len()
        invariant
            i <= rows.len(),
            all == json::json_views(rows@),
            names.deep_view() == names_in(all.take(i as int)),
        decreases rows.len() - i,
    {
        let ghost before = names.deep_view();
        assert(all.take(i + 1).drop_last() =~= all.take(i as int));
        assert(all[i as int] == rows@[i as int]@);
        let found = match rows[i].get("name") {
            Some(value) => value.as_str(),
            None => None,
        };
        match found {
            Some(name) => {
                names.push(name.to_string());
                assert(names.deep_view() =~= before.push(name@));
            },
            None => {},
        }
        i = i + 1;
    }
    assert(all.take(i as int) =~= all);
    names
}

/// The selected names that are columns: those that do not begin with two underscores.
pub open spec fn columns_in(names: Seq<Seq<char>>) -> Seq<Seq<char>>
    decreases names.len(),
{
    if names.len() == 0 {
        Seq::empty()
    } else {
        let before = columns_in(names.drop_last());
        if "__"@.is_prefix_of(names.last()) {
            before
        } else {
            before.push(names.last())
        }
    }
}

/// The columns that a query selects, without what GraphQL itself answers.
pub fn selected(names: &Vec<String>) -> (r: Vec<String>)
    ensures
        r.deep_view() == columns_in(names.deep_view()),
{
    let ghost all = names.deep_view();
    let mut columns: Vec<String> = Vec::new();
    let mut i: usize = 0;
    assert(all.take(0) =~= Seq::empty());
    assert(columns.deep_view() =~= Seq::empty());
    while i < names.len()
        invariant
            i <= names.len(),
            all == names.deep_view(),
            columns.deep_view() == columns_in(all.take(i as int)),
        decreases names.len() - i,
    {
        let ghost before = columns.deep_view();
        assert(all.take(i + 1).drop_last() =~= all.take(i as int));
        assert(all[i as int] == names@[i as int]@);
        if !text::starts_with(names[i].as_str(), "__") {
            let name = names[i].clone();
            columns.push(name);
            assert(columns.deep_view() =~= before.push(name@));
        }
        i = i + 1;
    }
    assert(all.take(i as int) =~= all);
    columns
}

/// The params of a table read.
pub open spec fn read_params(
    filter: Option<JsonView>,
    fields: Seq<Seq<char>>,
    limit: Option<u64>,
) -> Seq<(Seq<char>, Seq<char>)> {
    let filtered = match filter {
        Some(filter) => seq![("filter"@, json::json_rendered(filter))],
        None => Seq::empty(),
    };
    let projected = if fields.len() > 0 {
        filtered.push(("fields"@, text::joined(fields, ","@)))
    } else {
        filtered
    };
    match limit {
        Some(n) => projected.push(("limit"@, text::decimal(n as nat))),
        None => projected,
    }
}

/// The path of a table read. It has just the params that are asked for, and they are read
/// back from it.
pub fn read_path(
    table: &str,
    filter: Option<&Json>,
    fields: &Vec<String>,
    limit: Option<u64>,
) -> (r: String)
    ensures
        ({
            let params = read_params(
                match filter {
                    Some(filter) => Some(filter@),
                    None => None,
                },
                fields.deep_view(),
                limit,
            );
            &&& r@ == request::with_params("/tables/"@ + table@, params)
            &&& !table@.contains('?') ==> request::base(r@) == "/tables/"@ + table@
                && request::params(r@) == params
        }),
        !table@.contains('?') ==> {
            let read = request::params(r@);
            &&& request::value_of(read, "limit"@) == match limit {
                Some(n) => Some(text::decimal(n as nat)),
                None => None,
            }
            &&& request::value_of(read, "filter"@) == match filter {
                Some(filter) => Some(json::json_rendered(filter@)),
                None => None,
            }
            &&& request::value_of(read, "fields"@) == if fields.len() > 0 {
                Some(text::joined(fields.deep_view(), ","@))
            } else {
                None
            }
        },
{
    let mut params: Vec<(String, String)> = Vec::new();
    assert(params.deep_view() =~= Seq::empty());
    match filter {
        Some(filter) => {
            let pair = ("filter".to_string(), json::render(filter));
            params.push(pair);
            assert(params.deep_view() =~= seq![("filter"@, json::json_rendered(filter@))]);
        },
        None => {},
    }
    assert(fields.len() == fields.deep_view().len());
    if fields.len() > 0 {
        let ghost before = params.deep_view();
        let pair = ("fields".to_string(), text::join(fields, ","));
        params.push(pair);
        assert(params.deep_view() =~= before.push((pair.0@, pair.1@)));
    }
    match limit {
        Some(n) => {
            let ghost before = params.deep_view();
            let pair = ("limit".to_string(), text::decimal_u64(n));
            params.push(pair);
            assert(params.deep_view() =~= before.push((pair.0@, pair.1@)));
        },
        None => {},
    }
    let path = text::cat2("/tables/", table);
    proof {
        arguments_read_back(
            match filter {
                Some(filter) => Some(filter@),
                None => None,
            },
            fields.deep_view(),
            limit,
        );
        reveal_strlit("/tables/");
        if !table@.contains('?') {
            assert forall|i: int| 0 <= i < path@.len() implies path@[i] != '?' by {
                if i >= 8 {
                    assert(path@[i] == table@[i - 8]);
                    assert(table@.contains(table@[i - 8]));
                }
            }
        }
    }
    request::put_params(path, &params)
}

/// Each argument of a query is read back from the path on its own, whatever the others are: the
/// rows from the table, the limit where there is one, the predicate where there is one, and the
/// columns where there are any. The path has no other params.
pub proof fn arguments_read_back(
    filter: Option<JsonView>,
    fields: Seq<Seq<char>>,
    limit: Option<u64>,
)
    ensures
        ({
            let params = read_params(filter, fields, limit);
            &&& request::value_of(params, "limit"@) == match limit {
                Some(n) => Some(text::decimal(n as nat)),
                None => None,
            }
            &&& request::value_of(params, "filter"@) == match filter {
                Some(filter) => Some(json::json_rendered(filter)),
                None => None,
            }
            &&& request::value_of(params, "fields"@) == if fields.len() > 0 {
                Some(text::joined(fields, ","@))
            } else {
                None
            }
            &&& forall|key: Seq<char>|
                key != "limit"@ && key != "filter"@ && key != "fields"@
                    ==> #[trigger] request::value_of(params, key) is None
        }),
{
    reveal_strlit("limit");
    reveal_strlit("filter");
    reveal_strlit("fields");
    assert("limit"@.len() == 5 && "filter"@.len() == 6 && "fields"@.len() == 6);
    assert("filter"@[2] == 'l' && "fields"@[2] == 'e');
    reveal_with_fuel(request::value_of, 4);
    let filtered = match filter {
        Some(filter) => seq![("filter"@, json::json_rendered(filter))],
        None => Seq::empty(),
    };
    let projected = if fields.len() > 0 {
        filtered.push(("fields"@, text::joined(fields, ","@)))
    } else {
        filtered
    };
    assert(filtered.len() > 0 ==> filtered.drop_last() =~= Seq::empty());
    assert(fields.len() > 0 ==> projected.drop_last() =~= filtered);
    assert(limit is Some ==> read_params(filter, fields, limit).drop_last() =~= projected);
}

/// A table that was found: where it is, whether it can be queried, and the schema of its
/// rows, where it could be resolved.
#[derive(Debug)]
pub struct Found {
    pub mount: String,
    pub table: String,
    pub queryable: bool,
    pub row_schema: Option<Schema>,
}

/// A query field: its name, which is also that of its object type, the table it reads, and
/// the fields of its rows.
#[derive(Debug)]
pub struct QueryField {
    pub object_name: String,
    pub mount: String,
    pub table: String,
    pub fields: Vec<(String, String)>,
}

/// The model of a [`QueryField`].
pub struct QueryFieldView {
    pub object_name: Seq<char>,
    pub mount: Seq<char>,
    pub table: Seq<char>,
    pub fields: Seq<(Seq<char>, Seq<char>)>,
}

impl View for QueryField {
    type V = QueryFieldView;

    open spec fn view(&self) -> QueryFieldView {
        QueryFieldView {
            object_name: self.object_name@,
            mount: self.mount@,
            table: self.table@,
            fields: self.fields.deep_view(),
        }
    }
}

/// The models of a list of query fields.
pub open spec fn query_field_views(fields: Seq<QueryField>) -> Seq<QueryFieldView> {
    fields.map_values(|field: QueryField| field@)
}

/// The query field of a table.
pub open spec fn query_field(
    mount: Seq<char>,
    table: Seq<char>,
    columns: Seq<FieldView>,
) -> QueryFieldView {
    QueryFieldView {
        object_name: mount + "_"@ + table,
        mount,
        table,
        fields: columns.map_values(
            |field: FieldView| (field.name, scalar_of(field.data_type)),
        ),
    }
}

/// The query fields of the tables that can be queried and whose rows are known.
pub open spec fn query_fields(found: Seq<Found>) -> Seq<QueryFieldView>
    decreases found.len(),
{
    if found.len() == 0 {
        Seq::empty()
    } else {
        let before = query_fields(found.drop_last());
        let last = found.last();
        if last.queryable && last.row_schema is Some {
            before.push(query_field(last.mount@, last.table@, last.row_schema->0@))
        } else {
            before
        }
    }
}

/// The query fields of the tables that were found: one for each that can be queried and
/// whose rows are known.
pub fn build_schema(found: &Vec<Found>) -> (r: Vec<QueryField>)
    ensures
        query_field_views(r@) == query_fields(found@),
{
    let mut fields: Vec<QueryField> = Vec::new();
    let mut i: usize = 0;
    assert(found@.take(0) =~= Seq::empty());
    assert(query_field_views(fields@) =~= Seq::empty());
    while i < found.len()
        invariant
            i <= found.len(),
            query_field_views(fields@) == query_fields(found@.take(i as int)),
        decreases found.len() - i,
    {
        let ghost before = query_field_views(fields@);
        assert(found@.take(i + 1).drop_last() =~= found@.take(i as int));
        if found[i].queryable {
            match &found[i].row_schema {
                Some(row_schema) => {
                    let field = QueryField {
                        object_name: text::cat3(
                            found[i].mount.as_str(),
                            "_",
                            found[i].table.as_str(),
                        ),
                        mount: found[i].mount.clone(),
                        table: found[i].table.clone(),
                        fields: row_object(row_schema),
                    };
                    fields.push(field);
                    assert(query_field_views(fields@) =~= before.push(field@));
                },
                None => {},
            }
        }
        i = i + 1;
    }
    assert(found@.take(i as int) =~= found@);
    fields
}


// === Laws of the schema ===

/// The scalar of a column tells what it holds: a truth value is a `Boolean`, an integer of
/// either sign a `Long`, a floating-point number a `Float`, what is nested or opaque `JSON`, and
/// all else text.
pub proof fn scalars_tell_what_columns_hold(data_type: TypeView)
    ensures
        scalar_of(data_type) == "Boolean"@ <==> data_type is Bool,
        scalar_of(data_type) == "Long"@ <==> data_type is Int64 || data_type is UInt64,
        scalar_of(data_type) == "Float"@ <==> data_type is Float64,
        scalar_of(data_type) == "JSON"@ <==> data_type is Json || data_type is List || data_type
            is Struct,
        scalar_of(data_type) == "String"@ <==> data_type is String || data_type is Decimal
            || data_type is Timestamp || data_type is Date || data_type is Bytes,
{
    reveal_strlit("Boolean");
    reveal_strlit("Long");
    reveal_strlit("Float");
    reveal_strlit("JSON");
    reveal_strlit("String");
    assert("Boolean"@.len() == 7 && "Float"@.len() == 5 && "String"@.len() == 6);
    assert("Long"@.len() == 4 && "JSON"@.len() == 4);
    assert("Long"@[0] == 'L' && "JSON"@[0] == 'J');
}

/// A column has a value just where its row has a member of its name that is not null, and the
/// value is that member.
pub proof fn nulls_are_no_values(row: JsonView, key: Seq<char>)
    ensures
        column_value(row, key) is Some <==> row.member(key) is Some && !(row.member(key)->0
            is Null),
        column_value(row, key) is Some ==> column_value(row, key) == row.member(key),
{
}

/// Whether a row of a table listing has a name.
pub open spec fn has_name(row: JsonView) -> bool {
    row.member("name"@) is Some && row.member("name"@)->0 is Str
}

/// A table listing gives the name of every row that has one, in order.
pub proof fn listings_give_every_name(rows: Seq<JsonView>)
    ensures
        names_in(rows) == rows.filter(|row: JsonView| has_name(row)).map_values(
            |row: JsonView| row.member("name"@)->0->Str_0,
        ),
    decreases rows.len(),
{
    reveal(Seq::filter);
    let kept = |row: JsonView| has_name(row);
    let name = |row: JsonView| row.member("name"@)->0->Str_0;
    if rows.len() > 0 {
        listings_give_every_name(rows.drop_last());
        let before = rows.drop_last().filter(kept).map_values(name);
        if has_name(rows.last()) {
            assert(rows.filter(kept).map_values(name) =~= before.push(name(rows.last())));
        }
    } else {
        assert(rows.filter(kept).map_values(name) =~= Seq::empty());
    }
}

/// What is selected are columns but for the names that begin with two underscores, in order.
pub proof fn selections_keep_the_columns(names: Seq<Seq<char>>)
    ensures
        columns_in(names) == names.filter(
            |name: Seq<char>| !(name.len() >= 2 && name[0] == '_' && name[1] == '_'),
        ),
    decreases names.len(),
{
    reveal(Seq::filter);
    reveal_strlit("__");
    if names.len() > 0 {
        selections_keep_the_columns(names.drop_last());
        let name = names.last();
        if name.len() >= 2 && name[0] == '_' && name[1] == '_' {
            assert(name.subrange(0, 2) =~= "__"@);
        } else if "__"@.is_prefix_of(name) {
            assert(name.subrange(0, 2)[0] == name[0] && name.subrange(0, 2)[1] == name[1]);
        }
    }
}

/// The schema has a query field for each table that can be queried and whose rows are known, in
/// order, and for no other.
pub proof fn queryable_tables_have_a_field(found: Seq<Found>)
    ensures
        query_fields(found) == found.filter(
            |table: Found| table.queryable && table.row_schema is Some,
        ).map_values(
            |table: Found| query_field(table.mount@, table.table@, table.row_schema->0@),
        ),
    decreases found.len(),
{
    reveal(Seq::filter);
    let kept = |table: Found| table.queryable && table.row_schema is Some;
    let field = |table: Found| query_field(table.mount@, table.table@, table.row_schema->0@);
    if found.len() > 0 {
        queryable_tables_have_a_field(found.drop_last());
        let before = found.drop_last().filter(kept).map_values(field);
        if kept(found.last()) {
            assert(found.filter(kept).map_values(field) =~= before.push(field(found.last())));
        }
    } else {
        assert(found.filter(kept).map_values(field) =~= Seq::empty());
    }
}

/// A query field is named by its mount and its table, reads that table, and has a field for every
/// column, by its name and of its scalar.
pub proof fn query_fields_name_their_table(
    mount: Seq<char>,
    table: Seq<char>,
    columns: Seq<FieldView>,
    i: int,
)
    ensures
        ({
            let field = query_field(mount, table, columns);
            &&& field.object_name == mount + seq!['_'] + table
            &&& field.mount == mount
            &&& field.table == table
            &&& field.fields.len() == columns.len()
            &&& 0 <= i < columns.len() ==> field.fields[i].0 == columns[i].name
                && field.fields[i].1 == scalar_of(columns[i].data_type)
        }),
{
    reveal_strlit("_");
    assert("_"@ =~= seq!['_']);
}

} // verus!
