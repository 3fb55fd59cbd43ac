//! Reading only some of a table's columns.

use vstd::prelude::*;
use vstd::string::*;

use crate::error::{self, Failure};
use crate::json::{self, Json, JsonView, Member};
use crate::schema::{self, Field, FieldView, Schema};
use crate::text;

verus! {

// === Models ===

/// The names that are not empty once trimmed, trimmed.
pub open spec fn trimmed_names(names: Seq<Seq<char>>) -> Seq<Seq<char>>
    decreases names.len(),
{
    if names.len() == 0 {
        Seq::empty()
    } else {
        let before = trimmed_names(names.drop_last());
        let name = text::trimmed(names.last());
        if name.len() == 0 {
            before
        } else {
            before.push(name)
        }
    }
}

/// The columns that a `fields` param names, between its commas; none where it names none.
pub open spec fn projection(fields: Option<Seq<char>>) -> Option<Seq<Seq<char>>> {
    match fields {
        None => None,
        Some(list) => {
            let columns = trimmed_names(text::split_at(list, ','));
            if columns.len() == 0 {
                None
            } else {
                Some(columns)
            }
        },
    }
}

/// The fields that the columns name, in schema order.
pub open spec fn selected(fields: Seq<FieldView>, columns: Seq<Seq<char>>) -> Seq<FieldView>
    decreases fields.len(),
{
    if fields.len() == 0 {
        Seq::empty()
    } else {
        let before = selected(fields.drop_last(), columns);
        if columns.contains(fields.last().name) {
            before.push(fields.last())
        } else {
            before
        }
    }
}

/// The first column that names no field.
pub open spec fn first_unknown(columns: Seq<Seq<char>>, fields: Seq<FieldView>) -> Option<Seq<char>>
    decreases columns.len(),
{
    if columns.len() == 0 {
        None
    } else {
        match first_unknown(columns.drop_last(), fields) {
            Some(column) => Some(column),
            None => if schema::names(fields).contains(columns.last()) {
                None
            } else {
                Some(columns.last())
            },
        }
    }
}

/// The schema of a projected read, or the message that refuses an unknown column.
pub open spec fn projected_schema(
    fields: Seq<FieldView>,
    projection: Option<Seq<Seq<char>>>,
) -> Result<Seq<FieldView>, Seq<char>> {
    match projection {
        None => Ok(fields),
        Some(columns) => match first_unknown(columns, fields) {
            Some(column) => Err("unknown projected column `"@ + column + "`"@),
            None => Ok(selected(fields, columns)),
        },
    }
}

/// The members that the names name, in order.
pub open spec fn kept(members: Seq<(Seq<char>, JsonView)>, names: Seq<Seq<char>>) -> Seq<
    (Seq<char>, JsonView),
>
    decreases members.len(),
{
    if members.len() == 0 {
        Seq::empty()
    } else {
        let before = kept(members.drop_last(), names);
        if names.contains(members.last().0) {
            before.push(members.last())
        } else {
            before
        }
    }
}

/// A row with only the named members. What is no object stays as it is.
pub open spec fn projected_row(row: JsonView, names: Seq<Seq<char>>) -> JsonView {
    match row {
        JsonView::Object(members) => JsonView::Object(kept(members, names)),
        _ => row,
    }
}

// === Laws ===

/// A projected schema keeps the order of the schema, holds no field twice that the schema
/// holds once, and holds exactly the fields that were asked for.
pub proof fn projection_keeps_order(fields: Seq<FieldView>, columns: Seq<Seq<char>>)
    ensures
        forall|field: FieldView|
            #[trigger] selected(fields, columns).contains(field) <==> fields.contains(field)
                && columns.contains(field.name),
        exists|places: Seq<int>| is_selection(selected(fields, columns), fields, places),
    decreases fields.len(),
{
    if fields.len() == 0 {
        assert(is_selection(selected(fields, columns), fields, Seq::<int>::empty()));
    } else {
        let fewer = fields.drop_last();
        let last = fields.last();
        projection_keeps_order(fewer, columns);
        let before = selected(fewer, columns);
        let all = selected(fields, columns);
        let places = choose|places: Seq<int>| is_selection(before, fewer, places);
        assert forall|field: FieldView|
            #[trigger] all.contains(field) <==> fields.contains(field) && columns.contains(
                field.name,
            ) by {
            assert(fields =~= fewer.push(last));
            if all.contains(field) {
                let i = choose|i: int| 0 <= i < all.len() && all[i] == field;
                if i < before.len() {
                    assert(before[i] == field);
                    assert(before.contains(field));
                    let j = choose|j: int| 0 <= j < fewer.len() && fewer[j] == field;
                    assert(fields[j] == field);
                } else {
                    assert(fields[fields.len() - 1] == field);
                }
            }
            if fields.contains(field) && columns.contains(field.name) {
                let j = choose|j: int| 0 <= j < fields.len() && fields[j] == field;
                if j < fewer.len() {
                    assert(fewer[j] == field);
                    assert(before.contains(field));
                    let i = choose|i: int| 0 <= i < before.len() && before[i] == field;
                    assert(all[i] == field);
                } else {
                    assert(all[all.len() - 1] == field);
                }
            }
        }
        if columns.contains(last.name) {
            let next = places.push(fields.len() - 1);
            assert(is_selection(all, fields, next)) by {
                assert forall|i: int| 0 <= i < next.len() implies 0 <= #[trigger] next[i]
                    < fields.len() && all[i] == fields[next[i]] by {
                    if i < places.len() {
                        assert(next[i] == places[i]);
                        assert(before[i] == fewer[places[i]]);
                    }
                }
                assert forall|i: int, j: int| 0 <= i < j < next.len() implies #[trigger] next[i]
                    < #[trigger] next[j] by {
                    assert(next[i] == places[i]);
                    if j < places.len() {
                        assert(next[j] == places[j]);
                    }
                }
            }
        } else {
            assert(is_selection(all, fields, places)) by {
                assert forall|i: int| 0 <= i < places.len() implies 0 <= #[trigger] places[i]
                    < fields.len() && all[i] == fields[places[i]] by {
                    assert(before[i] == fewer[places[i]]);
                }
            }
        }
    }
}

/// Whether `part` is what stands at `places` in `whole`, places in increasing order.
pub open spec fn is_selection<T>(part: Seq<T>, whole: Seq<T>, places: Seq<int>) -> bool {
    &&& places.len() == part.len()
    &&& forall|i: int|
        0 <= i < places.len() ==> 0 <= #[trigger] places[i] < whole.len() && part[i]
            == whole[places[i]]
    &&& forall|i: int, j: int|
        0 <= i < j < places.len() ==> #[trigger] places[i] < #[trigger] places[j]
}

/// A row that was projected once is not changed by projecting it again.
pub proof fn projecting_twice_changes_nothing(row: JsonView, names: Seq<Seq<char>>)
    ensures
        projected_row(projected_row(row, names), names) == projected_row(row, names),
{
    match row {
        JsonView::Object(members) => lemma_kept_twice(members, names),
        _ => {},
    }
}

/// What was kept is kept again.
proof fn lemma_kept_twice(members: Seq<(Seq<char>, JsonView)>, names: Seq<Seq<char>>)
    ensures
        kept(kept(members, names), names) == kept(members, names),
    decreases members.len(),
{
    if members.len() > 0 {
        lemma_kept_twice(members.drop_last(), names);
        let before = kept(members.drop_last(), names);
        assert(before.push(members.last()).drop_last() =~= before);
    }
}

// === Code ===

/// Whether `names` has `name`.
pub fn has_name(names: &Vec<String>, name: &str) -> (r: bool)
    ensures
        r == names.deep_view().contains(name@),
{
    let mut i: usize = 0;
    while i < names.len()
        invariant
            i <= names.len(),
            forall|j: int| 0 <= j < i ==> #[trigger] names.deep_view()[j] != name@,
        decreases names.len() - i,
    {
        assert(names.deep_view()[i as int] == names@[i as int]@);
        if text::same(names[i].as_str(), name) {
            return true;
        }
        i = i + 1;
    }
    false
}

/// The columns that a `fields` param names.
pub fn get_projection(fields: Option<&str>) -> (r: Option<Vec<String>>)
    ensures
        r.deep_view() == projection(
            match fields {
                Some(list) => Some(list@),
                None => None,
            },
        ),
{
    match fields {
        None => None,
        Some(list) => {
            let pieces = text::split(list, ',');
            let ghost all = pieces.deep_view();
            let mut columns: Vec<String> = Vec::new();
            let mut i: usize = 0;
            assert(columns.deep_view() =~= trimmed_names(all.take(0)));
            while i < pieces.len()
                invariant
                    i <= pieces.len(),
                    all == pieces.deep_view(),
                    columns.deep_view() == trimmed_names(all.take(i as int)),
                decreases pieces.len() - i,
            {
                let ghost before = columns.deep_view();
                assert(all.take(i + 1).drop_last() =~= all.take(i as int));
                assert(all[i as int] == pieces@[i as int]@);
                let name = text::trim(pieces[i].as_str());
                if !name.as_str().is_empty() {
                    columns.push(name);
                    assert(columns.deep_view() =~= before.push(name@));
                }
                i = i + 1;
            }
            assert(all.take(i as int) =~= all);
            assert(columns.deep_view().len() == columns.len());
            if columns.len() == 0 {
                None
            } else {
                Some(columns)
            }
        },
    }
}

/// An unknown column stays the first when more columns follow.
proof fn lemma_first_unknown(columns: Seq<Seq<char>>, fields: Seq<FieldView>, n: int)
    requires
        0 <= n <= columns.len(),
        first_unknown(columns.take(n), fields) is Some,
    ensures
        first_unknown(columns, fields) == first_unknown(columns.take(n), fields),
    decreases columns.len() - n,
{
    if n == columns.len() {
        assert(columns.take(n) =~= columns);
    } else {
        assert(columns.take(n + 1).drop_last() =~= columns.take(n));
        lemma_first_unknown(columns, fields, n + 1);
    }
}

/// Narrows `schema` to the projected columns, in schema order. An unknown column is
/// refused; without a projection the schema stays whole.
pub fn project_schema(schema: &Schema, projection: Option<&Vec<String>>) -> (r: Result<
    Schema,
    Failure,
>)
    ensures
        error::gives(
            r,
            projected_schema(
                schema@,
                match projection {
                    Some(columns) => Some(columns.deep_view()),
                    None => None,
                },
            ),
        ),
{
    let columns = match projection {
        None => {
            return Ok(schema.clone());
        },
        Some(columns) => columns,
    };
    let ghost all = columns.deep_view();
    let mut i: usize = 0;
    while i < columns.len()
        invariant
            i <= columns.len(),
            all == columns.deep_view(),
            first_unknown(all.take(i as int), schema@) is None,
            projection == Some(columns),
        decreases columns.len() - i,
    {
        assert(all.take(i + 1).drop_last() =~= all.take(i as int));
        assert(all[i as int] == columns@[i as int]@);
        proof {
            schema::lemma_field_at(schema@, columns@[i as int]@);
        }
        let found = schema.position(columns[i].as_str());
        match found {
            Some(p) => {
                assert(schema::names(schema@)[p as int] == columns@[i as int]@);
            },
            None => {
                proof {
                    assert forall|j: int| 0 <= j < schema::names(schema@).len() implies schema::names(
                        schema@,
                    )[j] != columns@[i as int]@ by {
                        assert(schema@[j].name != columns@[i as int]@);
                    }
                    lemma_first_unknown(all, schema@, i + 1);
                }
                return Err(
                    Failure::Message(
                        text::cat3("unknown projected column `", columns[i].as_str(), "`"),
                    ),
                );
            },
        }
        i = i + 1;
    }
    assert(all.take(i as int) =~= all);
    let mut fields: Vec<Field> = Vec::new();
    let mut k: usize = 0;
    assert(schema::field_views(fields@) =~= selected(schema@.take(0), all));
    while k < schema.fields.len()
        invariant
            k <= schema.fields.len(),
            all == columns.deep_view(),
            schema::field_views(fields@) == selected(schema@.take(k as int), all),
        decreases schema.fields.len() - k,
    {
        let ghost before = schema::field_views(fields@);
        assert(schema@.take(k + 1).drop_last() =~= schema@.take(k as int));
        assert(schema@[k as int] == schema.fields@[k as int]@);
        if has_name(columns, schema.fields[k].name.as_str()) {
            let field = schema.fields[k].clone();
            fields.push(field);
            assert(schema::field_views(fields@) =~= before.push(field@));
        }
        k = k + 1;
    }
    assert(schema@.take(k as int) =~= schema@);
    Ok(Schema::new(fields))
}

/// The names of the fields.
pub fn field_names(schema: &Schema) -> (r: Vec<String>)
    ensures
        r.deep_view() == schema::names(schema@),
{
    let mut names: Vec<String> = Vec::new();
    let mut i: usize = 0;
    while i < schema.fields.len()
        invariant
            i <= schema.fields.len(),
            names.deep_view() == schema::names(schema@).take(i as int),
        decreases schema.fields.len() - i,
    {
        let ghost before = names.deep_view();
        assert(schema@[i as int] == schema.fields@[i as int]@);
        let name = schema.fields[i].name.clone();
        names.push(name);
        assert(names.deep_view() =~= before.push(name@));
        assert(names.deep_view() =~= schema::names(schema@).take(i + 1));
        i = i + 1;
    }
    assert(names.deep_view() =~= schema::names(schema@));
    names
}

/// A row with only the named members.
pub fn project_row(row: &Json, names: &Vec<String>) -> (r: Json)
    ensures
        r@ == projected_row(row@, names.deep_view()),
{
    broadcast use json::lemma_json_view;

    match row {
        Json::Object(members) => {
            let ghost all = json::member_views(members@);
            let ghost keep = names.deep_view();
            let mut left: Vec<Member> = Vec::new();
            let mut i: usize = 0;
            assert(json::member_views(left@) =~= kept(all.take(0), keep));
            while i < members.len()
                invariant
                    i <= members.len(),
                    all == json::member_views(members@),
                    keep == names.deep_view(),
                    json::member_views(left@) == kept(all.take(i as int), keep),
                decreases members.len() - i,
            {
                let ghost before = json::member_views(left@);
                assert(all.take(i + 1).drop_last() =~= all.take(i as int));
                assert(all[i as int] == members@[i as int]@);
                if has_name(names, members[i].key.as_str()) {
                    let member = Member {
                        key: members[i].key.clone(),
                        value: members[i].value.clone(),
                    };
                    left.push(member);
                    assert(json::member_views(left@) =~= before.push(member@));
                }
                i = i + 1;
            }
            assert(all.take(i as int) =~= all);
            Json::Object(left)
        },
        _ => row.clone(),
    }
}

/// Drops every member that the projected `schema` does not have from each row, so that
/// the rows match the narrowed schema. A filter or cursor column that was projected away
/// has done its work by then.
pub fn project_rows(schema: &Schema, rows: &mut Vec<Json>)
    ensures
        json::json_views(final(rows)@) == json::json_views(old(rows)@).map_values(
            |row: JsonView| projected_row(row, schema::names(schema@)),
        ),
{
    let names = field_names(schema);
    let ghost all = json::json_views(rows@);
    let ghost model = all.map_values(
        |row: JsonView| projected_row(row, schema::names(schema@)),
    );
    let mut out: Vec<Json> = Vec::new();
    let mut i: usize = 0;
    while i < rows.len()
        invariant
            i <= rows.len(),
            all == json::json_views(rows@),
            names.deep_view() == schema::names(schema@),
            model == all.map_values(|row: JsonView| projected_row(row, schema::names(schema@))),
            json::json_views(out@) == model.take(i as int),
        decreases rows.len() - i,
    {
        let ghost before = json::json_views(out@);
        assert(all[i as int] == rows@[i as int]@);
        let row = project_row(&rows[i], &names);
        out.push(row);
        assert(json::json_views(out@) =~= before.push(row@));
        assert(json::json_views(out@) =~= model.take(i + 1));
        i = i + 1;
    }
    assert(json::json_views(out@) =~= model);
    *rows = out;
}

// === Laws of a selection ===

/// A projected schema is the fields that the columns name, in the order of the schema.
pub proof fn projections_filter_the_schema(fields: Seq<FieldView>, columns: Seq<Seq<char>>)
    ensures
        selected(fields, columns) == fields.filter(
            |field: FieldView| columns.contains(field.name),
        ),
    decreases fields.len(),
{
    reveal(Seq::filter);
    if fields.len() > 0 {
        projections_filter_the_schema(fields.drop_last(), columns);
    }
}

/// A projected row is the members that are named, in the order of the row, each with its value.
/// What is no object stays as it is.
pub proof fn projections_filter_rows(row: JsonView, names: Seq<Seq<char>>)
    ensures
        match row {
            JsonView::Object(members) => projected_row(row, names) == JsonView::Object(
                members.filter(|member: (Seq<char>, JsonView)| names.contains(member.0)),
            ),
            _ => projected_row(row, names) == row,
        },
{
    match row {
        JsonView::Object(members) => lemma_kept(members, names),
        _ => {},
    }
}

/// What is kept is what is named.
proof fn lemma_kept(members: Seq<(Seq<char>, JsonView)>, names: Seq<Seq<char>>)
    ensures
        kept(members, names) == members.filter(
            |member: (Seq<char>, JsonView)| names.contains(member.0),
        ),
    decreases members.len(),
{
    reveal(Seq::filter);
    if members.len() > 0 {
        lemma_kept(members.drop_last(), names);
    }
}

/// The names that are left of a list are its trimmed names that are not empty, in order.
proof fn lemma_trimmed_names(names: Seq<Seq<char>>)
    ensures
        trimmed_names(names) == names.map_values(|name: Seq<char>| text::trimmed(name)).filter(
            |name: Seq<char>| name.len() > 0,
        ),
    decreases names.len(),
{
    reveal(Seq::filter);
    let trim = |name: Seq<char>| text::trimmed(name);
    if names.len() > 0 {
        let fewer = names.drop_last();
        lemma_trimmed_names(fewer);
        assert(names.map_values(trim).drop_last() =~= fewer.map_values(trim));
    }
}

/// The columns of a `fields` param are what stands between its commas, trimmed and in order,
/// without what is empty then. Without any there is no projection.
pub proof fn projections_name_what_stands_between_commas(list: Seq<char>)
    ensures
        ({
            let columns = text::split_at(list, ',').map_values(
                |name: Seq<char>| text::trimmed(name),
            ).filter(|name: Seq<char>| name.len() > 0);
            projection(Some(list)) == if columns.len() > 0 {
                Some(columns)
            } else {
                None
            }
        }),
        projection(None) is None,
{
    lemma_trimmed_names(text::split_at(list, ','));
}

/// Columns that are written with commas between them are read back, all of them and in order.
pub proof fn written_projections_read_back(columns: Seq<Seq<char>>)
    requires
        columns.len() > 0,
        forall|i: int|
            0 <= i < columns.len() ==> (#[trigger] columns[i]).len() > 0 && !columns[i].contains(
                ',',
            ) && !text::white_space(columns[i][0]) && !text::white_space(columns[i].last()),
    ensures
        projection(Some(text::joined(columns, ","@))) == Some(columns),
{
    reveal_strlit(",");
    assert(","@ =~= seq![',']);
    text::joined_parts_split_back(columns, ',');
    lemma_trimmed_stay(columns);
}

/// Names that need no trimming stay.
proof fn lemma_trimmed_stay(names: Seq<Seq<char>>)
    requires
        forall|i: int|
            0 <= i < names.len() ==> (#[trigger] names[i]).len() > 0 && !text::white_space(
                names[i][0],
            ) && !text::white_space(names[i].last()),
    ensures
        trimmed_names(names) == names,
    decreases names.len(),
{
    if names.len() > 0 {
        let fewer = names.drop_last();
        assert forall|i: int| 0 <= i < fewer.len() implies (#[trigger] fewer[i]).len() > 0
            && !text::white_space(fewer[i][0]) && !text::white_space(fewer[i].last()) by {
            assert(fewer[i] == names[i]);
        }
        lemma_trimmed_stay(fewer);
        let last = names[names.len() - 1];
        text::trimmed_texts_stay(last);
        assert(names =~= fewer.push(last));
    } else {
        assert(names =~= Seq::empty());
    }
}

/// A projection is refused exactly where it names a column that is no field, and by the first
/// such column.
pub proof fn unknown_columns_are_refused(fields: Seq<FieldView>, columns: Seq<Seq<char>>)
    ensures
        match projected_schema(fields, Some(columns)) {
            Ok(shown) => {
                &&& forall|i: int|
                    0 <= i < columns.len() ==> has_field(fields, #[trigger] columns[i])
                &&& shown == fields.filter(|field: FieldView| columns.contains(field.name))
            },
            Err(message) => exists|i: int|
                {
                    &&& 0 <= i < columns.len()
                    &&& message == "unknown projected column `"@ + #[trigger] columns[i] + "`"@
                    &&& !has_field(fields, columns[i])
                    &&& forall|j: int|
                        0 <= j < i ==> has_field(fields, #[trigger] columns[j])
                },
        },
        projected_schema(fields, None) == Ok::<Seq<FieldView>, Seq<char>>(fields),
{
    lemma_unknown(columns, fields);
    projections_filter_the_schema(fields, columns);
}

/// Whether a field has the name.
pub open spec fn has_field(fields: Seq<FieldView>, name: Seq<char>) -> bool {
    exists|i: int| 0 <= i < fields.len() && (#[trigger] fields[i]).name == name
}

/// The first unknown column is the first that no field has the name of.
proof fn lemma_unknown(columns: Seq<Seq<char>>, fields: Seq<FieldView>)
    ensures
        match first_unknown(columns, fields) {
            None => forall|i: int|
                0 <= i < columns.len() ==> has_field(fields, #[trigger] columns[i]),
            Some(column) => exists|i: int|
                {
                    &&& 0 <= i < columns.len()
                    &&& column == #[trigger] columns[i]
                    &&& !has_field(fields, columns[i])
                    &&& forall|j: int|
                        0 <= j < i ==> has_field(fields, #[trigger] columns[j])
                },
        },
    decreases columns.len(),
{
    if columns.len() > 0 {
        let fewer = columns.drop_last();
        lemma_unknown(fewer, fields);
        let n = columns.len() - 1;
        let last = columns[n];
        if schema::names(fields).contains(last) {
            let k = choose|k: int|
                0 <= k < schema::names(fields).len() && schema::names(fields)[k] == last;
            assert(fields[k].name == last);
        }
        if has_field(fields, last) {
            let k = choose|k: int| 0 <= k < fields.len() && (#[trigger] fields[k]).name == last;
            assert(schema::names(fields)[k] == last);
        }
        match first_unknown(fewer, fields) {
            Some(column) => {
                let i = choose|i: int|
                    {
                        &&& 0 <= i < fewer.len()
                        &&& column == #[trigger] fewer[i]
                        &&& !has_field(fields, fewer[i])
                        &&& forall|j: int|
                            0 <= j < i ==> has_field(fields, #[trigger] fewer[j])
                    };
                assert(columns[i] == fewer[i]);
                assert forall|j: int| 0 <= j < i implies has_field(
                    fields,
                    #[trigger] columns[j],
                ) by {
                    assert(has_field(fields, fewer[j]));
                }
            },
            None => {
                assert forall|j: int| 0 <= j < n implies has_field(
                    fields,
                    #[trigger] columns[j],
                ) by {
                    assert(has_field(fields, fewer[j]));
                }
                assert(columns[n] == last);
            },
        }
    }
}

} // verus!
