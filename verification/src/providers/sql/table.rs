//! Reading and writing one table.
//!
//! A table read is planned once, from the table's schema and the params of the request,
//! and then walked page by page. Each page is one fetch by the dialect; what to fetch,
//! what to make of the rows, and whether to go on is decided here.

use vstd::prelude::*;
use vstd::string::*;

use crate::dataset::Disposition;
use crate::error::{self, Failure, FailureView};
use crate::json::{self, Json, JsonView, Member, Number, NumberView};
use crate::page::{self, Cursor, ListStrategy, Page};
use crate::paging;
use crate::record;
use crate::router::{self, EndpointInfo, EndpointView, MetadataView, Method, Router};
use crate::schema::{self, DataType, Field, FieldView, Schema, TypeView};
use crate::text;

use super::filter::{self, Filter, FilterView, Op};
use super::projection;
use super::reading::{self, Literal};

verus! {

/// The page size of a table read where none is asked for.
pub const DEFAULT_LIMIT: u32 = 10;

/// The largest page size of a table read.
pub const MAX_LIMIT: u32 = 1000;

/// The reserved read param that carries a [`Filter`] as JSON.
pub const FILTER_PARAM: &'static str = "filter";

/// The reserved read param that selects columns: a list of field names with commas
/// between them. Without it the whole row is read.
pub const FIELDS_PARAM: &'static str = "fields";

/// A row of the `/tables` listing: the name of a table.
#[derive(Debug)]
pub struct TableName {
    pub name: String,
}

impl View for TableName {
    type V = Seq<char>;

    open spec fn view(&self) -> Seq<char> {
        self.name@
    }
}

/// The outcome of a `put` into a table.
#[derive(Debug)]
pub struct WriteResult {
    pub table: String,
    /// Whether this call created the table.
    pub created: bool,
    pub rows_written: u64,
}

/// The page cursor of a table read. Where `cursor` names a column, the provider orders by
/// it, so that paging is deterministic.
#[derive(Debug)]
pub struct SqlCursor {
    pub offset: u32,
    /// The page size. It comes with each request and is not part of the token.
    pub limit: u32,
    /// The column to order by. It comes with each request and is not part of the token.
    pub cursor: Option<String>,
}

impl Default for SqlCursor {
    fn default() -> (r: Self)
        ensures
            r.offset == 0,
            r.limit == 0,
            r.cursor is None,
    {
        SqlCursor { offset: 0, limit: 0, cursor: None }
    }
}

// === Paging ===

/// Whether a page of `returned` rows came back full, so that another may follow.
pub open spec fn is_full(limit: u32, returned: usize) -> bool {
    limit > 0 && returned as u32 == limit
}

/// Where the next page begins: behind this one, where it came back full.
pub open spec fn next_offset(offset: u32, limit: u32, returned: usize) -> Option<u32> {
    if is_full(limit, returned) {
        Some((offset + limit) as u32)
    } else {
        None
    }
}

/// The pages that a follower of the cursors gets of a table.
pub open spec fn followed_pages<T>(rows: Seq<T>, offset: u32, limit: u32) -> Seq<Seq<T>>
    decreases rows.len() - offset,
{
    let page = paging::window(rows, offset as nat, limit as nat);
    match next_offset(offset, limit, page.len() as usize) {
        Some(next) => if offset < next && offset < rows.len() {
            seq![page] + followed_pages(rows, next, limit)
        } else {
            seq![page]
        },
        None => seq![page],
    }
}

/// Following the cursors of a table read yields every row from the offset on, each once and in
/// order, in pages no longer than the limit.
pub proof fn followed_tables_yield_every_row_once<T>(rows: Seq<T>, offset: u32, limit: u32)
    requires
        limit > 0,
        offset <= rows.len(),
        rows.len() + limit <= u32::MAX,
    ensures
        followed_pages(rows, offset, limit).flatten() == rows.skip(offset as int),
        forall|i: int|
            0 <= i < followed_pages(rows, offset, limit).len() ==> (#[trigger] followed_pages(
                rows,
                offset,
                limit,
            )[i]).len() <= limit,
        forall|i: int|
            0 <= i < followed_pages(rows, offset, limit).len() - 1 ==> (#[trigger] followed_pages(
                rows,
                offset,
                limit,
            )[i]).len() == limit,
    decreases rows.len() - offset,
{
    let page = paging::window(rows, offset as nat, limit as nat);
    let pages = followed_pages(rows, offset, limit);
    assert(page.len() <= limit);
    if page.len() == limit {
        let next = (offset + limit) as u32;
        followed_tables_yield_every_row_once(rows, next, limit);
        let rest = followed_pages(rows, next, limit);
        assert(pages == seq![page] + rest);
        assert(pages.first() == page);
        assert(pages.drop_first() =~= rest);
        assert(page + rest.flatten() =~= rows.skip(offset as int));
        assert forall|i: int| 0 <= i < pages.len() implies (#[trigger] pages[i]).len() <= limit && (i
            < pages.len() - 1 ==> pages[i].len() == limit) by {
            if i > 0 {
                assert(pages[i] == rest[i - 1]);
            }
        }
    } else {
        assert(pages =~= seq![page]);
        pages.lemma_flatten_one_element();
        assert(page =~= rows.skip(offset as int));
    }
}

/// A page of a table has what was asked for, at most 1000 rows, 10 where nothing is said.
pub proof fn page_sizes_are_bounded(asked: Option<u32>)
    ensures
        asked is None ==> read_limit(asked) == 10,
        asked is Some && asked->0 <= 1000 ==> read_limit(asked) == asked->0,
        asked is Some && asked->0 > 1000 ==> read_limit(asked) == 1000,
{
}

/// The cursor for the next page: the offset moves on by the page size, but only while the
/// page came back full. A short page is the tail, and its cursor is empty, which is what a
/// follower stops on.
pub fn next_cursor(cursor: &SqlCursor, returned: usize) -> (r: Result<Cursor, Failure>)
    requires
        is_full(cursor.limit, returned) ==> cursor.offset + cursor.limit <= u32::MAX,
    ensures
        r is Ok,
        r->Ok_0@ == if is_full(cursor.limit, returned) {
            page::cursor_to(page::offset_state((cursor.offset + cursor.limit) as u32))
        } else {
            page::no_cursor()
        },
        page::token_offset(r->Ok_0@.next) == Ok::<u32, Seq<char>>(
            if is_full(cursor.limit, returned) {
                (cursor.offset + cursor.limit) as u32
            } else {
                0
            },
        ),
        r->Ok_0@ == page::cursor_at(next_offset(cursor.offset, cursor.limit, returned)),
        page::token_offset(r->Ok_0@.next) == Ok::<u32, Seq<char>>(
            match next_offset(cursor.offset, cursor.limit, returned) {
                Some(next) => next,
                None => 0,
            },
        ),
{
    if cursor.limit > 0 && returned as u32 == cursor.limit {
        Ok(Cursor::at(cursor.offset + returned as u32))
    } else {
        Ok(Cursor::empty())
    }
}

/// The pages of a table read from `offset` on, when every fetch sees the same rows.
pub open spec fn table_walk<T>(rows: Seq<T>, offset: nat, limit: u32) -> Seq<Seq<T>>
    decreases rows.len() - offset,
{
    let page = paging::window(rows, offset, limit as nat);
    if offset < rows.len() && is_full(limit, page.len() as usize) {
        seq![page] + table_walk(rows, offset + limit as nat, limit)
    } else {
        seq![page]
    }
}

/// A table read drains its table: it yields every row from its offset on, each once and in
/// order, in pages that are full up to the last.
pub proof fn table_reads_yield_every_row_once<T>(rows: Seq<T>, offset: nat, limit: u32)
    requires
        limit > 0,
    ensures
        table_walk(rows, offset, limit) == paging::walk(rows, offset, limit as nat),
        table_walk(rows, offset, limit).flatten() == (if offset <= rows.len() {
            rows.skip(offset as int)
        } else {
            Seq::empty()
        }),
    decreases rows.len() - offset,
{
    let page = paging::window(rows, offset, limit as nat);
    assert(page.len() <= limit);
    if offset < rows.len() && page.len() == limit {
        table_reads_yield_every_row_once(rows, offset + limit as nat, limit);
    }
    paging::walk_yields_every_row_once(rows, offset, limit as nat);
}

// === The column to order by ===

/// The first field that carries a `cursor` annotation.
pub open spec fn annotated_cursor(fields: Seq<FieldView>) -> Option<Seq<char>>
    decreases fields.len(),
{
    if fields.len() == 0 {
        None
    } else if fields[0].is_cursor() {
        Some(fields[0].name)
    } else {
        annotated_cursor(fields.drop_first())
    }
}

/// The first field that is named `want`, but for the case of ASCII letters.
pub open spec fn named_like(fields: Seq<FieldView>, want: Seq<char>) -> Option<Seq<char>>
    decreases fields.len(),
{
    if fields.len() == 0 {
        None
    } else if text::same_but_ascii_case(fields[0].name, want) {
        Some(fields[0].name)
    } else {
        named_like(fields.drop_first(), want)
    }
}

/// A conventional cursor column: `created_at`, else `updated_at`.
pub open spec fn conventional_cursor(fields: Seq<FieldView>) -> Option<Seq<char>> {
    match named_like(fields, "created_at"@) {
        Some(name) => Some(name),
        None => named_like(fields, "updated_at"@),
    }
}

/// The column that orders a read: the one annotated, else the one asked for, else a
/// conventional one.
pub open spec fn cursor_column(fields: Seq<FieldView>, asked: Option<Seq<char>>) -> Option<
    Seq<char>,
> {
    match annotated_cursor(fields) {
        Some(name) => Some(name),
        None => match asked {
            Some(name) => Some(name),
            None => conventional_cursor(fields),
        },
    }
}

/// The name of the field that carries a `cursor` annotation.
fn cursor_annotation(schema: &Schema) -> (r: Option<String>)
    ensures
        r.deep_view() == annotated_cursor(schema@),
{
    let mut i: usize = 0;
    assert(schema@.skip(0) =~= schema@);
    while i < schema.fields.len()
        invariant
            i <= schema.fields.len(),
            annotated_cursor(schema@) == annotated_cursor(schema@.skip(i as int)),
        decreases schema.fields.len() - i,
    {
        assert(schema@[i as int] == schema.fields@[i as int]@);
        assert(schema@.skip(i as int).drop_first() =~= schema@.skip(i + 1));
        if schema.fields[i].is_cursor() {
            return Some(schema.fields[i].name.clone());
        }
        i = i + 1;
    }
    None
}

/// The name of the first field that is named `want`, but for the case of ASCII letters.
fn by_name(schema: &Schema, want: &str) -> (r: Option<String>)
    ensures
        r.deep_view() == named_like(schema@, want@),
{
    let mut i: usize = 0;
    assert(schema@.skip(0) =~= schema@);
    while i < schema.fields.len()
        invariant
            i <= schema.fields.len(),
            named_like(schema@, want@) == named_like(schema@.skip(i as int), want@),
        decreases schema.fields.len() - i,
    {
        assert(schema@[i as int] == schema.fields@[i as int]@);
        assert(schema@.skip(i as int).drop_first() =~= schema@.skip(i + 1));
        if text::same_ignoring_ascii_case(schema.fields[i].name.as_str(), want) {
            return Some(schema.fields[i].name.clone());
        }
        i = i + 1;
    }
    None
}

/// A conventional cursor column that the table has: `created_at`, which only grows and so
/// is safe with offsets, else `updated_at`.
fn autodetect_cursor(schema: &Schema) -> (r: Option<String>)
    ensures
        r.deep_view() == conventional_cursor(schema@),
{
    match by_name(schema, "created_at") {
        Some(name) => Some(name),
        None => by_name(schema, "updated_at"),
    }
}

/// The column that orders a read.
pub fn resolve_cursor(asked: Option<&str>, schema: &Schema) -> (r: Option<String>)
    ensures
        r.deep_view() == cursor_column(
            schema@,
            match asked {
                Some(name) => Some(name@),
                None => None,
            },
        ),
{
    match cursor_annotation(schema) {
        Some(name) => Some(name),
        None => match asked {
            Some(name) => Some(name.to_string()),
            None => autodetect_cursor(schema),
        },
    }
}

/// What is looked for among fields.
pub enum Wanted {
    /// A field that is annotated as the cursor.
    Cursor,
    /// A field that is annotated as part of the key.
    Key,
    /// A field of this name, but for the case of ASCII letters.
    Named(Seq<char>),
}

impl Wanted {
    /// Whether a field is what is looked for.
    pub open spec fn met(self, field: FieldView) -> bool {
        match self {
            Wanted::Cursor => says_cursor(field),
            Wanted::Key => says_key(field),
            Wanted::Named(name) => says_name(field, name),
        }
    }
}

/// Whether `i` is the first place whose field is what is looked for.
pub open spec fn is_first(fields: Seq<FieldView>, wanted: Wanted, i: int) -> bool {
    &&& 0 <= i < fields.len()
    &&& wanted.met(fields[i])
    &&& forall|j: int| 0 <= j < i ==> !wanted.met(#[trigger] fields[j])
}

/// Whether a field is annotated as the cursor.
pub open spec fn says_cursor(field: FieldView) -> bool {
    field.annotations.contains_key("cursor"@)
}

/// Whether a field is named `name`, but for the case of ASCII letters.
pub open spec fn says_name(field: FieldView, name: Seq<char>) -> bool {
    &&& field.name.len() == name.len()
    &&& forall|i: int|
        0 <= i < name.len() ==> {
            ||| #[trigger] field.name[i] == name[i]
            ||| 'a' <= name[i] <= 'z' && field.name[i] as int == name[i] as int - 32
        }
}

/// The annotated field is the first that is annotated.
proof fn lemma_annotated(fields: Seq<FieldView>)
    ensures
        match annotated_cursor(fields) {
            Some(name) => exists|i: int|
                #[trigger] is_first(fields, Wanted::Cursor, i) && name
                    == fields[i].name,
            None => forall|i: int|
                0 <= i < fields.len() ==> !says_cursor(#[trigger] fields[i]),
        },
    decreases fields.len(),
{
    let wanted = Wanted::Cursor;
    if fields.len() > 0 {
        let rest = fields.drop_first();
        lemma_annotated(rest);
        if says_cursor(fields[0]) {
            assert(is_first(fields, wanted, 0));
        } else {
            match annotated_cursor(rest) {
                Some(name) => {
                    let i = choose|i: int|
                        #[trigger] is_first(rest, wanted, i) && name == rest[i].name;
                    lemma_first_behind(fields, wanted, i);
                },
                None => {
                    assert forall|i: int| 0 <= i < fields.len() implies !says_cursor(
                        #[trigger] fields[i],
                    ) by {
                        if i > 0 {
                            assert(!says_cursor(rest[i - 1]));
                        }
                    }
                },
            }
        }
    }
}

/// What is first behind a field that is not wanted is first.
proof fn lemma_first_behind(fields: Seq<FieldView>, wanted: Wanted, i: int)
    requires
        fields.len() > 0,
        !wanted.met(fields[0]),
        is_first(fields.drop_first(), wanted, i),
    ensures
        is_first(fields, wanted, i + 1),
{
    let rest = fields.drop_first();
    assert forall|j: int| 0 <= j < i + 1 implies !wanted.met(#[trigger] fields[j]) by {
        if j > 0 {
            assert(!wanted.met(rest[j - 1]));
        }
    }
}

/// Names in lower case agree but for the case of ASCII letters where [`says_name`] says so.
proof fn lemma_says_name(field: FieldView, name: Seq<char>)
    requires
        forall|i: int|
            0 <= i < name.len() ==> 'a' <= #[trigger] name[i] <= 'z' || name[i] == '_',
    ensures
        text::same_but_ascii_case(field.name, name) == says_name(field, name),
{
    if says_name(field, name) {
        assert forall|i: int| 0 <= i < field.name.len() implies text::ascii_lower(
            #[trigger] field.name[i],
        ) == text::ascii_lower(name[i]) by {
            assert('a' <= name[i] <= 'z' || name[i] == '_');
        }
    }
    if text::same_but_ascii_case(field.name, name) {
        assert forall|i: int| 0 <= i < name.len() implies {
            ||| #[trigger] field.name[i] == name[i]
            ||| 'a' <= name[i] <= 'z' && field.name[i] as int == name[i] as int - 32
        } by {
            assert('a' <= name[i] <= 'z' || name[i] == '_');
            let c = field.name[i];
            assert(text::ascii_lower(c) == text::ascii_lower(name[i]));
            assert(text::ascii_lower(name[i]) == name[i]);
            if 65 <= c as int && c as int <= 90 {
                assert(text::ascii_lower(c) as int == c as int + 32);
            }
        }
    }
}

/// The field of a name is the first of that name.
proof fn lemma_named(fields: Seq<FieldView>, name: Seq<char>)
    requires
        forall|i: int|
            0 <= i < name.len() ==> 'a' <= #[trigger] name[i] <= 'z' || name[i] == '_',
    ensures
        match named_like(fields, name) {
            Some(found) => exists|i: int|
                #[trigger] is_first(fields, Wanted::Named(name), i) && found
                    == fields[i].name,
            None => forall|i: int|
                0 <= i < fields.len() ==> !says_name(#[trigger] fields[i], name),
        },
    decreases fields.len(),
{
    let wanted = Wanted::Named(name);
    if fields.len() > 0 {
        let rest = fields.drop_first();
        lemma_named(rest, name);
        lemma_says_name(fields[0], name);
        if says_name(fields[0], name) {
            assert(is_first(fields, wanted, 0));
        } else {
            match named_like(rest, name) {
                Some(found) => {
                    let i = choose|i: int|
                        #[trigger] is_first(rest, wanted, i) && found == rest[i].name;
                    lemma_first_behind(fields, wanted, i);
                },
                None => {
                    assert forall|i: int| 0 <= i < fields.len() implies !says_name(
                        #[trigger] fields[i],
                        name,
                    ) by {
                        if i > 0 {
                            assert(!says_name(rest[i - 1], name));
                        }
                    }
                },
            }
        }
    }
}

/// A read is ordered by the first field that is annotated as the cursor, whatever was asked
/// for. Without one it is ordered by the column that was asked for. Without that it is ordered
/// by the first field named `created_at`, which only grows, whatever other fields there are; by
/// the first field named `updated_at` only where no field is named `created_at`; and by nothing
/// only where neither is there.
pub proof fn reads_are_ordered_by_their_cursor(fields: Seq<FieldView>, asked: Option<Seq<char>>)
    ensures
        ({
            let column = cursor_column(fields, asked);
            let annotated = exists|i: int|
                0 <= i < fields.len() && says_cursor(#[trigger] fields[i]);
            let created = exists|i: int|
                0 <= i < fields.len() && says_name(#[trigger] fields[i], "created_at"@);
            let updated = exists|i: int|
                0 <= i < fields.len() && says_name(#[trigger] fields[i], "updated_at"@);
            &&& annotated ==> exists|i: int|
                #[trigger] is_first(fields, Wanted::Cursor, i) && column == Some(
                    fields[i].name,
                )
            &&& !annotated && asked is Some ==> column == asked
            &&& !annotated && asked is None && created ==> exists|i: int|
                #[trigger] is_first(fields, Wanted::Named("created_at"@), i)
                    && column == Some(fields[i].name)
            &&& !annotated && asked is None && !created && updated ==> exists|i: int|
                #[trigger] is_first(fields, Wanted::Named("updated_at"@), i)
                    && column == Some(fields[i].name)
            &&& !annotated && asked is None && !created && !updated ==> column is None
        }),
{
    reveal_strlit("created_at");
    reveal_strlit("updated_at");
    lemma_annotated(fields);
    lemma_named(fields, "created_at"@);
    lemma_named(fields, "updated_at"@);
}

// === Annotations ===

/// A field with the notes of the first annotated field of its name, over its own.
pub open spec fn enriched_field(field: FieldView, annotated: Seq<FieldView>) -> FieldView {
    let i = schema::field_at(annotated, field.name) as int;
    if i < annotated.len() {
        FieldView {
            annotations: field.annotations.union_prefer_right(annotated[i].annotations),
            ..field
        }
    } else {
        field
    }
}

/// The fields with the notes of the annotated schema.
pub open spec fn enriched(fields: Seq<FieldView>, annotated: Option<Seq<FieldView>>) -> Seq<
    FieldView,
> {
    match annotated {
        None => fields,
        Some(annotated) => fields.map_values(|field: FieldView| enriched_field(field, annotated)),
    }
}

/// A field with the notes of the first annotated field of its name, over its own.
fn enrich_field(field: &Field, annotated: &Schema) -> (r: Field)
    ensures
        r@ == enriched_field(field@, annotated@),
{
    let mut out = field.clone();
    match annotated.position(field.name.as_str()) {
        None => out,
        Some(p) => {
            assert(annotated@[p as int] == annotated.fields@[p as int]@);
            let source = &annotated.fields[p].annotations;
            let ghost all = source.entries.deep_view();
            let ghost own = field@.annotations;
            let mut i: usize = 0;
            assert(all.take(0) =~= Seq::empty());
            assert(own.union_prefer_right(schema::notes(all.take(0))) =~= own);
            while i < source.entries.len()
                invariant
                    i <= source.entries.len(),
                    all == source.entries.deep_view(),
                    out@ == (FieldView {
                        annotations: own.union_prefer_right(schema::notes(all.take(i as int))),
                        ..field@
                    }),
                decreases source.entries.len() - i,
            {
                assert(all.take(i + 1).drop_last() =~= all.take(i as int));
                assert(all[i as int] == (
                    source.entries@[i as int].0@,
                    source.entries@[i as int].1@,
                ));
                out.annotate(source.entries[i].0.as_str(), source.entries[i].1.as_str());
                assert(own.union_prefer_right(schema::notes(all.take(i + 1)))
                    =~= own.union_prefer_right(schema::notes(all.take(i as int))).insert(
                    all[i as int].0,
                    all[i as int].1,
                ));
                i = i + 1;
            }
            assert(all.take(i as int) =~= all);
            out
        },
    }
}

/// The schema with the notes of the annotated schema, which is what is known of the
/// endpoint beside its table.
pub fn enrich(schema: Schema, annotated: Option<&Schema>) -> (r: Schema)
    ensures
        r@ == enriched(
            schema@,
            match annotated {
                Some(annotated) => Some(annotated@),
                None => None,
            },
        ),
{
    match annotated {
        None => schema,
        Some(annotated) => {
            let ghost model = schema@.map_values(
                |field: FieldView| enriched_field(field, annotated@),
            );
            let mut fields: Vec<Field> = Vec::new();
            let mut i: usize = 0;
            while i < schema.fields.len()
                invariant
                    i <= schema.fields.len(),
                    model == schema@.map_values(
                        |field: FieldView| enriched_field(field, annotated@),
                    ),
                    schema::field_views(fields@) == model.take(i as int),
                decreases schema.fields.len() - i,
            {
                let ghost before = schema::field_views(fields@);
                assert(schema@[i as int] == schema.fields@[i as int]@);
                let field = enrich_field(&schema.fields[i], annotated);
                fields.push(field);
                assert(schema::field_views(fields@) =~= before.push(field@));
                assert(schema::field_views(fields@) =~= model.take(i + 1));
                i = i + 1;
            }
            assert(schema::field_views(fields@) =~= model);
            Schema::new(fields)
        },
    }
}

// === Temporal text ===

/// The kinds of column whose text has a canonical form.
#[derive(Debug, Clone, Copy, PartialEq, Eq, Structural)]
pub enum Temporal {
    Timestamp,
    Date,
}

/// The kind of a data type, where it is temporal.
pub open spec fn temporal(data_type: TypeView) -> Option<Temporal> {
    match data_type {
        TypeView::Timestamp => Some(Temporal::Timestamp),
        TypeView::Date => Some(Temporal::Date),
        _ => None,
    }
}

/// The kinds of the temporal columns that `name` names, in their order.
pub open spec fn temporal_columns(fields: Seq<FieldView>, name: Seq<char>) -> Seq<Temporal>
    decreases fields.len(),
{
    if fields.len() == 0 {
        Seq::empty()
    } else {
        let before = temporal_columns(fields.drop_last(), name);
        match temporal(fields.last().data_type) {
            Some(kind) => if fields.last().name == name {
                before.push(kind)
            } else {
                before
            },
            None => before,
        }
    }
}

/// Whether `after` is `before` in canonical form: the form that `canonical` gave for its
/// text, or the value itself where it gave none or the value is no text.
pub open spec fn is_canonical<F: Fn(Temporal, &str) -> Option<String>>(
    canonical: F,
    kind: Temporal,
    before: JsonView,
    after: JsonView,
) -> bool {
    match before {
        JsonView::Str(text) => exists|asked: &str, given: Option<String>|
            asked@ == text && #[trigger] call_ensures(canonical, (kind, asked), given) && after
                == match given {
                Some(form) => JsonView::Str(form@),
                None => before,
            },
        _ => after == before,
    }
}

/// Whether `after` is `before` in the canonical form of one kind after the other.
pub open spec fn is_canonical_by<F: Fn(Temporal, &str) -> Option<String>>(
    canonical: F,
    kinds: Seq<Temporal>,
    before: JsonView,
    after: JsonView,
) -> bool
    decreases kinds.len(),
{
    if kinds.len() == 0 {
        after == before
    } else {
        exists|between: JsonView|
            is_canonical_by(canonical, kinds.drop_last(), before, between)
                && #[trigger] is_canonical(canonical, kinds.last(), between, after)
    }
}

/// Whether the row `after` is the row `before` with its temporal columns in canonical form.
pub open spec fn is_canonical_row<F: Fn(Temporal, &str) -> Option<String>>(
    canonical: F,
    fields: Seq<FieldView>,
    before: JsonView,
    after: JsonView,
) -> bool {
    match before {
        JsonView::Object(members) => {
            &&& after is Object
            &&& after->Object_0.len() == members.len()
            &&& forall|i: int|
                0 <= i < members.len() ==> {
                    &&& (#[trigger] after->Object_0[i]).0 == members[i].0
                    &&& is_canonical_by(
                        canonical,
                        temporal_columns(fields, members[i].0),
                        members[i].1,
                        after->Object_0[i].1,
                    )
                }
        },
        _ => after == before,
    }
}

/// The kind of a data type, where it is temporal.
fn temporal_kind(data_type: &DataType) -> (r: Option<Temporal>)
    ensures
        r == temporal(data_type@),
{
    match data_type {
        DataType::Timestamp => Some(Temporal::Timestamp),
        DataType::Date => Some(Temporal::Date),
        _ => None,
    }
}

/// A value of the columns that `name` names, in the canonical form of each of them.
fn normalize_value<F: Fn(Temporal, &str) -> Option<String>>(
    schema: &Schema,
    name: &str,
    value: &Json,
    canonical: &F,
) -> (r: Json)
    requires
        forall|kind: Temporal, text: &str| #[trigger] call_requires(*canonical, (kind, text)),
    ensures
        is_canonical_by(*canonical, temporal_columns(schema@, name@), value@, r@),
{
    let mut r = value.clone();
    let mut i: usize = 0;
    assert(schema@.take(0) =~= Seq::empty());
    while i < schema.fields.len()
        invariant
            i <= schema.fields.len(),
            forall|kind: Temporal, text: &str| #[trigger] call_requires(*canonical, (kind, text)),
            is_canonical_by(
                *canonical,
                temporal_columns(schema@.take(i as int), name@),
                value@,
                r@,
            ),
        decreases schema.fields.len() - i,
    {
        assert(schema@.take(i + 1).drop_last() =~= schema@.take(i as int));
        assert(schema@[i as int] == schema.fields@[i as int]@);
        if text::same(schema.fields[i].name.as_str(), name) {
            match temporal_kind(&schema.fields[i].data_type) {
                Some(kind) => {
                    let ghost between = r@;
                    let ghost kinds = temporal_columns(schema@.take(i as int), name@);
                    let given = match &r {
                        Json::Str(text) => {
                            let asked = text.as_str();
                            let given = canonical(kind, asked);
                            assert(call_ensures(*canonical, (kind, asked), given));
                            given
                        },
                        _ => None,
                    };
                    match given {
                        Some(form) => {
                            r = Json::Str(form);
                        },
                        None => {},
                    }
                    assert(kinds.push(kind).drop_last() =~= kinds);
                    assert(is_canonical(*canonical, kinds.push(kind).last(), between, r@));
                },
                None => {},
            }
        }
        i = i + 1;
    }
    assert(schema@.take(i as int) =~= schema@);
    r
}

/// A row with its temporal columns in canonical form.
fn normalize_row<F: Fn(Temporal, &str) -> Option<String>>(
    schema: &Schema,
    row: &Json,
    canonical: &F,
) -> (r: Json)
    requires
        forall|kind: Temporal, text: &str| #[trigger] call_requires(*canonical, (kind, text)),
    ensures
        is_canonical_row(*canonical, schema@, row@, r@),
{
    broadcast use json::lemma_json_view;

    match row {
        Json::Object(members) => {
            let ghost all = json::member_views(members@);
            let mut left: Vec<Member> = Vec::new();
            let mut k: usize = 0;
            while k < members.len()
                invariant
                    k <= members.len(),
                    left.len() == k,
                    all == json::member_views(members@),
                    forall|kind: Temporal, text: &str|
                        #[trigger] call_requires(*canonical, (kind, text)),
                    forall|j: int|
                        0 <= j < k ==> {
                            &&& (#[trigger] json::member_views(left@)[j]).0 == all[j].0
                            &&& is_canonical_by(
                                *canonical,
                                temporal_columns(schema@, all[j].0),
                                all[j].1,
                                json::member_views(left@)[j].1,
                            )
                        },
                decreases members.len() - k,
            {
                let ghost before = json::member_views(left@);
                assert(all[k as int] == members@[k as int]@);
                let value = normalize_value(
                    schema,
                    members[k].key.as_str(),
                    &members[k].value,
                    canonical,
                );
                let member = Member { key: members[k].key.clone(), value };
                left.push(member);
                assert(json::member_views(left@) =~= before.push(member@));
                k = k + 1;
            }
            let out = Json::Object(left);
            assert(out@ == JsonView::Object(json::member_views(left@)));
            out
        },
        other => other.clone(),
    }
}

/// Rewrites the text in `Timestamp` and `Date` columns in its canonical form, which is the
/// only one that encodes into Arrow. Engines write these values differently; `canonical`
/// reads what an engine wrote and gives its canonical form, where it has one.
pub fn normalize_temporals<F: Fn(Temporal, &str) -> Option<String>>(
    schema: &Schema,
    rows: &mut Vec<Json>,
    canonical: &F,
)
    requires
        forall|kind: Temporal, text: &str| #[trigger] call_requires(*canonical, (kind, text)),
    ensures
        final(rows).len() == old(rows).len(),
        forall|i: int|
            0 <= i < old(rows).len() ==> is_canonical_row(
                *canonical,
                schema@,
                old(rows)@[i]@,
                (#[trigger] final(rows)@[i])@,
            ),
{
    let mut out: Vec<Json> = Vec::new();
    let mut i: usize = 0;
    while i < rows.len()
        invariant
            i <= rows.len(),
            out.len() == i,
            forall|kind: Temporal, text: &str| #[trigger] call_requires(*canonical, (kind, text)),
            forall|j: int|
                0 <= j < i ==> is_canonical_row(
                    *canonical,
                    schema@,
                    rows@[j]@,
                    (#[trigger] out@[j])@,
                ),
        decreases rows.len() - i,
    {
        let row = normalize_row(schema, &rows[i], canonical);
        out.push(row);
        i = i + 1;
    }
    *rows = out;
}

// === Reading ===

/// One page of a table: its rows as they are encoded, the cursor behind it, and whether
/// another page may follow.
#[derive(Debug)]
pub struct TablePage {
    pub rows: Vec<Json>,
    pub cursor: Cursor,
    pub more: bool,
}

/// The rows of a page as they stand ahead of the canonical form: projected, where columns
/// were selected, and with text columns as text.
pub open spec fn prepared(rows: Seq<JsonView>, fields: Seq<FieldView>, projected: bool) -> Seq<
    JsonView,
> {
    let narrowed = if projected {
        rows.map_values(
            |row: JsonView| projection::projected_row(row, schema::names(fields)),
        )
    } else {
        rows
    };
    narrowed.map_values(|row: JsonView| record::with_text(row, fields))
}

/// Makes a page of the rows that a fetch returned: its rows, ready to be encoded, and what
/// follows it.
pub fn table_page<F: Fn(Temporal, &str) -> Option<String>>(
    schema: &Schema,
    cursor: &SqlCursor,
    rows: Vec<Json>,
    projected: bool,
    canonical: &F,
) -> (r: Result<TablePage, Failure>)
    requires
        forall|kind: Temporal, text: &str| #[trigger] call_requires(*canonical, (kind, text)),
        is_full(cursor.limit, rows.len()) ==> cursor.offset + cursor.limit <= u32::MAX,
    ensures
        r is Ok,
        r->Ok_0.rows.len() == rows.len(),
        forall|i: int|
            0 <= i < rows.len() ==> is_canonical_row(
                *canonical,
                schema@,
                prepared(json::json_views(rows@), schema@, projected)[i],
                (#[trigger] r->Ok_0.rows@[i])@,
            ),
        r->Ok_0.more == is_full(cursor.limit, rows.len()),
        r->Ok_0.cursor@ == if is_full(cursor.limit, rows.len()) {
            page::cursor_to(page::offset_state((cursor.offset + cursor.limit) as u32))
        } else {
            page::no_cursor()
        },
        r->Ok_0.more == (next_offset(cursor.offset, cursor.limit, rows.len()) is Some),
        r->Ok_0.cursor@ == page::cursor_at(
            next_offset(cursor.offset, cursor.limit, rows.len()),
        ),
{
    let next = match next_cursor(cursor, rows.len()) {
        Ok(next) => next,
        Err(failure) => {
            return Err(failure);
        },
    };
    let ghost given = json::json_views(rows@);
    let mut rows = rows;
    if projected {
        projection::project_rows(schema, &mut rows);
    }
    record::stringify_text_columns(schema, &mut rows);
    assert(json::json_views(rows@) == prepared(given, schema@, projected));
    let ghost ready = json::json_views(rows@);
    assert forall|i: int| 0 <= i < rows@.len() implies (#[trigger] rows@[i])@ == ready[i] by {}
    assert(rows.len() == given.len()) by {
        assert(ready.len() == rows@.len());
    }
    let ghost stood = rows@;
    normalize_temporals(schema, &mut rows, canonical);
    assert forall|i: int| 0 <= i < rows@.len() implies is_canonical_row(
        *canonical,
        schema@,
        prepared(given, schema@, projected)[i],
        (#[trigger] rows@[i])@,
    ) by {
        assert(stood[i]@ == ready[i]);
    }
    let more = next.next.is_some();
    Ok(TablePage { rows, cursor: next, more })
}

/// A planned read of a table.
#[derive(Debug)]
pub struct TableRead {
    /// The schema of the rows that are returned.
    pub schema: Schema,
    /// Whether columns were selected.
    pub projected: bool,
    pub limit: u32,
    pub cursor_column: Option<String>,
    pub filter: Option<Filter>,
    /// Where the next page begins; absent behind the last page.
    pub offset: Option<u32>,
}

/// The page size of a table read.
pub open spec fn read_limit(asked: Option<u32>) -> u32 {
    let wanted = match asked {
        Some(n) => n,
        None => DEFAULT_LIMIT,
    };
    if wanted <= MAX_LIMIT {
        wanted
    } else {
        MAX_LIMIT
    }
}

/// The text of an optional param.
pub open spec fn param(value: Option<&str>) -> Option<Seq<char>> {
    match value {
        Some(value) => Some(value@),
        None => None,
    }
}

/// The fields of an optional schema.
pub open spec fn known(annotated: Option<&Schema>) -> Option<Seq<FieldView>> {
    match annotated {
        Some(annotated) => Some(annotated@),
        None => None,
    }
}

/// Plans a read of a table. The full schema, with what is known of the endpoint, decides
/// the column to order by, even where that column is not selected; the projected schema
/// says what is returned. `filter` is what the `filter` param was decoded to.
pub fn table_stream(
    table_schema: Schema,
    annotated: Option<&Schema>,
    fields: Option<&str>,
    limit: Option<u32>,
    cursor_field: Option<&str>,
    filter: Result<Option<Filter>, Failure>,
    token: Option<&str>,
) -> (r: Result<TableRead, Failure>)
    ensures
        ({
            let full = enriched(table_schema@, known(annotated));
            let columns = projection::projection(param(fields));
            let shown = projection::projected_schema(full, columns);
            let start = page::token_offset(param(token));
            match r {
                Ok(read) => {
                    &&& shown is Ok
                    &&& filter is Ok
                    &&& start is Ok
                    &&& read.schema@ == shown->Ok_0
                    &&& read.projected == (columns is Some)
                    &&& read.limit == read_limit(limit)
                    &&& read.cursor_column.deep_view() == cursor_column(full, param(cursor_field))
                    &&& read.filter == filter->Ok_0
                    &&& read.offset == Some(start->Ok_0)
                },
                Err(failure) => if shown is Err {
                    failure@ == FailureView::Message(shown->Err_0)
                } else if filter is Err {
                    failure == filter->Err_0
                } else {
                    start is Err && failure@ == FailureView::Message(start->Err_0)
                },
            }
        }),
{
    let full = enrich(table_schema, annotated);
    let columns = projection::get_projection(fields);
    let shown = match projection::project_schema(&full, columns.as_ref()) {
        Ok(shown) => shown,
        Err(failure) => {
            return Err(failure);
        },
    };
    let limit = page::page_limit(limit, DEFAULT_LIMIT, MAX_LIMIT);
    let cursor_column = resolve_cursor(cursor_field, &full);
    let filter = match filter {
        Ok(filter) => filter,
        Err(failure) => {
            return Err(failure);
        },
    };
    match page::resume_offset(token) {
        Ok(offset) => Ok(
            TableRead {
                schema: shown,
                projected: columns.is_some(),
                limit,
                cursor_column,
                filter,
                offset: Some(offset),
            },
        ),
        Err(failure) => Err(failure),
    }
}

impl TableRead {
    /// What to fetch next; nothing behind the last page.
    pub fn cursor(&self) -> (r: Option<SqlCursor>)
        ensures
            match r {
                Some(cursor) => {
                    &&& self.offset == Some(cursor.offset)
                    &&& cursor.limit == self.limit
                    &&& cursor.cursor.deep_view() == self.cursor_column.deep_view()
                },
                None => self.offset is None,
            },
    {
        match self.offset {
            Some(offset) => Some(
                SqlCursor {
                    offset,
                    limit: self.limit,
                    cursor: match &self.cursor_column {
                        Some(name) => Some(name.clone()),
                        None => None,
                    },
                },
            ),
            None => None,
        }
    }

    /// Moves on behind a page: to the next one where more may follow, else to the end. A
    /// page that failed is followed by none.
    pub fn advance(&mut self, more: bool)
        requires
            more && old(self).offset is Some ==> old(self).offset->0 + old(self).limit <= u32::MAX,
        ensures
            final(self).offset == match old(self).offset {
                Some(offset) => if more {
                    Some((offset + old(self).limit) as u32)
                } else {
                    None
                },
                None => None,
            },
            final(self).schema == old(self).schema,
            final(self).projected == old(self).projected,
            final(self).limit == old(self).limit,
            final(self).cursor_column == old(self).cursor_column,
            final(self).filter == old(self).filter,
    {
        self.offset = match self.offset {
            Some(offset) => if more {
                Some(offset + self.limit)
            } else {
                None
            },
            None => None,
        };
    }
}

/// The schema of a table read.
pub fn table_data_schema(
    table_schema: Schema,
    annotated: Option<&Schema>,
    fields: Option<&str>,
) -> (r: Result<Schema, Failure>)
    ensures
        error::gives(
            r,
            projection::projected_schema(
                enriched(table_schema@, known(annotated)),
                projection::projection(param(fields)),
            ),
        ),
{
    let full = enrich(table_schema, annotated);
    let columns = projection::get_projection(fields);
    projection::project_schema(&full, columns.as_ref())
}

/// The names that a listing holds.
pub open spec fn listed(items: Seq<TableName>) -> Seq<Seq<char>> {
    items.map_values(|item: TableName| item@)
}

/// The listing of tables, as a single page.
pub fn list_tables(names: Vec<String>) -> (r: Page<TableName>)
    ensures
        listed(r.items@) == names.deep_view(),
        r.cursor@ == page::no_cursor(),
{
    let mut items: Vec<TableName> = Vec::new();
    let mut i: usize = 0;
    while i < names.len()
        invariant
            i <= names.len(),
            listed(items@) == names.deep_view().take(i as int),
        decreases names.len() - i,
    {
        let ghost before = listed(items@);
        let item = TableName { name: names[i].clone() };
        items.push(item);
        assert(listed(items@) =~= before.push(item@));
        assert(listed(items@) =~= names.deep_view().take(i + 1));
        i = i + 1;
    }
    assert(listed(items@) =~= names.deep_view());
    Page::new(items, Cursor::empty())
}

// === One row ===

/// The first key field.
pub open spec fn first_key(fields: Seq<FieldView>) -> Option<FieldView>
    decreases fields.len(),
{
    if fields.len() == 0 {
        None
    } else if fields[0].is_key() {
        Some(fields[0])
    } else {
        first_key(fields.drop_first())
    }
}

/// The value that a key in a path stands for: an integer in an integer column where it
/// writes one, else text.
pub open spec fn key_value(data_type: TypeView, key: Seq<char>) -> JsonView {
    match text::integer(key) {
        Some(n) => if (data_type is Int64 || data_type is UInt64) && i64::MIN <= n <= i64::MAX {
            JsonView::Number(
                if n >= 0 {
                    NumberView::PosInt(n as u64)
                } else {
                    NumberView::NegInt(n as i64)
                },
            )
        } else {
            JsonView::Str(key)
        },
        None => JsonView::Str(key),
    }
}

/// The predicate that finds the row with the given key, or the message that refuses a
/// table without a key.
pub open spec fn key_filter(fields: Seq<FieldView>, table: Seq<char>, key: Seq<char>) -> Result<
    FilterView,
    Seq<char>,
> {
    match first_key(fields) {
        Some(field) => Ok(
            FilterView::Cmp {
                field: field.name,
                op: Op::Eq,
                value: key_value(field.data_type, key),
            },
        ),
        None => Err("table `"@ + table + "` has no key column"@),
    }
}

/// Whether a field is annotated as part of the key.
pub open spec fn says_key(field: FieldView) -> bool {
    field.annotations.contains_key("key"@)
}

/// What a key in a path stands for in a column: the integer that it writes, where the column
/// holds integers and a 64-bit integer can be it; its text otherwise.
pub open spec fn key_literal(data_type: TypeView, key: Seq<char>) -> Literal {
    if (data_type is Int64 || data_type is UInt64) && (exists|n: i64|
        #[trigger] text::integer(key) == Some(n as int)) {
        Literal::Whole(text::integer(key)->0)
    } else {
        Literal::Text(key)
    }
}

/// The first key field is the first that is annotated so.
proof fn lemma_first_key(fields: Seq<FieldView>)
    ensures
        match first_key(fields) {
            Some(field) => exists|i: int|
                #[trigger] is_first(fields, Wanted::Key, i) && field == fields[i],
            None => forall|i: int| 0 <= i < fields.len() ==> !says_key(#[trigger] fields[i]),
        },
    decreases fields.len(),
{
    let wanted = Wanted::Key;
    if fields.len() > 0 {
        let rest = fields.drop_first();
        lemma_first_key(rest);
        if says_key(fields[0]) {
            assert(is_first(fields, wanted, 0));
        } else {
            match first_key(rest) {
                Some(field) => {
                    let i = choose|i: int|
                        #[trigger] is_first(rest, wanted, i) && field == rest[i];
                    lemma_first_behind(fields, wanted, i);
                },
                None => {
                    assert forall|i: int| 0 <= i < fields.len() implies !says_key(
                        #[trigger] fields[i],
                    ) by {
                        if i > 0 {
                            assert(!says_key(rest[i - 1]));
                        }
                    }
                },
            }
        }
    }
}

/// A read of one row compares the first field that is annotated as part of the key, wherever it
/// stands, with the key that was asked for: as the integer that it writes in a column of
/// integers, as text otherwise. It is refused exactly where no field is part of the key.
pub proof fn row_reads_compare_the_key(fields: Seq<FieldView>, table: Seq<char>, key: Seq<char>)
    ensures
        match key_filter(fields, table, key) {
            Ok(FilterView::Cmp { field, op, value }) => op is Eq && (value is Number || value
                is Str) && exists|i: int|
                #[trigger] is_first(fields, Wanted::Key, i) && field
                    == fields[i].name && reading::literal_of(value) == key_literal(
                    fields[i].data_type,
                    key,
                ),
            Ok(_) => false,
            Err(message) => message == "table `"@ + table + "` has no key column"@ && forall|
                i: int,
            |
                0 <= i < fields.len() ==> !says_key(#[trigger] fields[i]),
        },
{
    lemma_first_key(fields);
    match first_key(fields) {
        Some(field) => {
            match text::integer(key) {
                Some(n) => {
                    if i64::MIN <= n <= i64::MAX {
                        assert(text::integer(key) == Some((n as i64) as int));
                    }
                },
                None => {},
            }
        },
        None => {},
    }
}

/// What to fetch for the row with the given key: the predicate, and a cursor for a single
/// row.
pub fn get_row(schema: &Schema, table: &str, key: &str) -> (r: Result<
    (Filter, SqlCursor),
    Failure,
>)
    ensures
        ({
            let expected = key_filter(schema@, table@, key@);
            match r {
                Ok((filter, cursor)) => {
                    &&& expected is Ok
                    &&& filter@ == expected->Ok_0
                    &&& cursor.offset == 0
                    &&& cursor.limit == 1
                    &&& cursor.cursor is None
                },
                Err(failure) => expected is Err && failure@ == FailureView::Message(
                    expected->Err_0,
                ),
            }
        }),
{
    let mut i: usize = 0;
    assert(schema@.skip(0) =~= schema@);
    while i < schema.fields.len()
        invariant
            i <= schema.fields.len(),
            first_key(schema@) == first_key(schema@.skip(i as int)),
        decreases schema.fields.len() - i,
    {
        assert(schema@[i as int] == schema.fields@[i as int]@);
        assert(schema@.skip(i as int).drop_first() =~= schema@.skip(i + 1));
        if schema.fields[i].is_key() {
            let field = &schema.fields[i];
            let whole = match &field.data_type {
                DataType::Int64 => true,
                DataType::UInt64 => true,
                _ => false,
            };
            let value = match text::parse_i64(key) {
                Some(n) => if whole {
                    if n >= 0 {
                        Json::Number(Number::PosInt(n as u64))
                    } else {
                        Json::Number(Number::NegInt(n))
                    }
                } else {
                    Json::Str(key.to_string())
                },
                None => Json::Str(key.to_string()),
            };
            assert(value@ == key_value(field@.data_type, key@));
            let filter = Filter::Cmp { field: field.name.clone(), op: Op::Eq, value };
            return Ok((filter, SqlCursor { offset: 0, limit: 1, cursor: None }));
        }
        i = i + 1;
    }
    Err(Failure::Message(text::cat3("table `", table, "` has no key column")))
}

/// The answer to a read of one row: the row, projected where columns were selected, or a
/// failure where no row has the key.
pub open spec fn row_answer(
    row: Option<JsonView>,
    table: Seq<char>,
    key: Seq<char>,
    fields: Option<Seq<char>>,
) -> Result<JsonView, Seq<char>> {
    match row {
        Some(row) => match projection::projection(fields) {
            Some(columns) => Ok(projection::projected_row(row, columns)),
            None => Ok(row),
        },
        None => Err("no row with key `"@ + key + "` in table `"@ + table + "`"@),
    }
}

/// Answers a read of one row with what the fetch found.
pub fn table_get(row: Option<Json>, table: &str, key: &str, fields: Option<&str>) -> (r: Result<
    Json,
    Failure,
>)
    ensures
        error::gives(
            r,
            row_answer(
                match row {
                    Some(row) => Some(row@),
                    None => None,
                },
                table@,
                key@,
                param(fields),
            ),
        ),
{
    match row {
        Some(row) => match projection::get_projection(fields) {
            Some(columns) => Ok(projection::project_row(&row, &columns)),
            None => Ok(row),
        },
        None => Err(
            Failure::Message(text::cat5("no row with key `", key, "` in table `", table, "`")),
        ),
    }
}

// === Writing ===

/// The disposition of an admissible write, or the message that refuses the write: an
/// unknown disposition, a dataset without columns, or a merge without a key to merge on.
pub open spec fn admitted(disposition: Option<Seq<char>>, fields: Seq<FieldView>) -> Result<
    Disposition,
    Seq<char>,
> {
    match Disposition::of_word(disposition) {
        Err(message) => Err(message),
        Ok(disposition) => if fields.len() == 0 {
            Err("dataset schema has no columns"@)
        } else if disposition == Disposition::Merge && schema::key_names(fields).len() == 0 {
            Err("merge disposition requires a key, but the dataset schema declares none"@)
        } else {
            Ok(disposition)
        },
    }
}

/// Checks the write contract that all SQL providers share against the dataset's schema,
/// and gives the disposition to write with.
pub fn write_table(disposition: Option<&str>, schema: &Schema) -> (r: Result<Disposition, Failure>)
    ensures
        error::gives_plain(r, admitted(param(disposition), schema@)),
{
    let disposition = match Disposition::from_param(disposition) {
        Ok(disposition) => disposition,
        Err(failure) => {
            return Err(failure);
        },
    };
    if schema.fields.len() == 0 {
        return Err(Failure::Message("dataset schema has no columns".to_string()));
    }
    let keys = schema.get_key_fields();
    assert(keys.len() == keys.deep_view().len());
    if disposition == Disposition::Merge && keys.len() == 0 {
        return Err(
            Failure::Message(
                "merge disposition requires a key, but the dataset schema declares none".to_string(),
            ),
        );
    }
    Ok(disposition)
}

/// Whether a write must first reconcile the table: unless the table is there with the
/// schema of the dataset.
pub fn needs_upsert(existing: Option<&Schema>, schema: &Schema) -> (r: bool)
    ensures
        r == !(existing is Some && existing->0@ == schema@),
{
    match existing {
        Some(current) => !current.same(schema),
        None => true,
    }
}

impl WriteResult {
    /// A write of which nothing is written yet.
    pub fn new(table: &str, created: bool) -> (r: WriteResult)
        ensures
            r.table@ == table@,
            r.created == created,
            r.rows_written == 0,
    {
        WriteResult { table: table.to_string(), created, rows_written: 0 }
    }

    /// Counts the rows of one more chunk.
    pub fn record(&mut self, rows: u64)
        requires
            old(self).rows_written + rows <= u64::MAX,
        ensures
            final(self).rows_written == old(self).rows_written + rows,
            final(self).table == old(self).table,
            final(self).created == old(self).created,
    {
        self.rows_written = self.rows_written + rows;
    }
}

/// What a write of a stream asks of the dialect.
#[derive(Debug, Clone, Copy, PartialEq, Eq, Structural)]
pub enum WriteAction {
    /// Look up the schema of the table.
    FindTable,
    /// Reconcile the table with the schema of the dataset.
    Upsert,
    /// Pull the next chunk.
    Pull,
    /// Write the chunk at hand.
    Write,
    Done,
}

/// How an action of a write went.
#[derive(Debug)]
pub enum WriteEvent {
    /// The schema of the table, where it was found.
    Table(Option<Schema>),
    /// Whether the table was created.
    Upserted(bool),
    /// A chunk.
    Pulled,
    /// The stream ended.
    Ended,
    /// The chunk was written, as this many rows.
    Written(u64),
}

/// The model of a [`WriteEvent`].
pub enum WriteEventView {
    Table(Option<Seq<FieldView>>),
    Upserted(bool),
    Pulled,
    Ended,
    Written(nat),
}

impl View for WriteEvent {
    type V = WriteEventView;

    open spec fn view(&self) -> WriteEventView {
        match self {
            WriteEvent::Table(Some(schema)) => WriteEventView::Table(Some(schema@)),
            WriteEvent::Table(None) => WriteEventView::Table(None),
            WriteEvent::Upserted(created) => WriteEventView::Upserted(*created),
            WriteEvent::Pulled => WriteEventView::Pulled,
            WriteEvent::Ended => WriteEventView::Ended,
            WriteEvent::Written(rows) => WriteEventView::Written(*rows as nat),
        }
    }
}

/// What a write is waiting for.
#[derive(Debug, Clone, Copy, PartialEq, Eq, Structural)]
pub enum WritePhase {
    Finding,
    Upserting,
    Pulling,
    Writing,
    Finished,
}

/// A write of a stream into a table.
#[derive(Debug)]
pub struct StreamWrite {
    /// The schema of the dataset.
    pub schema: Schema,
    pub result: WriteResult,
    pub phase: WritePhase,
}

/// The model of a [`StreamWrite`].
pub struct StreamWriteView {
    pub schema: Seq<FieldView>,
    pub table: Seq<char>,
    pub created: bool,
    pub rows_written: nat,
    pub phase: WritePhase,
}

impl View for StreamWrite {
    type V = StreamWriteView;

    open spec fn view(&self) -> StreamWriteView {
        StreamWriteView {
            schema: self.schema@,
            table: self.result.table@,
            created: self.result.created,
            rows_written: self.result.rows_written as nat,
            phase: self.phase,
        }
    }
}

/// Whether a write is waiting for such an event.
pub open spec fn write_awaits(phase: WritePhase, event: WriteEventView) -> bool {
    match phase {
        WritePhase::Finding => event is Table,
        WritePhase::Upserting => event is Upserted,
        WritePhase::Pulling => event is Pulled || event is Ended,
        WritePhase::Writing => event is Written,
        WritePhase::Finished => false,
    }
}

/// What a write becomes with an event, and what it does then. The table is reconciled unless
/// it is there with the schema of the dataset.
pub open spec fn write_step(write: StreamWriteView, event: WriteEventView) -> (
    StreamWriteView,
    WriteAction,
) {
    match (write.phase, event) {
        (WritePhase::Finding, WriteEventView::Table(existing)) => if existing == Some(
            write.schema,
        ) {
            (StreamWriteView { phase: WritePhase::Pulling, ..write }, WriteAction::Pull)
        } else {
            (StreamWriteView { phase: WritePhase::Upserting, ..write }, WriteAction::Upsert)
        },
        (WritePhase::Upserting, WriteEventView::Upserted(created)) => (
            StreamWriteView { phase: WritePhase::Pulling, created, ..write },
            WriteAction::Pull,
        ),
        (WritePhase::Pulling, WriteEventView::Pulled) => (
            StreamWriteView { phase: WritePhase::Writing, ..write },
            WriteAction::Write,
        ),
        (WritePhase::Pulling, WriteEventView::Ended) => (
            StreamWriteView { phase: WritePhase::Finished, ..write },
            WriteAction::Done,
        ),
        (WritePhase::Writing, WriteEventView::Written(rows)) => (
            StreamWriteView {
                phase: WritePhase::Pulling,
                rows_written: write.rows_written + rows,
                ..write
            },
            WriteAction::Pull,
        ),
        _ => (write, WriteAction::Done),
    }
}

impl StreamWrite {
    /// A write of a dataset of the given schema into a table.
    pub fn new(table: &str, schema: &Schema) -> (r: (StreamWrite, WriteAction))
        ensures
            r.0@ == (StreamWriteView {
                schema: schema@,
                table: table@,
                created: false,
                rows_written: 0,
                phase: WritePhase::Finding,
            }),
            r.1 == WriteAction::FindTable,
    {
        let write = StreamWrite {
            schema: schema.clone(),
            result: WriteResult::new(table, false),
            phase: WritePhase::Finding,
        };
        (write, WriteAction::FindTable)
    }

    /// Takes in how the last action went, and says what to do next.
    pub fn step(&mut self, event: WriteEvent) -> (r: WriteAction)
        requires
            write_awaits(old(self).phase, event@),
            event is Written ==> old(self).result.rows_written + event->Written_0 <= u64::MAX,
        ensures
            (final(self)@, r) == write_step(old(self)@, event@),
    {
        match (self.phase, event) {
            (WritePhase::Finding, WriteEvent::Table(existing)) => {
                if needs_upsert(existing.as_ref(), &self.schema) {
                    self.phase = WritePhase::Upserting;
                    WriteAction::Upsert
                } else {
                    self.phase = WritePhase::Pulling;
                    WriteAction::Pull
                }
            },
            (WritePhase::Upserting, WriteEvent::Upserted(created)) => {
                self.result.created = created;
                self.phase = WritePhase::Pulling;
                WriteAction::Pull
            },
            (WritePhase::Pulling, WriteEvent::Pulled) => {
                self.phase = WritePhase::Writing;
                WriteAction::Write
            },
            (WritePhase::Pulling, WriteEvent::Ended) => {
                self.phase = WritePhase::Finished;
                WriteAction::Done
            },
            (WritePhase::Writing, WriteEvent::Written(rows)) => {
                self.result.record(rows);
                self.phase = WritePhase::Pulling;
                WriteAction::Pull
            },
            _ => WriteAction::Done,
        }
    }
}

/// The write that takes in the chunks one after the other, each given by the rows that the
/// dialect reported for it.
pub open spec fn write_run(write: StreamWriteView, reported: Seq<nat>) -> StreamWriteView
    decreases reported.len(),
{
    if reported.len() == 0 {
        write_step(write, WriteEventView::Ended).0
    } else {
        let writing = write_step(write, WriteEventView::Pulled).0;
        let written = write_step(writing, WriteEventView::Written(reported[0])).0;
        write_run(written, reported.drop_first())
    }
}

/// The sum of the numbers.
pub open spec fn sum(numbers: Seq<nat>) -> nat
    decreases numbers.len(),
{
    if numbers.len() == 0 {
        0
    } else {
        numbers[0] + sum(numbers.drop_first())
    }
}

/// A write reports the rows of all its chunks together, and says of its table what the
/// reconciliation said.
pub proof fn writes_report_every_chunk(write: StreamWriteView, reported: Seq<nat>)
    requires
        write.phase is Pulling,
    ensures
        write_run(write, reported) == (StreamWriteView {
            phase: WritePhase::Finished,
            rows_written: write.rows_written + sum(reported),
            ..write
        }),
    decreases reported.len(),
{
    if reported.len() > 0 {
        let writing = write_step(write, WriteEventView::Pulled).0;
        let written = write_step(writing, WriteEventView::Written(reported[0])).0;
        writes_report_every_chunk(written, reported.drop_first());
    }
}

/// A table that is there with the schema of the dataset is left as it is; every other is
/// reconciled before anything is written.
pub proof fn tables_are_reconciled_first(write: StreamWriteView, event: WriteEventView)
    requires
        write_awaits(write.phase, event),
    ensures
        ({
            let (next, action) = write_step(write, event);
            &&& action is Upsert <==> event is Table && event->Table_0 != Some(write.schema)
            &&& action is Write ==> write.phase is Pulling
            &&& next.created != write.created ==> event is Upserted
            &&& next.table == write.table
            &&& next.schema == write.schema
        }),
{
}

// === Endpoints ===

/// The endpoints of a SQL provider: the listing of its tables, the rows of a table, one row,
/// and the sink.
pub open spec fn table_routes() -> Seq<EndpointView> {
    let rows = router::bare(Method::List, "/tables/:table"@);
    seq![
        router::offset_list("/tables"@),
        EndpointView {
            metadata: MetadataView {
                strategy: Some(ListStrategy::Offset),
                queryable: true,
                ..rows.metadata
            },
            ..rows
        },
        router::bare(Method::Get, "/tables/:table/:id"@),
        router::bare(Method::Put, "/tables/:table"@),
    ]
}

/// Registers the endpoints of a SQL provider.
pub fn register_tables(router: &mut Router)
    ensures
        final(router)@ == old(router)@ + table_routes(),
{
    let ghost before = router@;
    router.add(EndpointInfo::new(Method::List, "/tables").strategy(ListStrategy::Offset));
    router.add(
        EndpointInfo::new(Method::List, "/tables/:table").strategy(
            ListStrategy::Offset,
        ).queryable(),
    );
    router.add(EndpointInfo::new(Method::Get, "/tables/:table/:id"));
    router.add(EndpointInfo::new(Method::Put, "/tables/:table"));
    assert(router@ =~= before + table_routes());
}

// === Laws of a read ===

/// A field keeps its name, its type and whether it may be null. Its notes are those of the first
/// annotated field of its name, over its own; without one they are its own.
pub proof fn annotations_are_laid_over_fields(
    fields: Seq<FieldView>,
    annotated: Seq<FieldView>,
    i: int,
    k: int,
    note: Seq<char>,
)
    requires
        0 <= i < fields.len(),
    ensures
        enriched(fields, None) == fields,
        enriched(fields, Some(annotated)).len() == fields.len(),
        ({
            let before = fields[i];
            let after = enriched(fields, Some(annotated))[i];
            let given = annotated[k].annotations;
            &&& after.name == before.name
            &&& after.data_type == before.data_type
            &&& after.nullable == before.nullable
            &&& (forall|j: int|
                0 <= j < annotated.len() ==> (#[trigger] annotated[j]).name != before.name)
                ==> after.annotations == before.annotations
            &&& 0 <= k < annotated.len() && annotated[k].name == before.name && (forall|j: int|
                0 <= j < k ==> (#[trigger] annotated[j]).name != before.name) ==> {
                &&& after.annotations.contains_key(note) == (given.contains_key(note)
                    || before.annotations.contains_key(note))
                &&& given.contains_key(note) ==> after.annotations[note] == given[note]
                &&& !given.contains_key(note) && before.annotations.contains_key(note)
                    ==> after.annotations[note] == before.annotations[note]
            }
        }),
{
    let before = fields[i];
    schema::lemma_field_at(annotated, before.name);
    if 0 <= k < annotated.len() && annotated[k].name == before.name && (forall|j: int|
        0 <= j < k ==> (#[trigger] annotated[j]).name != before.name) {
        schema::lemma_field_at_is(annotated, before.name, k);
    }
}

/// The text of a member is put in the canonical form of every timestamp and date column of its
/// name, in order, and of no other column.
pub proof fn temporal_columns_are_the_dates_and_timestamps(
    fields: Seq<FieldView>,
    name: Seq<char>,
)
    ensures
        temporal_columns(fields, name) == fields.filter(
            |field: FieldView|
                field.name == name && (field.data_type is Timestamp || field.data_type is Date),
        ).map_values(
            |field: FieldView|
                if field.data_type is Timestamp {
                    Temporal::Timestamp
                } else {
                    Temporal::Date
                },
        ),
    decreases fields.len(),
{
    reveal(Seq::filter);
    let wanted = |field: FieldView|
        field.name == name && (field.data_type is Timestamp || field.data_type is Date);
    let kind = |field: FieldView|
        if field.data_type is Timestamp {
            Temporal::Timestamp
        } else {
            Temporal::Date
        };
    if fields.len() == 0 {
        assert(fields.filter(wanted).map_values(kind) =~= Seq::empty());
    } else {
        let fewer = fields.drop_last();
        temporal_columns_are_the_dates_and_timestamps(fewer, name);
        let before = fewer.filter(wanted);
        if wanted(fields.last()) {
            assert(fields.filter(wanted).map_values(kind) =~= before.map_values(kind).push(
                kind(fields.last()),
            ));
        }
    }
}

/// A read of one row answers with the row that was found, with only the columns that were asked
/// for; without one it says which key of which table was not found.
pub proof fn found_rows_are_answered(
    row: JsonView,
    table: Seq<char>,
    key: Seq<char>,
    columns: Seq<Seq<char>>,
    fields: Option<Seq<char>>,
)
    ensures
        row_answer(Some(row), table, key, None) == Ok::<JsonView, Seq<char>>(row),
        projection::projection(fields) is None ==> row_answer(Some(row), table, key, fields)
            == Ok::<JsonView, Seq<char>>(row),
        projection::projection(fields) is Some ==> row_answer(Some(row), table, key, fields)
            == Ok::<JsonView, Seq<char>>(
            projection::projected_row(row, projection::projection(fields)->0),
        ),
        projection::projection(Some(text::joined(columns, ","@))) == Some(columns) ==> row_answer(
            Some(row),
            table,
            key,
            Some(text::joined(columns, ","@)),
        ) == Ok::<JsonView, Seq<char>>(projection::projected_row(row, columns)),
        row_answer(None, table, key, fields) == Err::<JsonView, Seq<char>>(
            "no row with key `"@ + key + "` in table `"@ + table + "`"@,
        ),
{
}

/// A page keeps every row in order. Where columns were selected, a row has only members that the
/// schema has.
pub proof fn pages_keep_every_row(rows: Seq<JsonView>, fields: Seq<FieldView>, i: int)
    requires
        0 <= i < rows.len(),
    ensures
        prepared(rows, fields, false).len() == rows.len(),
        prepared(rows, fields, true).len() == rows.len(),
        prepared(rows, fields, false)[i] == record::with_text(rows[i], fields),
        prepared(rows, fields, true)[i] == record::with_text(
            projection::projected_row(rows[i], schema::names(fields)),
            fields,
        ),
{
}

/// A write is admitted exactly where its disposition is known, the dataset has columns, and, to
/// merge, a field is annotated as part of the key; it is then applied as was asked.
pub proof fn writes_are_admitted_by_their_disposition(
    disposition: Option<Seq<char>>,
    fields: Seq<FieldView>,
)
    ensures
        ({
            let appends = disposition is None || disposition == Some("append"@);
            let merges = disposition == Some("merge"@) || disposition == Some("upsert"@);
            let keyed = exists|i: int| 0 <= i < fields.len() && says_key(#[trigger] fields[i]);
            &&& admitted(disposition, fields) is Ok <==> fields.len() > 0 && (appends || merges
                && keyed)
            &&& admitted(disposition, fields) is Ok ==> admitted(disposition, fields)->Ok_0
                == if appends {
                Disposition::Append
            } else {
                Disposition::Merge
            }
            &&& !appends && !merges ==> admitted(disposition, fields)->Err_0
                == "unknown write disposition `"@ + disposition->0 + "` (append|merge)"@
            &&& (appends || merges) && fields.len() == 0 ==> admitted(disposition, fields)->Err_0
                == "dataset schema has no columns"@
            &&& merges && fields.len() > 0 && !keyed ==> admitted(disposition, fields)->Err_0
                == "merge disposition requires a key, but the dataset schema declares none"@
        }),
{
    reveal_strlit("append");
    reveal_strlit("merge");
    reveal_strlit("upsert");
    assert("append"@.len() == 6 && "merge"@.len() == 5 && "upsert"@.len() == 6);
    assert("append"@[0] == 'a' && "upsert"@[0] == 'u');
    lemma_keyed(fields);
}

/// There are key names where a field is annotated as part of the key.
proof fn lemma_keyed(fields: Seq<FieldView>)
    ensures
        schema::key_names(fields).len() > 0 <==> exists|i: int|
            0 <= i < fields.len() && says_key(#[trigger] fields[i]),
    decreases fields.len(),
{
    if fields.len() > 0 {
        let fewer = fields.drop_last();
        lemma_keyed(fewer);
        if schema::key_names(fewer).len() > 0 {
            let i = choose|i: int| 0 <= i < fewer.len() && says_key(#[trigger] fewer[i]);
            assert(says_key(fields[i]));
        }
        if says_key(fields.last()) {
            assert(says_key(fields[fields.len() - 1]));
        }
        if exists|i: int| 0 <= i < fields.len() && says_key(#[trigger] fields[i]) {
            let i = choose|i: int| 0 <= i < fields.len() && says_key(#[trigger] fields[i]);
            if i < fewer.len() {
                assert(says_key(fewer[i]));
            }
        }
    }
}

/// A write looks its table up, reconciles it where it differs, then pulls chunk after chunk and
/// writes each, until the stream ends.
pub proof fn writes_pull_and_write_in_turn(write: StreamWriteView, event: WriteEventView)
    requires
        write_awaits(write.phase, event),
    ensures
        ({
            let (next, action) = write_step(write, event);
            &&& action is Write <==> event is Pulled
            &&& action is Done <==> event is Ended
            &&& action is Pull <==> event is Upserted || event is Written || event is Table
                && event->Table_0 == Some(write.schema)
            &&& next.rows_written == write.rows_written + if event is Written {
                event->Written_0
            } else {
                0
            }
            &&& event is Upserted ==> next.created == event->Upserted_0
            &&& !(event is Upserted) ==> next.created == write.created
            &&& next.phase is Writing <==> action is Write
            &&& next.phase is Pulling <==> action is Pull
            &&& next.phase is Upserting <==> action is Upsert
            &&& next.phase is Finished <==> action is Done
        }),
{
}

/// A SQL provider lists its tables, lists the rows of a table, which can be filtered, gets one
/// row of a table, and is written to by table.
pub proof fn table_endpoints_are_four()
    ensures
        ({
            let routes = table_routes();
            &&& routes.len() == 4
            &&& routes[0].method == Method::List && routes[0].path == "/tables"@
            &&& routes[1].method == Method::List && routes[1].path == "/tables/:table"@
            &&& routes[2].method == Method::Get && routes[2].path == "/tables/:table/:id"@
            &&& routes[3].method == Method::Put && routes[3].path == "/tables/:table"@
            &&& routes[1].metadata.queryable
            &&& !routes[0].metadata.queryable
            &&& routes[0].metadata.strategy == Some(ListStrategy::Offset)
            &&& routes[1].metadata.strategy == Some(ListStrategy::Offset)
            &&& forall|i: int|
                0 <= i < 4 ==> (#[trigger] routes[i]).metadata.disposition == Disposition::Append
        }),
{
}


/// The kinds of a name with one temporal column, or with none.
proof fn lemma_one_temporal(fields: Seq<FieldView>, name: Seq<char>, k: int)
    requires
        0 <= k <= fields.len(),
        k < fields.len() ==> fields[k].name == name && (fields[k].data_type is Timestamp
            || fields[k].data_type is Date),
        forall|j: int|
            0 <= j < fields.len() && j != k ==> !((#[trigger] fields[j]).name == name && (
            fields[j].data_type is Timestamp || fields[j].data_type is Date)),
    ensures
        temporal_columns(fields, name) == if k == fields.len() {
            Seq::empty()
        } else if fields[k].data_type is Timestamp {
            seq![Temporal::Timestamp]
        } else {
            seq![Temporal::Date]
        },
    decreases fields.len(),
{
    if fields.len() > 0 {
        let fewer = fields.drop_last();
        let last = fields.len() - 1;
        assert(fields.last() == fields[last]);
        assert forall|j: int| 0 <= j < fewer.len() && j != k implies !((
        #[trigger] fewer[j]).name == name && (fewer[j].data_type is Timestamp
            || fewer[j].data_type is Date)) by {
            assert(fewer[j] == fields[j]);
        }
        if k < last {
            assert(fewer[k] == fields[k]);
            lemma_one_temporal(fewer, name, k);
        } else {
            lemma_one_temporal(fewer, name, fewer.len() as int);
        }
    }
}

/// A row is normalized value by value: text in a timestamp or a date column takes the form that it
/// is given as one, where it is given any, and every other value stays. Nothing is added, dropped
/// or moved.
pub proof fn rows_are_normalized_by_column<F: Fn(Temporal, &str) -> Option<String>>(
    canonical: F,
    fields: Seq<FieldView>,
    members: Seq<(Seq<char>, JsonView)>,
    after: JsonView,
    i: int,
    k: int,
    kind: Temporal,
)
    requires
        is_canonical_row(canonical, fields, JsonView::Object(members), after),
        0 <= i < members.len(),
        0 <= k <= fields.len(),
        k < fields.len() ==> fields[k].name == members[i].0 && (fields[k].data_type is Timestamp
            || fields[k].data_type is Date),
        forall|j: int|
            0 <= j < fields.len() && j != k ==> !((#[trigger] fields[j]).name == members[i].0 && (
            fields[j].data_type is Timestamp || fields[j].data_type is Date)),
        k < fields.len() ==> (kind == Temporal::Timestamp <==> fields[k].data_type is Timestamp),
    ensures
        after is Object,
        after->Object_0.len() == members.len(),
        after->Object_0[i].0 == members[i].0,
        k == fields.len() || !(members[i].1 is Str) ==> after->Object_0[i].1 == members[i].1,
        k < fields.len() && members[i].1 is Str ==> exists|asked: &str, given: Option<String>|
            {
                &&& asked@ == members[i].1->Str_0
                &&& #[trigger] call_ensures(canonical, (kind, asked), given)
                &&& given is Some ==> after->Object_0[i].1 == JsonView::Str(given->0@)
                &&& given is None ==> after->Object_0[i].1 == members[i].1
            },
{
    lemma_one_temporal(fields, members[i].0, k);
    assert(after->Object_0[i].0 == members[i].0);
    let kinds = temporal_columns(fields, members[i].0);
    let value = after->Object_0[i].1;
    assert(is_canonical_by(canonical, kinds, members[i].1, value));
    if k < fields.len() {
        assert(kinds.drop_last() =~= Seq::empty());
        reveal_with_fuel(is_canonical_by, 2);
        let between = choose|between: JsonView|
            is_canonical_by(canonical, kinds.drop_last(), members[i].1, between)
                && #[trigger] is_canonical(canonical, kinds.last(), between, value);
        assert(between == members[i].1);
        assert(is_canonical(canonical, kinds.last(), members[i].1, value));
    }
}


/// A page that came back full leads on to the row behind it; a short one, and one that was to hold
/// no rows, is the last.
pub proof fn only_full_pages_lead_on(offset: u32, limit: u32, returned: u32)
    requires
        offset + limit <= u32::MAX,
    ensures
        returned == limit && limit > 0 ==> next_offset(offset, limit, returned as usize) is Some
            && next_offset(offset, limit, returned as usize)->0 == offset + returned,
        returned != limit || limit == 0 ==> next_offset(offset, limit, returned as usize) is None,
{
}

} // verus!
