//! The row predicate of a table read, and its SQL form.
//!
//! A predicate is a boolean tree of column comparisons. Each provider renders it with
//! its own identifier quote and splices the clause into its query.

use vstd::prelude::*;
use vstd::string::*;

use crate::error::{self, Failure};
use crate::json::{self, Json, JsonView, Number, NumberView};
use crate::providers::sql;
use crate::text;

verus! {

/// A row predicate. `And` and `Or` nest; a `Cmp` leaf compares one column with a value.
#[derive(Debug)]
pub enum Filter {
    And(Vec<Filter>),
    Or(Vec<Filter>),
    Cmp { field: String, op: Op, value: Json },
}

/// A comparison operator. `In` and `NotIn` take an array; `IsNull` and `NotNull` ignore
/// the value.
#[derive(Debug, Clone, Copy)]
pub enum Op {
    Eq,
    Ne,
    Lt,
    Lte,
    Gt,
    Gte,
    In,
    NotIn,
    IsNull,
    NotNull,
    Like,
}

/// The model of a [`Filter`].
pub enum FilterView {
    And(Seq<FilterView>),
    Or(Seq<FilterView>),
    Cmp { field: Seq<char>, op: Op, value: JsonView },
}

/// The model of `filter`.
pub open spec fn filter_view(filter: Filter) -> FilterView
    decreases filter,
{
    match filter {
        Filter::And(parts) => FilterView::And(
            Seq::new(
                parts@.len(),
                |i: int|
                    if 0 <= i < parts@.len() {
                        filter_view(parts@[i])
                    } else {
                        arbitrary()
                    },
            ),
        ),
        Filter::Or(parts) => FilterView::Or(
            Seq::new(
                parts@.len(),
                |i: int|
                    if 0 <= i < parts@.len() {
                        filter_view(parts@[i])
                    } else {
                        arbitrary()
                    },
            ),
        ),
        Filter::Cmp { field, op, value } => FilterView::Cmp { field: field@, op, value: value@ },
    }
}

impl View for Filter {
    type V = FilterView;

    open spec fn view(&self) -> FilterView {
        filter_view(*self)
    }
}

/// The models of a list of predicates.
pub open spec fn filter_views(parts: Seq<Filter>) -> Seq<FilterView> {
    parts.map_values(|part: Filter| part@)
}

/// The model of a group holds the models of its parts.
pub broadcast proof fn lemma_filter_view(filter: Filter)
    ensures
        match filter {
            Filter::And(parts) => (#[trigger] filter@) == FilterView::And(filter_views(parts@)),
            Filter::Or(parts) => filter@ == FilterView::Or(filter_views(parts@)),
            _ => true,
        },
{
    match filter {
        Filter::And(parts) => {
            assert(filter@->And_0 =~= filter_views(parts@));
        },
        Filter::Or(parts) => {
            assert(filter@->Or_0 =~= filter_views(parts@));
        },
        _ => {},
    }
}

// === The SQL text ===

/// Whether the text of a number writes one, as of every number that JSON can write.
pub open spec fn proper(number: NumberView) -> bool {
    match number {
        NumberView::Float(text) => json::writes_number(text),
        _ => true,
    }
}

/// The text of a number.
pub open spec fn number_text(number: NumberView) -> Seq<char> {
    match number {
        NumberView::PosInt(n) => text::decimal(n as nat),
        NumberView::NegInt(n) => text::signed_decimal(n as int),
        NumberView::Float(text) => text,
    }
}

/// The SQL literal of a scalar, or the message that refuses the value.
pub open spec fn literal_text(value: JsonView) -> Result<Seq<char>, Seq<char>> {
    match value {
        JsonView::Str(s) => Ok(sql::quoted(s, '\'')),
        JsonView::Number(n) => if proper(n) {
            Ok(number_text(n))
        } else {
            Err("unsupported filter value `"@ + json::json_rendered(value) + "`"@)
        },
        JsonView::Bool(b) => Ok(
            if b {
                "TRUE"@
            } else {
                "FALSE"@
            },
        ),
        JsonView::Null => Ok("NULL"@),
        _ => Err("unsupported filter value `"@ + json::json_rendered(value) + "`"@),
    }
}

/// Every scalar that was read from JSON has a literal.
pub proof fn scalars_have_literals(value: JsonView)
    requires
        json::sound(value),
        !(value is Array),
        !(value is Object),
    ensures
        literal_text(value) is Ok,
{
}

/// The SQL literals of the items, or the message that refuses the first that has none.
pub open spec fn literal_texts(items: Seq<JsonView>) -> Result<Seq<Seq<char>>, Seq<char>>
    decreases items.len(),
{
    if items.len() == 0 {
        Ok(Seq::empty())
    } else {
        match literal_texts(items.drop_last()) {
            Err(message) => Err(message),
            Ok(texts) => match literal_text(items.last()) {
                Err(message) => Err(message),
                Ok(text) => Ok(texts.push(text)),
            },
        }
    }
}

/// The SQL literal of a pattern.
pub open spec fn pattern_text(value: JsonView) -> Result<Seq<char>, Seq<char>> {
    match value {
        JsonView::Str(s) => Ok(sql::quoted(s, '\'')),
        _ => Err("`like` needs a string value, got `"@ + json::json_rendered(value) + "`"@),
    }
}

/// The SQL literals of an array, with commas between them.
pub open spec fn list_text(value: JsonView) -> Result<Seq<char>, Seq<char>> {
    match value {
        JsonView::Array(items) => if items.len() == 0 {
            Err("`in`/`not_in` need a non-empty array"@)
        } else {
            match literal_texts(items) {
                Err(message) => Err(message),
                Ok(texts) => Ok(text::joined(texts, ", "@)),
            }
        },
        _ => Err("`in`/`not_in` need an array value"@),
    }
}

/// What stands between the column and its operand.
pub open spec fn before_operand(op: Op) -> Seq<char> {
    match op {
        Op::Eq => " = "@,
        Op::Ne => " <> "@,
        Op::Lt => " < "@,
        Op::Lte => " <= "@,
        Op::Gt => " > "@,
        Op::Gte => " >= "@,
        Op::Like => " LIKE "@,
        Op::In => " IN ("@,
        Op::NotIn => " NOT IN ("@,
        Op::IsNull => " IS NULL"@,
        Op::NotNull => " IS NOT NULL"@,
    }
}

/// The operand of a comparison.
pub open spec fn operand(op: Op, value: JsonView) -> Result<Seq<char>, Seq<char>> {
    match op {
        Op::Like => pattern_text(value),
        Op::In | Op::NotIn => list_text(value),
        Op::IsNull | Op::NotNull => Ok(Seq::empty()),
        _ => literal_text(value),
    }
}

/// What stands behind the operand.
pub open spec fn after_operand(op: Op) -> Seq<char> {
    match op {
        Op::In | Op::NotIn => ")"@,
        _ => Seq::empty(),
    }
}

/// The SQL expression of a predicate, or the message that refuses it.
pub open spec fn sql_text(filter: FilterView, quote: char) -> Result<Seq<char>, Seq<char>>
    decreases filter, 0int,
{
    match filter {
        FilterView::And(parts) => group_text(parts, "AND"@, "and"@, quote),
        FilterView::Or(parts) => group_text(parts, "OR"@, "or"@, quote),
        FilterView::Cmp { field, op, value } => match operand(op, value) {
            Err(message) => Err(message),
            Ok(operand) => Ok(
                sql::quoted(field, quote) + before_operand(op) + operand + after_operand(op),
            ),
        },
    }
}

/// The SQL expression of a group whose parts stand around the word `sep`, which is
/// `name` in lower case.
pub open spec fn group_text(
    parts: Seq<FilterView>,
    sep: Seq<char>,
    name: Seq<char>,
    quote: char,
) -> Result<Seq<char>, Seq<char>>
    decreases parts, 1int,
{
    if parts.len() == 0 {
        Err("empty `"@ + name + "` filter group"@)
    } else {
        match sql_texts(parts, quote) {
            Err(message) => Err(message),
            Ok(texts) => Ok("("@ + text::joined(texts, " "@ + sep + " "@) + ")"@),
        }
    }
}

/// The SQL expressions of the parts, or the message that refuses the first that has none.
pub open spec fn sql_texts(parts: Seq<FilterView>, quote: char) -> Result<
    Seq<Seq<char>>,
    Seq<char>,
>
    decreases parts, 0int,
{
    if parts.len() == 0 {
        Ok(Seq::empty())
    } else {
        match sql_texts(parts.drop_last(), quote) {
            Err(message) => Err(message),
            Ok(texts) => match sql_text(parts.last(), quote) {
                Err(message) => Err(message),
                Ok(text) => Ok(texts.push(text)),
            },
        }
    }
}

/// The `WHERE` clause of an optional predicate, with a space behind it.
pub open spec fn where_text(filter: Option<FilterView>, quote: char) -> Result<
    Seq<char>,
    Seq<char>,
> {
    match filter {
        Some(filter) => match sql_text(filter, quote) {
            Err(message) => Err(message),
            Ok(text) => Ok("WHERE "@ + text + " "@),
        },
        None => Ok(Seq::empty()),
    }
}

/// The text of a number.
fn number_sql(number: &Number) -> (r: String)
    ensures
        r@ == number_text(number@),
{
    match number {
        Number::PosInt(n) => text::decimal_u64(*n),
        Number::NegInt(n) => text::decimal_i64(*n),
        Number::Float(text) => text.clone(),
    }
}

/// Whether the text of a number writes one.
fn is_proper(number: &Number) -> (r: bool)
    ensures
        r == proper(number@),
{
    match number {
        Number::Float(text) => json::is_number(text.as_str()),
        _ => true,
    }
}

/// Renders a scalar as a SQL literal. Strings are escaped; numbers, booleans and null
/// render structurally, so that none can inject.
fn literal(value: &Json) -> (r: Result<String, Failure>)
    ensures
        error::gives(r, literal_text(value@)),
{
    match value {
        Json::Str(s) => {
            return Ok(sql::quote_str(s.as_str()));
        },
        Json::Number(n) => {
            if is_proper(n) {
                return Ok(number_sql(n));
            }
        },
        Json::Bool(b) => {
            return Ok(
                if *b {
                    "TRUE".to_string()
                } else {
                    "FALSE".to_string()
                },
            );
        },
        Json::Null => {
            return Ok("NULL".to_string());
        },
        _ => {},
    }
    let shown = json::render(value);
    Err(Failure::Message(text::cat3("unsupported filter value `", shown.as_str(), "`")))
}

/// Renders a pattern, which must be a string.
fn str_literal(value: &Json) -> (r: Result<String, Failure>)
    ensures
        error::gives(r, pattern_text(value@)),
{
    match value {
        Json::Str(s) => Ok(sql::quote_str(s.as_str())),
        other => {
            let shown = json::render(other);
            Err(
                Failure::Message(
                    text::cat3("`like` needs a string value, got `", shown.as_str(), "`"),
                ),
            )
        },
    }
}

/// Renders the items of a non-empty array, with commas between them.
fn list_literal(value: &Json) -> (r: Result<String, Failure>)
    ensures
        error::gives(r, list_text(value@)),
{
    broadcast use json::lemma_json_view;

    match value {
        Json::Array(items) => {
            if items.len() == 0 {
                return Err(Failure::Message("`in`/`not_in` need a non-empty array".to_string()));
            }
            let ghost all = json::json_views(items@);
            let mut texts: Vec<String> = Vec::new();
            let mut i: usize = 0;
            assert(all.take(0) =~= Seq::empty());
            while i < items.len()
                invariant
                    i <= items.len(),
                    all == json::json_views(items@),
                    literal_texts(all.take(i as int)) is Ok,
                    literal_texts(all.take(i as int))->Ok_0 == texts.deep_view(),
                    value@ == JsonView::Array(all),
                    items.len() > 0,
                decreases items.len() - i,
            {
                assert(all.take(i + 1).drop_last() =~= all.take(i as int));
                assert(all.take(i + 1).last() == items@[i as int]@);
                match literal(&items[i]) {
                    Ok(text) => {
                        let ghost before = texts.deep_view();
                        texts.push(text);
                        assert(texts.deep_view() =~= before.push(text@));
                    },
                    Err(failure) => {
                        proof {
                            lemma_literal_texts_fail(all, i + 1);
                        }
                        return Err(failure);
                    },
                }
                i = i + 1;
            }
            assert(all.take(i as int) =~= all);
            Ok(text::join(&texts, ", "))
        },
        _ => Err(Failure::Message("`in`/`not_in` need an array value".to_string())),
    }
}

/// A list is refused with the message that refuses a prefix of it.
proof fn lemma_literal_texts_fail(items: Seq<JsonView>, n: int)
    requires
        0 <= n <= items.len(),
        literal_texts(items.take(n)) is Err,
    ensures
        literal_texts(items) == literal_texts(items.take(n)),
    decreases items.len() - n,
{
    if n == items.len() {
        assert(items.take(n) =~= items);
    } else {
        assert(items.take(n + 1).drop_last() =~= items.take(n));
        lemma_literal_texts_fail(items, n + 1);
    }
}

/// A list is refused with the message that refuses a prefix of it.
proof fn lemma_sql_texts_fail(parts: Seq<FilterView>, quote: char, n: int)
    requires
        0 <= n <= parts.len(),
        sql_texts(parts.take(n), quote) is Err,
    ensures
        sql_texts(parts, quote) == sql_texts(parts.take(n), quote),
    decreases parts.len() - n,
{
    if n == parts.len() {
        assert(parts.take(n) =~= parts);
    } else {
        assert(parts.take(n + 1).drop_last() =~= parts.take(n));
        lemma_sql_texts_fail(parts, quote, n + 1);
    }
}

/// Renders one comparison.
fn cmp_sql(field: &str, op: Op, value: &Json, quote: char) -> (r: Result<String, Failure>)
    ensures
        error::gives(r, sql_text(FilterView::Cmp { field: field@, op, value: value@ }, quote)),
{
    let col = sql::quote_ident(field, quote);
    let middle = match op {
        Op::Eq => " = ",
        Op::Ne => " <> ",
        Op::Lt => " < ",
        Op::Lte => " <= ",
        Op::Gt => " > ",
        Op::Gte => " >= ",
        Op::Like => " LIKE ",
        Op::In => " IN (",
        Op::NotIn => " NOT IN (",
        Op::IsNull => " IS NULL",
        Op::NotNull => " IS NOT NULL",
    };
    let rendered = match op {
        Op::Like => str_literal(value),
        Op::In | Op::NotIn => list_literal(value),
        Op::IsNull | Op::NotNull => Ok(String::new()),
        _ => literal(value),
    };
    match rendered {
        Err(failure) => Err(failure),
        Ok(rendered) => {
            let mut r = text::cat3(col.as_str(), middle, rendered.as_str());
            match op {
                Op::In | Op::NotIn => r.append(")"),
                _ => {
                    assert(r@ + after_operand(op) =~= r@);
                },
            }
            Ok(r)
        },
    }
}

impl Filter {
    /// Renders the predicate as a SQL boolean expression, without the `WHERE` keyword.
    /// Column names are quoted with `quote` and string literals are escaped.
    pub fn to_sql(&self, quote: char) -> (r: Result<String, Failure>)
        ensures
            error::gives(r, sql_text(self@, quote)),
        decreases self, 1int,
    {
        broadcast use lemma_filter_view;

        match self {
            Filter::And(parts) => join(parts, "AND", "and", quote),
            Filter::Or(parts) => join(parts, "OR", "or", quote),
            Filter::Cmp { field, op, value } => cmp_sql(field.as_str(), *op, value, quote),
        }
    }
}

/// Renders a group whose parts stand around the word `sep`.
fn join(parts: &Vec<Filter>, sep: &str, name: &str, quote: char) -> (r: Result<String, Failure>)
    ensures
        error::gives(r, group_text(filter_views(parts@), sep@, name@, quote)),
    decreases parts, 0int,
{
    if parts.len() == 0 {
        return Err(Failure::Message(text::cat3("empty `", name, "` filter group")));
    }
    let ghost all = filter_views(parts@);
    let mut texts: Vec<String> = Vec::new();
    let mut i: usize = 0;
    assert(all.take(0) =~= Seq::empty());
    while i < parts.len()
        invariant
            i <= parts.len(),
            all == filter_views(parts@),
            sql_texts(all.take(i as int), quote) is Ok,
            sql_texts(all.take(i as int), quote)->Ok_0 == texts.deep_view(),
        decreases parts.len() - i,
    {
        assert(all.take(i + 1).drop_last() =~= all.take(i as int));
        assert(all.take(i + 1).last() == parts@[i as int]@);
        match parts[i].to_sql(quote) {
            Ok(text) => {
                let ghost before = texts.deep_view();
                texts.push(text);
                assert(texts.deep_view() =~= before.push(text@));
            },
            Err(failure) => {
                proof {
                    lemma_sql_texts_fail(all, quote, i + 1);
                }
                return Err(failure);
            },
        }
        i = i + 1;
    }
    assert(all.take(i as int) =~= all);
    let between = text::cat3(" ", sep, " ");
    let inner = text::join(&texts, between.as_str());
    Ok(text::cat3("(", inner.as_str(), ")"))
}

/// The `WHERE` clause of an optional predicate, to be spliced ahead of what follows it.
pub fn where_clause(filter: Option<&Filter>, quote: char) -> (r: Result<String, Failure>)
    ensures
        error::gives(
            r,
            where_text(
                match filter {
                    Some(filter) => Some(filter@),
                    None => None,
                },
                quote,
            ),
        ),
{
    match filter {
        Some(filter) => match filter.to_sql(quote) {
            Ok(text) => Ok(text::cat3("WHERE ", text.as_str(), " ")),
            Err(failure) => Err(failure),
        },
        None => {
            let empty = String::new();
            assert(empty@ =~= Seq::<char>::empty());
            Ok(empty)
        },
    }
}

impl Clone for Filter {
    fn clone(&self) -> (r: Self)
        ensures
            r@ == self@,
        decreases self, 1int,
    {
        broadcast use lemma_filter_view;

        match self {
            Filter::And(parts) => Filter::And(copy_parts(parts)),
            Filter::Or(parts) => Filter::Or(copy_parts(parts)),
            Filter::Cmp { field, op, value } => Filter::Cmp {
                field: field.clone(),
                op: *op,
                value: value.clone(),
            },
        }
    }
}

/// A copy of the parts of a group.
fn copy_parts(parts: &Vec<Filter>) -> (r: Vec<Filter>)
    ensures
        filter_views(r@) == filter_views(parts@),
    decreases parts, 0int,
{
    let mut copy: Vec<Filter> = Vec::new();
    let mut i: usize = 0;
    while i < parts.len()
        invariant
            i <= parts.len(),
            filter_views(copy@) == filter_views(parts@).take(i as int),
        decreases parts.len() - i,
    {
        let ghost before = filter_views(copy@);
        let part = parts[i].clone();
        copy.push(part);
        assert(filter_views(copy@) =~= before.push(part@));
        assert(filter_views(copy@) =~= filter_views(parts@).take(i + 1));
        i = i + 1;
    }
    assert(filter_views(copy@) =~= filter_views(parts@));
    copy
}

} // verus!
