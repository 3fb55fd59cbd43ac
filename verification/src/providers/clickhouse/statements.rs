//! What the statements say.
//!
//! Each statement is read back as the server reads it, without regard to how it was put
//! together: the table, the columns and the key of a new table; the table, the predicate, the
//! order and the window of a page; the table and the rows of an insert.

use vstd::prelude::*;

use crate::json::{self, JsonView, NumberView};
use crate::providers::clickhouse;
use crate::providers::sql;
use crate::providers::sql::filter::{self, FilterView};
use crate::providers::sql::reading::{self, Condition};
use crate::providers::sql::safety;
use crate::schema::{self, FieldView, TypeView};
use crate::text;

verus! {

// === The reader ===

/// What stands behind `word` at the front of `text`.
pub open spec fn after(text: Seq<char>, word: Seq<char>) -> Option<Seq<char>> {
    if word.is_prefix_of(text) {
        Some(text.skip(word.len() as int))
    } else {
        None
    }
}

/// What stands behind a word that was put ahead of it.
proof fn lemma_after(word: Seq<char>, rest: Seq<char>)
    ensures
        after(word + rest, word) == Some(rest),
{
    assert(word.is_prefix_of(word + rest));
    assert((word + rest).skip(word.len() as int) =~= rest);
}

/// A word is not found where another begins otherwise.
proof fn lemma_not_after(text: Seq<char>, word: Seq<char>)
    requires
        word.len() > 0,
        text.len() > 0,
        text[0] != word[0],
    ensures
        after(text, word) is None,
{
    if word.is_prefix_of(text) {
        assert(text.take(word.len() as int)[0] == word[0]);
    }
}

/// The names in back quotes at the front of `text`, with commas between them, up to a closing
/// parenthesis, and what stands behind it.
pub open spec fn read_names(text: Seq<char>) -> Option<(Seq<Seq<char>>, Seq<char>)>
    decreases text.len(),
{
    match safety::unquoted(text, '`') {
        None => None,
        Some((name, rest)) => match (after(rest, ")"@), after(rest, ", "@)) {
            (Some(behind), _) => Some((seq![name], behind)),
            (None, Some(more)) => if more.len() < text.len() {
                match read_names(more) {
                    None => None,
                    Some((others, behind)) => Some((seq![name] + others, behind)),
                }
            } else {
                None
            },
            (None, None) => None,
        },
    }
}

/// The depth of parentheses behind `text`, where it is not left: a comma or a closing
/// parenthesis outside all of them leaves it.
pub open spec fn level(text: Seq<char>, depth: nat) -> Option<nat>
    decreases text.len(),
{
    if text.len() == 0 {
        Some(depth)
    } else if depth == 0 && (text[0] == ',' || text[0] == ')') {
        None
    } else if text[0] == '(' {
        level(text.skip(1), depth + 1)
    } else if text[0] == ')' {
        level(text.skip(1), (depth - 1) as nat)
    } else {
        level(text.skip(1), depth)
    }
}

/// How many characters at the front of `text` stand ahead of a comma or a closing parenthesis
/// that is outside all parentheses.
pub open spec fn type_end(text: Seq<char>, depth: nat) -> nat
    decreases text.len(),
{
    if text.len() == 0 || depth == 0 && (text[0] == ',' || text[0] == ')') {
        0
    } else if text[0] == '(' {
        1 + type_end(text.skip(1), depth + 1)
    } else if text[0] == ')' {
        1 + type_end(text.skip(1), (depth - 1) as nat)
    } else {
        1 + type_end(text.skip(1), depth)
    }
}

/// The columns at the front of `text`, each a name in back quotes and a type, with commas
/// between them, up to a closing parenthesis, and what stands behind it.
pub open spec fn read_columns(text: Seq<char>) -> Option<
    (Seq<(Seq<char>, Seq<char>)>, Seq<char>),
>
    decreases text.len(),
{
    match safety::unquoted(text, '`') {
        None => None,
        Some((name, rest)) => match after(rest, " "@) {
            None => None,
            Some(rest) => {
                let n = type_end(rest, 0) as int;
                let column = (name, rest.take(n));
                let rest = rest.skip(n);
                match (after(rest, ")"@), after(rest, ", "@)) {
                    (Some(behind), _) => Some((seq![column], behind)),
                    (None, Some(more)) => if more.len() < text.len() {
                        match read_columns(more) {
                            None => None,
                            Some((others, behind)) => Some((seq![column] + others, behind)),
                        }
                    } else {
                        None
                    },
                    (None, None) => None,
                }
            },
        },
    }
}

/// What a statement creates.
pub struct Created {
    pub table: Seq<char>,
    /// The names of the columns and their types.
    pub columns: Seq<(Seq<char>, Seq<char>)>,
    /// The sorting key, which is the primary key too.
    pub order: Seq<Seq<char>>,
    /// Whether of rows with one key the last stays.
    pub replaces: bool,
}

/// The table that a statement creates.
pub open spec fn read_create(text: Seq<char>) -> Option<Created> {
    match after(text, "CREATE TABLE "@) {
        None => None,
        Some(rest) => match safety::unquoted(rest, '`') {
            None => None,
            Some((table, rest)) => match after(rest, " ("@) {
                None => None,
                Some(rest) => match read_columns(rest) {
                    None => None,
                    Some((columns, rest)) => if rest == " ENGINE = MergeTree ORDER BY tuple()"@ {
                        Some(Created { table, columns, order: Seq::empty(), replaces: false })
                    } else {
                        match after(rest, " ENGINE = ReplacingMergeTree ORDER BY ("@) {
                            None => None,
                            Some(rest) => match read_names(rest) {
                                Some((order, behind)) => if behind.len() == 0 {
                                    Some(Created { table, columns, order, replaces: true })
                                } else {
                                    None
                                },
                                None => None,
                            },
                        }
                    },
                },
            },
        },
    }
}

/// The number at the front of `text`, and what stands behind it.
pub open spec fn read_number(text: Seq<char>) -> Option<(nat, Seq<char>)> {
    let n = reading::number_end(text) as int;
    match text::natural(text.take(n)) {
        Some(number) => Some((number, text.skip(n))),
        None => None,
    }
}

/// A page that a statement asks for.
pub struct Selected {
    pub table: Seq<char>,
    pub condition: Option<Condition>,
    pub order: Option<Seq<char>>,
    pub limit: nat,
    pub offset: nat,
}

/// The predicate at the front of `text`, where there is one, and what stands behind it.
pub open spec fn read_where(text: Seq<char>) -> Option<(Option<Condition>, Seq<char>)> {
    match after(text, "WHERE "@) {
        None => Some((None, text)),
        Some(rest) => match reading::read_condition(rest, '`') {
            None => None,
            Some((condition, rest)) => match after(rest, " "@) {
                None => None,
                Some(rest) => Some((Some(condition), rest)),
            },
        },
    }
}

/// The column of an ascending order at the front of `text`, where there is one, and what stands
/// behind it.
pub open spec fn read_order(text: Seq<char>) -> Option<(Option<Seq<char>>, Seq<char>)> {
    match after(text, "ORDER BY "@) {
        None => Some((None, text)),
        Some(rest) => match safety::unquoted(rest, '`') {
            None => None,
            Some((column, rest)) => match after(rest, " ASC "@) {
                None => None,
                Some(rest) => Some((Some(column), rest)),
            },
        },
    }
}

/// The limit and the offset at the front of `text`, and what stands behind them.
pub open spec fn read_window(text: Seq<char>) -> Option<(nat, nat, Seq<char>)> {
    match after(text, "LIMIT "@) {
        None => None,
        Some(rest) => match read_number(rest) {
            None => None,
            Some((limit, rest)) => match after(rest, " OFFSET "@) {
                None => None,
                Some(rest) => match read_number(rest) {
                    None => None,
                    Some((offset, rest)) => Some((limit, offset, rest)),
                },
            },
        },
    }
}

/// The page that a statement asks for.
pub open spec fn read_select(text: Seq<char>) -> Option<Selected> {
    match after(text, "SELECT * FROM "@) {
        None => None,
        Some(rest) => match safety::unquoted(rest, '`') {
            None => None,
            Some((table, rest)) => match after(rest, " FINAL "@) {
                None => None,
                Some(rest) => match read_where(rest) {
                    None => None,
                    Some((condition, rest)) => match read_order(rest) {
                        None => None,
                        Some((order, rest)) => match read_window(rest) {
                            None => None,
                            Some((limit, offset, rest)) => if rest
                                == " SETTINGS output_format_json_quote_64bit_integers = 0 FORMAT JSONEachRow"@ {
                                Some(Selected { table, condition, order, limit, offset })
                            } else {
                                None
                            },
                        },
                    },
                },
            },
        },
    }
}

// === What is created ===

/// The type that a column of a data type is declared with.
pub open spec fn plain_type(data_type: TypeView) -> Seq<char> {
    if data_type is Bool {
        "Bool"@
    } else if data_type is Int64 {
        "Int64"@
    } else if data_type is UInt64 {
        "UInt64"@
    } else if data_type is Float64 {
        "Float64"@
    } else if data_type is Decimal {
        "Decimal(38, 10)"@
    } else if data_type is Timestamp {
        "DateTime64(3)"@
    } else if data_type is Date {
        "Date"@
    } else {
        "String"@
    }
}

/// The type that a field is declared with: one that takes nulls where the field may be null,
/// unless its name is part of the key.
pub open spec fn declared_type(field: FieldView, key: Seq<Seq<char>>) -> Seq<char> {
    if field.nullable && !key.contains(field.name) {
        "Nullable("@ + plain_type(field.data_type) + ")"@
    } else {
        plain_type(field.data_type)
    }
}

/// The names of the fields that are annotated as part of the key, in order.
pub open spec fn key_of(fields: Seq<FieldView>) -> Seq<Seq<char>> {
    fields.filter(|field: FieldView| field.annotations.contains_key("key"@)).map_values(
        |field: FieldView| field.name,
    )
}

/// The rows with which the server lists the columns of what was created.
pub open spec fn listing_by(created: Created) -> Seq<JsonView> {
    created.columns.map_values(
        |column: (Seq<char>, Seq<char>)|
            {
                let flag: u64 = if created.order.contains(column.0) {
                    1
                } else {
                    0
                };
                JsonView::Object(
                    seq![
                        ("is_in_primary_key"@, JsonView::Number(NumberView::PosInt(flag))),
                        ("name"@, JsonView::Str(column.0)),
                        ("type"@, JsonView::Str(column.1)),
                    ],
                )
            },
    )
}

/// Levels add up.
proof fn lemma_level(a: Seq<char>, b: Seq<char>, depth: nat)
    ensures
        level(a, depth) is Some ==> level(a + b, depth) == level(b, level(a, depth)->0),
    decreases a.len(),
{
    if a.len() == 0 {
        assert(a + b =~= b);
    } else {
        assert((a + b).skip(1) =~= a.skip(1) + b);
        assert((a + b)[0] == a[0]);
        if depth == 0 && (a[0] == ',' || a[0] == ')') {
        } else if a[0] == '(' {
            lemma_level(a.skip(1), b, depth + 1);
        } else if a[0] == ')' {
            lemma_level(a.skip(1), b, (depth - 1) as nat);
        } else {
            lemma_level(a.skip(1), b, depth);
        }
    }
}

/// Text without parentheses, and outside all of them without commas, stays at its level.
proof fn lemma_level_plain(a: Seq<char>, depth: nat)
    requires
        forall|i: int| 0 <= i < a.len() ==> #[trigger] a[i] != '(' && a[i] != ')',
        depth > 0 || forall|i: int| 0 <= i < a.len() ==> #[trigger] a[i] != ',',
    ensures
        level(a, depth) == Some(depth),
    decreases a.len(),
{
    if a.len() > 0 {
        let rest = a.skip(1);
        assert forall|i: int| 0 <= i < rest.len() implies #[trigger] rest[i] != '(' && rest[i]
            != ')' && (depth > 0 || rest[i] != ',') by {
            assert(rest[i] == a[i + 1]);
        }
        lemma_level_plain(rest, depth);
    }
}

/// Text in parentheses stays at its level.
proof fn lemma_level_enclosed(head: Seq<char>, inner: Seq<char>, depth: nat)
    requires
        level(head, depth) == Some(depth),
        level(inner, depth + 1) == Some(depth + 1),
    ensures
        level(head + "("@ + inner + ")"@, depth) == Some(depth),
{
    reveal_strlit("(");
    reveal_strlit(")");
    reveal_with_fuel(level, 2);
    assert("("@.skip(1) =~= Seq::empty());
    assert(")"@.skip(1) =~= Seq::empty());
    lemma_level(head, "("@, depth);
    lemma_level(head + "("@, inner, depth);
    lemma_level(head + "("@ + inner, ")"@, depth);
}

/// A text that stays at its level ends ahead of the comma or the parenthesis behind it.
proof fn lemma_type_end(a: Seq<char>, rest: Seq<char>, depth: nat)
    requires
        level(a, depth) == Some(0nat),
        rest.len() > 0,
        rest[0] == ',' || rest[0] == ')',
    ensures
        type_end(a + rest, depth) == a.len(),
    decreases a.len(),
{
    if a.len() == 0 {
        assert(a + rest =~= rest);
    } else {
        assert((a + rest).skip(1) =~= a.skip(1) + rest);
        assert((a + rest)[0] == a[0]);
        if a[0] == '(' {
            lemma_type_end(a.skip(1), rest, depth + 1);
        } else if a[0] == ')' {
            lemma_type_end(a.skip(1), rest, (depth - 1) as nat);
        } else {
            lemma_type_end(a.skip(1), rest, depth);
        }
    }
}

/// The types that columns are declared with stay at their level.
proof fn lemma_plain_type_level(data_type: TypeView, depth: nat)
    ensures
        level(plain_type(data_type), depth) == Some(depth),
{
    reveal_strlit("Bool");
    reveal_strlit("Int64");
    reveal_strlit("UInt64");
    reveal_strlit("Float64");
    reveal_strlit("Decimal(38, 10)");
    reveal_strlit("Decimal");
    reveal_strlit("38, 10");
    reveal_strlit("String");
    reveal_strlit("DateTime64(3)");
    reveal_strlit("DateTime64");
    reveal_strlit("3");
    reveal_strlit("Date");
    reveal_strlit("(");
    reveal_strlit(")");
    if data_type is Decimal {
        assert("Decimal(38, 10)"@ =~= "Decimal"@ + "("@ + "38, 10"@ + ")"@);
        lemma_level_plain("Decimal"@, depth);
        lemma_level_plain("38, 10"@, depth + 1);
        lemma_level_enclosed("Decimal"@, "38, 10"@, depth);
    } else if data_type is Timestamp {
        assert("DateTime64(3)"@ =~= "DateTime64"@ + "("@ + "3"@ + ")"@);
        lemma_level_plain("DateTime64"@, depth);
        lemma_level_plain("3"@, depth + 1);
        lemma_level_enclosed("DateTime64"@, "3"@, depth);
    } else {
        lemma_level_plain(plain_type(data_type), depth);
    }
}

/// The type of a new column is the declared one, and stays at its level.
proof fn lemma_column_type(field: FieldView, keys: Seq<Seq<char>>)
    ensures
        clickhouse::column_type(field, keys) == declared_type(field, keys),
        level(declared_type(field, keys), 0) == Some(0nat),
{
    lemma_plain_type_level(field.data_type, 0);
    lemma_plain_type_level(field.data_type, 1);
    if field.nullable && !keys.contains(field.name) {
        reveal_strlit("Nullable(");
        reveal_strlit("Nullable");
        reveal_strlit("(");
        let inner = plain_type(field.data_type);
        assert("Nullable("@ =~= "Nullable"@ + "("@);
        lemma_level_plain("Nullable"@, 0);
        lemma_level_enclosed("Nullable"@, inner, 0);
    }
}

/// The names of a key are those of the annotated fields, in order.
proof fn lemma_key_of(fields: Seq<FieldView>)
    ensures
        schema::key_names(fields) == key_of(fields),
{
    schema::keys_are_the_annotated_fields(fields);
}

/// The definitions of the columns from the one at `k` on read back as those columns.
proof fn lemma_columns(fields: Seq<FieldView>, k: int, rest: Seq<char>)
    requires
        0 <= k < fields.len(),
    ensures
        read_columns(
            text::joined(clickhouse::column_texts(fields).skip(k), ", "@) + ")"@ + rest,
        ) == Some(
            (
                fields.skip(k).map_values(
                    |field: FieldView|
                        (field.name, declared_type(field, schema::key_names(fields))),
                ),
                rest,
            ),
        ),
    decreases fields.len() - k,
{
    let keys = schema::key_names(fields);
    let texts = clickhouse::column_texts(fields);
    let field = fields[k];
    let declared = declared_type(field, keys);
    let column = (field.name, declared);
    let columns = fields.skip(k).map_values(
        |field: FieldView| (field.name, declared_type(field, schema::key_names(fields))),
    );
    let whole = text::joined(texts.skip(k), ", "@) + ")"@ + rest;
    reveal_strlit(" ");
    reveal_strlit(")");
    reveal_strlit(", ");
    lemma_column_type(field, keys);
    assert(texts[k] == sql::quoted(field.name, '`') + " "@ + declared);
    let (behind, others) = if k + 1 == fields.len() {
        assert(texts.skip(k).len() == 1);
        assert(columns =~= seq![column]);
        (")"@ + rest, Seq::empty())
    } else {
        lemma_columns(fields, k + 1, rest);
        text::lemma_joined_front(texts.skip(k), ", "@);
        assert(texts.skip(k).drop_first() =~= texts.skip(k + 1));
        let others = fields.skip(k + 1).map_values(
            |field: FieldView| (field.name, declared_type(field, schema::key_names(fields))),
        );
        assert(columns =~= seq![column] + others);
        (", "@ + (text::joined(texts.skip(k + 1), ", "@) + ")"@ + rest), others)
    };
    let typed = declared + behind;
    let named = " "@ + typed;
    assert(whole =~= sql::quoted(field.name, '`') + named);
    safety::quoting_reads_back(field.name, '`', named);
    lemma_after(" "@, typed);
    lemma_type_end(declared, behind, 0);
    assert(typed.take(declared.len() as int) =~= declared);
    assert(typed.skip(declared.len() as int) =~= behind);
    if k + 1 == fields.len() {
        lemma_after(")"@, rest);
    } else {
        let more = text::joined(texts.skip(k + 1), ", "@) + ")"@ + rest;
        lemma_after(", "@, more);
        lemma_not_after(behind, ")"@);
        assert(more.len() < whole.len());
    }
}

/// A list of quoted names from the one at `k` on reads back as those names.
proof fn lemma_names(names: Seq<Seq<char>>, k: int, rest: Seq<char>)
    requires
        0 <= k < names.len(),
    ensures
        read_names(sql::quoted_list(names.skip(k), '`') + ")"@ + rest) == Some(
            (names.skip(k), rest),
        ),
    decreases names.len() - k,
{
    let texts = names.map_values(|name: Seq<char>| sql::quoted(name, '`'));
    let left = names.skip(k);
    let shown = left.map_values(|name: Seq<char>| sql::quoted(name, '`'));
    assert(shown =~= texts.skip(k));
    let whole = sql::quoted_list(left, '`') + ")"@ + rest;
    reveal_strlit(")");
    reveal_strlit(", ");
    if k + 1 == names.len() {
        assert(shown.len() == 1);
        let behind = ")"@ + rest;
        assert(whole =~= sql::quoted(names[k], '`') + behind);
        safety::quoting_reads_back(names[k], '`', behind);
        lemma_after(")"@, rest);
        assert(left =~= seq![names[k]]);
    } else {
        lemma_names(names, k + 1, rest);
        text::lemma_joined_front(shown, ", "@);
        let next = names.skip(k + 1);
        assert(shown.drop_first() =~= next.map_values(
            |name: Seq<char>| sql::quoted(name, '`'),
        ));
        let more = sql::quoted_list(next, '`') + ")"@ + rest;
        let behind = ", "@ + more;
        assert(whole =~= sql::quoted(names[k], '`') + behind);
        safety::quoting_reads_back(names[k], '`', behind);
        lemma_after(", "@, more);
        lemma_not_after(behind, ")"@);
        assert(left =~= seq![names[k]] + next);
    }
}

/// A created table is the one of the schema: it has its name, a column for each field in order
/// with the declared type, and, as its sorting key, the fields that are annotated as part of the
/// key, all of them and in order. Where there are any, of rows with one key the last stays.
pub proof fn created_tables_read_back(table: Seq<char>, fields: Seq<FieldView>)
    requires
        fields.len() > 0,
    ensures
        read_create(clickhouse::create_text(table, fields)) == Some(
            Created {
                table,
                columns: fields.map_values(
                    |field: FieldView| (field.name, declared_type(field, key_of(fields))),
                ),
                order: key_of(fields),
                replaces: exists|i: int|
                    0 <= i < fields.len() && (
                    #[trigger] fields[i]).annotations.contains_key("key"@),
            },
        ),
{
    let keys = schema::key_names(fields);
    lemma_key_of(fields);
    lemma_some_key(fields);
    let columns = fields.map_values(
        |field: FieldView| (field.name, declared_type(field, key_of(fields))),
    );
    let text = clickhouse::create_text(table, fields);
    let texts = clickhouse::column_texts(fields);
    reveal_strlit("CREATE TABLE ");
    reveal_strlit(" (");
    reveal_strlit(") ");
    reveal_strlit(")");
    reveal_strlit(" ");
    reveal_strlit("ENGINE = MergeTree ORDER BY tuple()");
    reveal_strlit(" ENGINE = MergeTree ORDER BY tuple()");
    reveal_strlit("ENGINE = ReplacingMergeTree ORDER BY (");
    reveal_strlit(" ENGINE = ReplacingMergeTree ORDER BY (");
    let engine = " "@ + clickhouse::engine_text(keys);
    let body = text::joined(texts, ", "@) + ")"@ + engine;
    let opened = " ("@ + body;
    let named = sql::quoted(table, '`') + opened;
    assert(") "@ =~= ")"@ + " "@);
    assert(text =~= "CREATE TABLE "@ + named);
    lemma_after("CREATE TABLE "@, named);
    safety::quoting_reads_back(table, '`', opened);
    lemma_after(" ("@, body);
    lemma_columns(fields, 0, engine);
    assert(texts.skip(0) =~= texts);
    assert(fields.skip(0).map_values(
        |field: FieldView| (field.name, declared_type(field, schema::key_names(fields))),
    ) =~= columns);
    if keys.len() == 0 {
        assert(engine =~= " ENGINE = MergeTree ORDER BY tuple()"@);
        assert(keys =~= Seq::empty());
    } else {
        let head = " ENGINE = ReplacingMergeTree ORDER BY ("@;
        let list = sql::quoted_list(keys, '`') + ")"@;
        assert(engine =~= head + list);
        lemma_after(head, list);
        assert(engine[10] == 'R');
        assert(" ENGINE = MergeTree ORDER BY tuple()"@[10] == 'M');
        lemma_names(keys, 0, Seq::empty());
        assert(keys.skip(0) =~= keys);
        assert(list + Seq::<char>::empty() =~= list);
    }
}

/// There are key names where a field is annotated as part of the key.
proof fn lemma_some_key(fields: Seq<FieldView>)
    ensures
        schema::key_names(fields).len() > 0 <==> exists|i: int|
            0 <= i < fields.len() && (#[trigger] fields[i]).annotations.contains_key("key"@),
    decreases fields.len(),
{
    if fields.len() > 0 {
        let fewer = fields.drop_last();
        lemma_some_key(fewer);
        if schema::key_names(fewer).len() > 0 {
            let i = choose|i: int|
                0 <= i < fewer.len() && (
                #[trigger] fewer[i]).annotations.contains_key("key"@);
            assert(fields[i].annotations.contains_key("key"@));
        }
        if fields.last().annotations.contains_key("key"@) {
            assert(fields[fields.len() - 1].annotations.contains_key("key"@));
        }
        if exists|i: int|
            0 <= i < fields.len() && (#[trigger] fields[i]).annotations.contains_key("key"@) {
            let i = choose|i: int|
                0 <= i < fields.len() && (
                #[trigger] fields[i]).annotations.contains_key("key"@);
            if i < fewer.len() {
                assert(fewer[i].annotations.contains_key("key"@));
            }
        }
    }
}

/// What the server lists of a created table follows from the statement: where the names differ,
/// the columns that come back are the fields in order, and the key that comes back is the key
/// of the schema, all of it.
pub proof fn created_keys_follow_from_the_statement(table: Seq<char>, fields: Seq<FieldView>)
    requires
        fields.len() > 0,
        forall|i: int, j: int|
            0 <= i < j < fields.len() ==> (#[trigger] fields[i]).name != (
            #[trigger] fields[j]).name,
    ensures
        ({
            let created = read_create(clickhouse::create_text(table, fields));
            let columns = clickhouse::columns_in(listing_by(created->0));
            &&& created is Some
            &&& columns is Ok
            &&& columns->Ok_0.len() == fields.len()
            &&& forall|i: int|
                0 <= i < fields.len() ==> {
                    &&& (#[trigger] columns->Ok_0[i]).name == fields[i].name
                    &&& columns->Ok_0[i].annotations.contains_key("key"@)
                        == fields[i].annotations.contains_key("key"@)
                }
            &&& key_of(columns->Ok_0) == key_of(fields)
        }),
{
    created_tables_read_back(table, fields);
    lemma_key_of(fields);
    let created = read_create(clickhouse::create_text(table, fields))->0;
    assert(listing_by(created) =~= clickhouse::listing_of(fields)) by {
        assert forall|i: int| 0 <= i < fields.len() implies #[trigger] listing_by(created)[i]
            == clickhouse::listing_of(fields)[i] by {
            lemma_column_type(fields[i], key_of(fields));
        }
    }
    clickhouse::created_keys_come_back(fields);
    clickhouse::created_columns_come_back(fields);
    let columns = clickhouse::columns_in(listing_by(created))->Ok_0;
    lemma_key_of(columns);
    assert forall|i: int| 0 <= i < fields.len() implies {
        &&& (#[trigger] columns[i]).name == fields[i].name
        &&& columns[i].annotations.contains_key("key"@)
            == fields[i].annotations.contains_key("key"@)
    } by {
        lemma_key_has(fields, fields[i].name);
        let keys = key_of(fields);
        assert(columns[i] == clickhouse::returned_field(fields[i], keys));
        if fields[i].annotations.contains_key("key"@) {
            assert(keys.contains(fields[i].name));
        }
        if keys.contains(fields[i].name) {
            let j = choose|j: int|
                0 <= j < fields.len() && (
                #[trigger] fields[j]).annotations.contains_key("key"@) && fields[j].name
                    == fields[i].name;
            assert(i == j);
        }
    }
}

/// A name is in the key where an annotated field has it.
proof fn lemma_key_has(fields: Seq<FieldView>, name: Seq<char>)
    ensures
        key_of(fields).contains(name) <==> exists|i: int|
            0 <= i < fields.len() && (#[trigger] fields[i]).annotations.contains_key("key"@)
                && fields[i].name == name,
{
    let annotated = |field: FieldView| field.annotations.contains_key("key"@);
    let kept = fields.filter(annotated);
    if key_of(fields).contains(name) {
        let k = choose|k: int| 0 <= k < key_of(fields).len() && key_of(fields)[k] == name;
        assert(kept[k].name == name);
        assert(kept.contains(kept[k]));
        fields.lemma_filter_contains_rev(annotated, kept[k]);
        fields.lemma_filter_pred(annotated, k);
        let i = choose|i: int| 0 <= i < fields.len() && fields[i] == kept[k];
        assert(fields[i].annotations.contains_key("key"@));
    }
    if exists|i: int|
        0 <= i < fields.len() && (#[trigger] fields[i]).annotations.contains_key("key"@)
            && fields[i].name == name {
        let i = choose|i: int|
            0 <= i < fields.len() && (#[trigger] fields[i]).annotations.contains_key("key"@)
                && fields[i].name == name;
        fields.lemma_filter_contains(annotated, i);
        let k = choose|k: int| 0 <= k < kept.len() && kept[k] == fields[i];
        assert(key_of(fields)[k] == name);
    }
}

// === What is read ===

/// A number in decimal reads back as the number.
proof fn lemma_number(n: nat, rest: Seq<char>)
    requires
        reading::apart(rest),
    ensures
        read_number(text::decimal(n) + rest) == Some((n, rest)),
{
    text::decimals_read_back(n as int);
    let token = text::decimal(n);
    assert(token == text::signed_decimal(n as int));
    assert forall|i: int| 0 <= i < token.len() implies reading::in_number(#[trigger] token[i]) by {
        assert(text::is_digit(token[i]) || token[i] == '-');
    }
    reading::lemma_number_end(token, rest);
    assert((token + rest).take(token.len() as int) =~= token);
    assert((token + rest).skip(token.len() as int) =~= rest);
}

/// The limit and the offset read back as they were.
proof fn lemma_window(limit: nat, offset: nat, tail: Seq<char>)
    requires
        reading::apart(tail),
    ensures
        read_window(
            "LIMIT "@ + (text::decimal(limit) + (" OFFSET "@ + (text::decimal(offset) + tail))),
        ) == Some((limit, offset, tail)),
{
    reveal_strlit(" OFFSET ");
    let offset_text = text::decimal(offset) + tail;
    let limit_text = text::decimal(limit) + (" OFFSET "@ + offset_text);
    lemma_number(offset, tail);
    lemma_after(" OFFSET "@, offset_text);
    lemma_number(limit, " OFFSET "@ + offset_text);
    lemma_after("LIMIT "@, limit_text);
}

/// The order reads back as it was.
proof fn lemma_order(column: Option<Seq<char>>, rest: Seq<char>)
    requires
        rest.len() > 0,
        rest[0] == 'L',
    ensures
        read_order(clickhouse::order_text(column) + rest) == Some((column, rest)),
        (clickhouse::order_text(column) + rest).len() > 0,
        (clickhouse::order_text(column) + rest)[0] != 'W',
{
    reveal_strlit("ORDER BY ");
    reveal_strlit(" ASC ");
    let ordered = clickhouse::order_text(column) + rest;
    match column {
        Some(column) => {
            let sorted = " ASC "@ + rest;
            let quoted = sql::quoted(column, '`') + sorted;
            assert(ordered =~= "ORDER BY "@ + quoted);
            lemma_after("ORDER BY "@, quoted);
            safety::quoting_reads_back(column, '`', sorted);
            lemma_after(" ASC "@, rest);
        },
        None => {
            assert(ordered =~= rest);
            lemma_not_after(rest, "ORDER BY "@);
        },
    }
}

/// The predicate reads back as what it stands for.
proof fn lemma_where(predicate: Option<FilterView>, rest: Seq<char>)
    requires
        filter::where_text(predicate, '`') is Ok,
        rest.len() > 0,
        rest[0] != 'W',
    ensures
        read_where(filter::where_text(predicate, '`')->Ok_0 + rest) == Some(
            (
                match predicate {
                    Some(predicate) => Some(reading::meaning(predicate)),
                    None => None,
                },
                rest,
            ),
        ),
{
    reveal_strlit("WHERE ");
    reveal_strlit(" ");
    let filtered = filter::where_text(predicate, '`')->Ok_0 + rest;
    match predicate {
        Some(predicate) => {
            let expression = filter::sql_text(predicate, '`')->Ok_0;
            let behind = " "@ + rest;
            assert(filtered =~= "WHERE "@ + (expression + behind));
            lemma_after("WHERE "@, expression + behind);
            reading::predicates_read_back_ahead(predicate, '`', behind);
            lemma_after(" "@, rest);
        },
        None => {
            assert(filtered =~= rest);
            lemma_not_after(rest, "WHERE "@);
        },
    }
}

/// Texts are put together in whatever order.
proof fn lemma_regroup(
    a: Seq<char>,
    b: Seq<char>,
    c: Seq<char>,
    d: Seq<char>,
    e: Seq<char>,
    f: Seq<char>,
    g: Seq<char>,
    h: Seq<char>,
    i: Seq<char>,
    j: Seq<char>,
)
    ensures
        a + b + c + d + e + f + g + h + i + j == a + (b + (c + (d + (e + (f + (g + (h + (i
            + j)))))))),
{
    let right = g + (h + (i + j));
    assert(g + h + i + j =~= right);
    assert(f + g + h + i + j =~= f + right);
    assert(a + b + c + d + e + f + g + h + i + j =~= a + b + c + d + e + (f + right));
    let more = e + (f + right);
    assert(a + b + c + d + e + (f + right) =~= a + b + c + d + more);
    assert(a + b + c + d + more =~= a + (b + (c + (d + more))));
}

/// A page is read from the table that was asked for, and all of what was asked for is in the
/// statement: the rows that the predicate accepts, in ascending order of the cursor column where
/// there is one, as many as the limit from the offset on.
pub proof fn page_statements_read_back(
    table: Seq<char>,
    offset: u32,
    limit: u32,
    column: Option<Seq<char>>,
    predicate: Option<FilterView>,
)
    requires
        clickhouse::rows_text(table, offset, limit, column, predicate) is Ok,
    ensures
        read_select(clickhouse::rows_text(table, offset, limit, column, predicate)->Ok_0) == Some(
            Selected {
                table,
                condition: match predicate {
                    Some(predicate) => Some(reading::meaning(predicate)),
                    None => None,
                },
                order: column,
                limit: limit as nat,
                offset: offset as nat,
            },
        ),
{
    let tail = " SETTINGS output_format_json_quote_64bit_integers = 0 FORMAT JSONEachRow"@;
    assert(tail.len() > 0 && tail[0] == ' ') by {
        reveal_strlit(
            " SETTINGS output_format_json_quote_64bit_integers = 0 FORMAT JSONEachRow",
        );
    }
    let text = clickhouse::rows_text(table, offset, limit, column, predicate)->Ok_0;
    let window = "LIMIT "@ + (text::decimal(limit as nat) + (" OFFSET "@ + (text::decimal(
        offset as nat,
    ) + tail)));
    assert(window[0] == 'L') by {
        reveal_strlit("LIMIT ");
    }
    lemma_window(limit as nat, offset as nat, tail);
    let ordered = clickhouse::order_text(column) + window;
    lemma_order(column, window);
    let filtered = filter::where_text(predicate, '`')->Ok_0 + ordered;
    lemma_where(predicate, ordered);
    let behind = " FINAL "@ + filtered;
    let named = sql::quoted(table, '`') + behind;
    assert(behind[0] == ' ') by {
        reveal_strlit(" FINAL ");
    }
    assert(text == "SELECT * FROM "@ + named) by {
        lemma_regroup(
            "SELECT * FROM "@,
            sql::quoted(table, '`'),
            " FINAL "@,
            filter::where_text(predicate, '`')->Ok_0,
            clickhouse::order_text(column),
            "LIMIT "@,
            text::decimal(limit as nat),
            " OFFSET "@,
            text::decimal(offset as nat),
            tail,
        );
    }
    lemma_after("SELECT * FROM "@, named);
    safety::quoting_reads_back(table, '`', behind);
    lemma_after(" FINAL "@, filtered);
}

/// A page is refused exactly where its predicate is, with the message that refuses it.
pub proof fn pages_are_refused_with_their_predicate(
    table: Seq<char>,
    offset: u32,
    limit: u32,
    column: Option<Seq<char>>,
    predicate: Option<FilterView>,
)
    ensures
        match clickhouse::rows_text(table, offset, limit, column, predicate) {
            Ok(_) => predicate is Some ==> filter::sql_text(predicate->0, '`') is Ok,
            Err(message) => predicate is Some && filter::sql_text(predicate->0, '`') == Err::<
                Seq<char>,
                Seq<char>,
            >(message),
        },
{
}

/// The columns of a table are asked for by its name, whatever it holds.
pub proof fn column_listings_name_their_table(table: Seq<char>)
    ensures
        ({
            let rest = after(
                clickhouse::columns_text(table),
                "SELECT name, type, is_in_primary_key FROM system.columns WHERE database = currentDatabase() AND table = "@,
            );
            &&& rest is Some
            &&& safety::unquoted(rest->0, '\'') == Some(
                (table, " ORDER BY position FORMAT JSONEachRow"@),
            )
        }),
{
    let head = "SELECT name, type, is_in_primary_key FROM system.columns WHERE database = currentDatabase() AND table = "@;
    let tail = " ORDER BY position FORMAT JSONEachRow"@;
    reveal_strlit(" ORDER BY position FORMAT JSONEachRow");
    assert(clickhouse::columns_text(table) =~= head + (sql::quoted(table, '\'') + tail));
    lemma_after(head, sql::quoted(table, '\'') + tail);
    safety::quoting_reads_back(table, '\'', tail);
}

// === What is written ===

/// Whether `stored` is what a column keeps of a value: text for a value of a nested column, and
/// the value itself otherwise.
pub open spec fn keeps(data_type: TypeView, value: JsonView, stored: JsonView) -> bool {
    if (data_type is Json || data_type is List || data_type is Struct) && !(value is Null) {
        stored == JsonView::Str(json::json_rendered(value))
    } else {
        stored == value
    }
}

/// Whether `line` is a row as it is inserted: an object with a member for each field, in order
/// and by its name, that keeps the value of the row, or null where the row has none.
pub open spec fn is_line(fields: Seq<FieldView>, row: JsonView, line: JsonView) -> bool {
    &&& line is Object
    &&& line->Object_0.len() == fields.len()
    &&& forall|k: int|
        0 <= k < fields.len() ==> {
            &&& (#[trigger] line->Object_0[k]).0 == fields[k].name
            &&& keeps(
                fields[k].data_type,
                match row.member(fields[k].name) {
                    Some(value) => value,
                    None => JsonView::Null,
                },
                line->Object_0[k].1,
            )
        }
}

/// The values one behind the other, each on a line of its own.
pub open spec fn written(lines: Seq<JsonView>) -> Seq<char> {
    lines.map_values(|line: JsonView| json::json_rendered(line) + "\n"@).flatten()
}

/// The lines of an insert are its rows, each on a line of its own, in order.
proof fn lemma_lines(fields: Seq<FieldView>, rows: Seq<JsonView>)
    ensures
        exists|lines: Seq<JsonView>|
            {
                &&& lines.len() == rows.len()
                &&& forall|i: int|
                    0 <= i < rows.len() ==> is_line(fields, rows[i], #[trigger] lines[i])
                &&& clickhouse::lines_text(fields, rows) == #[trigger] written(lines)
            },
    decreases rows.len(),
{
    if rows.len() == 0 {
        let lines = Seq::<JsonView>::empty();
        assert(written(lines) =~= Seq::<char>::empty());
    } else {
        let fewer = rows.drop_last();
        lemma_lines(fields, fewer);
        let before = choose|lines: Seq<JsonView>|
            {
                &&& lines.len() == fewer.len()
                &&& forall|i: int|
                    0 <= i < fewer.len() ==> is_line(fields, fewer[i], #[trigger] lines[i])
                &&& clickhouse::lines_text(fields, fewer) == #[trigger] written(lines)
            };
        let last = clickhouse::stored_row(fields, rows.last());
        let lines = before.push(last);
        let texts = before.map_values(|line: JsonView| json::json_rendered(line) + "\n"@);
        let text = json::json_rendered(last) + "\n"@;
        assert(lines.map_values(|line: JsonView| json::json_rendered(line) + "\n"@)
            =~= texts.push(text));
        texts.lemma_flatten_push(text);
        assert(written(lines) == texts.flatten() + text);
        assert(clickhouse::lines_text(fields, rows) =~= texts.flatten() + text);
        assert(clickhouse::lines_text(fields, rows) == written(lines));
        assert forall|i: int| 0 <= i < rows.len() implies is_line(
            fields,
            rows[i],
            #[trigger] lines[i],
        ) by {
            if i < fewer.len() {
                assert(is_line(fields, fewer[i], before[i]));
            }
        }
    }
}

/// An insert names its table and holds every row once, in order, each as a line with a value
/// for every field. There is an insert exactly where there are rows.
pub proof fn inserts_hold_every_row(
    table: Seq<char>,
    fields: Seq<FieldView>,
    rows: Seq<JsonView>,
)
    ensures
        clickhouse::insert_text(table, fields, rows) is Some <==> rows.len() > 0,
        rows.len() > 0 ==> {
            let rest = after(clickhouse::insert_text(table, fields, rows)->0, "INSERT INTO "@);
            let behind = safety::unquoted(rest->0, '`');
            &&& rest is Some
            &&& behind is Some
            &&& (behind->0).0 == table
            &&& exists|lines: Seq<JsonView>|
                {
                    &&& lines.len() == rows.len()
                    &&& forall|i: int|
                        0 <= i < rows.len() ==> is_line(fields, rows[i], #[trigger] lines[i])
                    &&& (behind->0).1 == " FORMAT JSONEachRow\n"@ + #[trigger] written(lines)
                }
        },
{
    if rows.len() > 0 {
        reveal_strlit(" FORMAT JSONEachRow\n");
        lemma_lines(fields, rows);
        let lines = choose|lines: Seq<JsonView>|
            {
                &&& lines.len() == rows.len()
                &&& forall|i: int|
                    0 <= i < rows.len() ==> is_line(fields, rows[i], #[trigger] lines[i])
                &&& clickhouse::lines_text(fields, rows) == #[trigger] written(lines)
            };
        let body = " FORMAT JSONEachRow\n"@ + clickhouse::lines_text(fields, rows);
        let named = sql::quoted(table, '`') + body;
        assert(clickhouse::insert_text(table, fields, rows)->0 =~= "INSERT INTO "@ + named);
        lemma_after("INSERT INTO "@, named);
        safety::quoting_reads_back(table, '`', body);
        assert(body == " FORMAT JSONEachRow\n"@ + written(lines));
    }
}

} // verus!
