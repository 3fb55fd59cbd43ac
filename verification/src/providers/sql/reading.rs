//! What the SQL of a predicate means.
//!
//! The text is read back as a database reads it, character by character, and without regard to
//! how it was put together. Every predicate that has a text is what the text reads as.

use vstd::prelude::*;

use crate::json::{self, JsonView, NumberView};
use crate::providers::sql;
use crate::providers::sql::filter::{self, FilterView, Op};
use crate::providers::sql::safety;
use crate::text;

verus! {

/// A literal in SQL text.
pub enum Literal {
    Text(Seq<char>),
    /// A number without a fraction and an exponent.
    Whole(int),
    /// Any other number, as it is written.
    Written(Seq<char>),
    Truth(bool),
    Null,
}

/// A boolean expression in SQL text.
pub enum Condition {
    /// All of them hold.
    All(Seq<Condition>),
    /// One of them holds.
    Any(Seq<Condition>),
    /// A comparison of a column.
    Compare { column: Seq<char>, op: Op, operands: Seq<Literal> },
}

// === The reader ===

/// Whether `c` can stand in a number.
pub open spec fn in_number(c: char) -> bool {
    text::is_digit(c) || c == '-' || c == '+' || c == '.' || c == 'e' || c == 'E'
}

/// How many characters at the front of `text` can stand in a number.
pub open spec fn number_end(text: Seq<char>) -> nat
    decreases text.len(),
{
    if text.len() > 0 && in_number(text[0]) {
        1 + number_end(text.skip(1))
    } else {
        0
    }
}

/// The number that is written as `token`.
pub open spec fn numeral(token: Seq<char>) -> Literal {
    match text::integer(token) {
        Some(n) => Literal::Whole(n),
        None => Literal::Written(token),
    }
}

/// The literal at the front of `text`, and what stands behind it.
#[verifier::opaque]
pub open spec fn read_literal(text: Seq<char>) -> Option<(Literal, Seq<char>)> {
    if text.len() > 0 && text[0] == '\'' {
        match safety::unquoted(text, '\'') {
            Some((s, rest)) => Some((Literal::Text(s), rest)),
            None => None,
        }
    } else if "TRUE"@.is_prefix_of(text) {
        Some((Literal::Truth(true), text.skip(4)))
    } else if "FALSE"@.is_prefix_of(text) {
        Some((Literal::Truth(false), text.skip(5)))
    } else if "NULL"@.is_prefix_of(text) {
        Some((Literal::Null, text.skip(4)))
    } else {
        let n = number_end(text) as int;
        if n > 0 {
            Some((numeral(text.take(n)), text.skip(n)))
        } else {
            None
        }
    }
}

/// The literals at the front of `text`, with commas between them, up to a closing parenthesis,
/// and what stands behind it.
pub open spec fn read_literals(text: Seq<char>) -> Option<(Seq<Literal>, Seq<char>)>
    decreases text.len(),
{
    match read_literal(text) {
        None => None,
        Some((first, rest)) => if ")"@.is_prefix_of(rest) {
            Some((seq![first], rest.skip(1)))
        } else if ", "@.is_prefix_of(rest) && rest.skip(2).len() < text.len() {
            match read_literals(rest.skip(2)) {
                None => None,
                Some((others, behind)) => Some((seq![first] + others, behind)),
            }
        } else {
            None
        },
    }
}

/// The operator at the front of `text`, and what stands behind it.
#[verifier::opaque]
pub open spec fn read_op(text: Seq<char>) -> Option<(Op, Seq<char>)> {
    if " = "@.is_prefix_of(text) {
        Some((Op::Eq, text.skip(3)))
    } else if " <> "@.is_prefix_of(text) {
        Some((Op::Ne, text.skip(4)))
    } else if " < "@.is_prefix_of(text) {
        Some((Op::Lt, text.skip(3)))
    } else if " <= "@.is_prefix_of(text) {
        Some((Op::Lte, text.skip(4)))
    } else if " > "@.is_prefix_of(text) {
        Some((Op::Gt, text.skip(3)))
    } else if " >= "@.is_prefix_of(text) {
        Some((Op::Gte, text.skip(4)))
    } else if " LIKE "@.is_prefix_of(text) {
        Some((Op::Like, text.skip(6)))
    } else if " IN ("@.is_prefix_of(text) {
        Some((Op::In, text.skip(5)))
    } else if " NOT IN ("@.is_prefix_of(text) {
        Some((Op::NotIn, text.skip(9)))
    } else if " IS NULL"@.is_prefix_of(text) {
        Some((Op::IsNull, text.skip(8)))
    } else if " IS NOT NULL"@.is_prefix_of(text) {
        Some((Op::NotNull, text.skip(12)))
    } else {
        None
    }
}

/// The operands of `op` at the front of `text`, and what stands behind them.
pub open spec fn read_operands(op: Op, text: Seq<char>) -> Option<(Seq<Literal>, Seq<char>)> {
    match op {
        Op::IsNull | Op::NotNull => Some((Seq::empty(), text)),
        Op::In | Op::NotIn => read_literals(text),
        _ => match read_literal(text) {
            None => None,
            Some((literal, rest)) => Some((seq![literal], rest)),
        },
    }
}

/// The comparison at the front of `text`, and what stands behind it.
pub open spec fn read_comparison(text: Seq<char>, ident: char) -> Option<(Condition, Seq<char>)> {
    match safety::unquoted(text, ident) {
        None => None,
        Some((column, rest)) => match read_op(rest) {
            None => None,
            Some((op, rest)) => match read_operands(op, rest) {
                None => None,
                Some((operands, rest)) => Some(
                    (Condition::Compare { column, op, operands }, rest),
                ),
            },
        },
    }
}

/// The expression at the front of `text`, and what stands behind it. An expression in
/// parentheses is a group; with a single part it is that part.
pub open spec fn read_condition(text: Seq<char>, ident: char) -> Option<(Condition, Seq<char>)>
    decreases text.len(), 0int,
{
    if text.len() > 0 && text[0] == '(' {
        match read_condition(text.skip(1), ident) {
            None => None,
            Some((first, rest)) => if ")"@.is_prefix_of(rest) {
                Some((first, rest.skip(1)))
            } else if " AND "@.is_prefix_of(rest) && rest.skip(5).len() < text.len() {
                match read_parts(rest.skip(5), " AND "@, ident) {
                    None => None,
                    Some((others, behind)) => Some(
                        (Condition::All(seq![first] + others), behind),
                    ),
                }
            } else if " OR "@.is_prefix_of(rest) && rest.skip(4).len() < text.len() {
                match read_parts(rest.skip(4), " OR "@, ident) {
                    None => None,
                    Some((others, behind)) => Some(
                        (Condition::Any(seq![first] + others), behind),
                    ),
                }
            } else {
                None
            },
        }
    } else {
        read_comparison(text, ident)
    }
}

/// The expressions at the front of `text`, with `between` between them, up to a closing
/// parenthesis, and what stands behind it.
pub open spec fn read_parts(text: Seq<char>, between: Seq<char>, ident: char) -> Option<
    (Seq<Condition>, Seq<char>),
>
    decreases text.len(), 1int,
{
    match read_condition(text, ident) {
        None => None,
        Some((first, rest)) => if ")"@.is_prefix_of(rest) {
            Some((seq![first], rest.skip(1)))
        } else if between.is_prefix_of(rest) && rest.skip(between.len() as int).len()
            < text.len() {
            match read_parts(rest.skip(between.len() as int), between, ident) {
                None => None,
                Some((others, behind)) => Some((seq![first] + others, behind)),
            }
        } else {
            None
        },
    }
}

// === What a predicate means ===

/// The literal that a scalar stands for.
pub open spec fn literal_of(value: JsonView) -> Literal {
    match value {
        JsonView::Str(s) => Literal::Text(s),
        JsonView::Bool(b) => Literal::Truth(b),
        JsonView::Number(NumberView::PosInt(n)) => Literal::Whole(n as int),
        JsonView::Number(NumberView::NegInt(n)) => Literal::Whole(n as int),
        JsonView::Number(NumberView::Float(token)) => numeral(token),
        _ => Literal::Null,
    }
}

/// The literals that the value of a comparison stands for: none where the operator takes none,
/// the items of an array where it takes a list.
pub open spec fn operands_of(op: Op, value: JsonView) -> Seq<Literal> {
    match op {
        Op::IsNull | Op::NotNull => Seq::empty(),
        Op::In | Op::NotIn => value->Array_0.map_values(|item: JsonView| literal_of(item)),
        _ => seq![literal_of(value)],
    }
}

/// The expression that a predicate stands for. A group of one part is that part.
pub open spec fn meaning(predicate: FilterView) -> Condition
    decreases predicate,
{
    match predicate {
        FilterView::And(parts) => if parts.len() == 1 {
            meaning(parts[0])
        } else {
            Condition::All(
                Seq::new(
                    parts.len(),
                    |i: int|
                        if 0 <= i < parts.len() {
                            meaning(parts[i])
                        } else {
                            arbitrary()
                        },
                ),
            )
        },
        FilterView::Or(parts) => if parts.len() == 1 {
            meaning(parts[0])
        } else {
            Condition::Any(
                Seq::new(
                    parts.len(),
                    |i: int|
                        if 0 <= i < parts.len() {
                            meaning(parts[i])
                        } else {
                            arbitrary()
                        },
                ),
            )
        },
        FilterView::Cmp { field, op, value } => Condition::Compare {
            column: field,
            op,
            operands: operands_of(op, value),
        },
    }
}

/// Whether a predicate accepts a row, where `holds` says which comparisons hold of the row.
pub open spec fn accepts(
    predicate: FilterView,
    holds: spec_fn(Seq<char>, Op, Seq<Literal>) -> bool,
) -> bool
    decreases predicate,
{
    match predicate {
        FilterView::And(parts) => forall|i: int|
            0 <= i < parts.len() ==> accepts(#[trigger] parts[i], holds),
        FilterView::Or(parts) => exists|i: int|
            0 <= i < parts.len() && accepts(#[trigger] parts[i], holds),
        FilterView::Cmp { field, op, value } => holds(field, op, operands_of(op, value)),
    }
}

/// Whether an expression is true of a row, where `holds` says which comparisons hold of the row.
pub open spec fn is_true(
    condition: Condition,
    holds: spec_fn(Seq<char>, Op, Seq<Literal>) -> bool,
) -> bool
    decreases condition,
{
    match condition {
        Condition::All(parts) => forall|i: int|
            0 <= i < parts.len() ==> is_true(#[trigger] parts[i], holds),
        Condition::Any(parts) => exists|i: int|
            0 <= i < parts.len() && is_true(#[trigger] parts[i], holds),
        Condition::Compare { column, op, operands } => holds(column, op, operands),
    }
}

// === Laws ===

/// Whether what stands behind an expression does not go on with it.
pub open spec fn apart(rest: Seq<char>) -> bool {
    rest.len() == 0 || rest[0] == ')' || rest[0] == ' ' || rest[0] == ','
}

/// Whether `ident` can quote identifiers next to parentheses and spaces.
pub open spec fn quotes_names(ident: char) -> bool {
    ident != '(' && ident != ' '
}

/// The token of a number ends where the number does.
pub proof fn lemma_number_end(token: Seq<char>, rest: Seq<char>)
    requires
        forall|i: int| 0 <= i < token.len() ==> in_number(#[trigger] token[i]),
        apart(rest),
    ensures
        number_end(token + rest) == token.len(),
    decreases token.len(),
{
    let whole = token + rest;
    if token.len() > 0 {
        assert(whole[0] == token[0]);
        assert forall|i: int| 0 <= i < token.skip(1).len() implies in_number(
            #[trigger] token.skip(1)[i],
        ) by {
            assert(token.skip(1)[i] == token[i + 1]);
        }
        lemma_number_end(token.skip(1), rest);
        assert(whole.skip(1) =~= token.skip(1) + rest);
    } else {
        assert(whole =~= rest);
    }
}

/// What writes a number holds nothing that cannot stand in one, and begins with a digit or a
/// sign.
proof fn lemma_written(s: Seq<char>)
    requires
        json::writes_number(s),
    ensures
        s.len() > 0,
        forall|i: int| 0 <= i < s.len() ==> in_number(#[trigger] s[i]),
        text::is_digit(s[0]) || s[0] == '-',
{
    let start = if s.len() > 0 && s[0] == '-' {
        1
    } else {
        0
    };
    json::lemma_digits_end(s, start);
    let whole = json::digits_end(s, start);
    if whole < s.len() && s[whole] == '.' {
        json::lemma_digits_end(s, whole + 1);
    }
    let fraction = json::fraction_end(s, whole);
    let digits = json::exponent_digits(s, fraction);
    if fraction < s.len() && digits <= s.len() {
        json::lemma_digits_end(s, digits);
    }
    assert forall|i: int| 0 <= i < s.len() implies in_number(#[trigger] s[i]) by {
        if start <= i < whole {
            assert(text::is_digit(s[i]));
        } else if whole < i < fraction {
            assert(text::is_digit(s[i]));
        } else if fraction < s.len() && digits <= i {
            assert(text::is_digit(s[i]));
        }
    }
    assert(text::is_digit(s[start]));
}

/// The literal of a scalar reads back as the scalar.
proof fn lemma_literal(value: JsonView, rest: Seq<char>)
    requires
        filter::literal_text(value) is Ok,
        apart(rest),
    ensures
        read_literal(filter::literal_text(value)->Ok_0 + rest) == Some((literal_of(value), rest)),
        filter::literal_text(value)->Ok_0.len() > 0,
{
    let token = filter::literal_text(value)->Ok_0;
    let whole = token + rest;
    reveal(read_literal);
    reveal_strlit("TRUE");
    reveal_strlit("FALSE");
    reveal_strlit("NULL");
    match value {
        JsonView::Str(s) => {
            safety::quoting_reads_back(s, '\'', rest);
            assert(whole[0] == '\'');
        },
        JsonView::Number(n) => {
            match n {
                NumberView::PosInt(k) => {
                    text::decimals_read_back(k as int);
                },
                NumberView::NegInt(k) => {
                    text::decimals_read_back(k as int);
                },
                NumberView::Float(token) => {
                    lemma_written(token);
                },
            }
            assert(token.len() > 0);
            assert(forall|i: int| 0 <= i < token.len() ==> in_number(#[trigger] token[i]));
            assert(whole[0] == token[0]);
            lemma_number_end(token, rest);
            assert(whole.take(token.len() as int) =~= token);
            assert(whole.skip(token.len() as int) =~= rest);
            assert("TRUE"@[0] == 'T' && "FALSE"@[0] == 'F' && "NULL"@[0] == 'N');
            assert(!"TRUE"@.is_prefix_of(whole)) by {
                if "TRUE"@.is_prefix_of(whole) {
                    assert(whole[0] == "TRUE"@[0]);
                }
            }
            assert(!"FALSE"@.is_prefix_of(whole)) by {
                if "FALSE"@.is_prefix_of(whole) {
                    assert(whole[0] == "FALSE"@[0]);
                }
            }
            assert(!"NULL"@.is_prefix_of(whole)) by {
                if "NULL"@.is_prefix_of(whole) {
                    assert(whole[0] == "NULL"@[0]);
                }
            }
        },
        JsonView::Bool(b) => {
            assert(whole.skip(token.len() as int) =~= rest);
            assert(token.is_prefix_of(whole));
            if !b {
                assert(whole[0] == 'F');
            }
        },
        _ => {
            assert(whole.skip(token.len() as int) =~= rest);
            assert(token.is_prefix_of(whole));
            assert(whole[0] == 'N');
        },
    }
}

/// The texts of a list are the texts of its items.
proof fn lemma_literal_texts(items: Seq<JsonView>)
    requires
        filter::literal_texts(items) is Ok,
    ensures
        filter::literal_texts(items)->Ok_0.len() == items.len(),
        forall|i: int|
            0 <= i < items.len() ==> #[trigger] filter::literal_text(items[i]) == Ok::<
                Seq<char>,
                Seq<char>,
            >(filter::literal_texts(items)->Ok_0[i]),
    decreases items.len(),
{
    if items.len() > 0 {
        lemma_literal_texts(items.drop_last());
        let fewer = items.drop_last();
        assert forall|i: int| 0 <= i < items.len() implies #[trigger] filter::literal_text(
            items[i],
        ) == Ok::<Seq<char>, Seq<char>>(filter::literal_texts(items)->Ok_0[i]) by {
            if i < fewer.len() {
                assert(fewer[i] == items[i]);
                assert(filter::literal_text(fewer[i]) is Ok);
            }
        }
    }
}

/// The literals of a list from the item at `k` on read back as those items.
proof fn lemma_literals(items: Seq<JsonView>, k: int, rest: Seq<char>)
    requires
        filter::literal_texts(items) is Ok,
        0 <= k < items.len(),
    ensures
        read_literals(
            text::joined(filter::literal_texts(items)->Ok_0.skip(k), ", "@) + ")"@ + rest,
        ) == Some((items.skip(k).map_values(|item: JsonView| literal_of(item)), rest)),
    decreases items.len() - k,
{
    let texts = filter::literal_texts(items)->Ok_0;
    lemma_literal_texts(items);
    assert(filter::literal_text(items[k]) is Ok);
    let meant = items.skip(k).map_values(|item: JsonView| literal_of(item));
    let whole = text::joined(texts.skip(k), ", "@) + ")"@ + rest;
    reveal_strlit(")");
    reveal_strlit(", ");
    if k + 1 == items.len() {
        assert(texts.skip(k).len() == 1);
        let behind = ")"@ + rest;
        assert(whole =~= texts[k] + behind);
        lemma_literal(items[k], behind);
        assert(behind.skip(1) =~= rest);
        assert(")"@.is_prefix_of(behind));
        assert(meant =~= seq![literal_of(items[k])]);
    } else {
        lemma_literals(items, k + 1, rest);
        text::lemma_joined_front(texts.skip(k), ", "@);
        assert(texts.skip(k).drop_first() =~= texts.skip(k + 1));
        let more = text::joined(texts.skip(k + 1), ", "@) + ")"@ + rest;
        let behind = ", "@ + more;
        assert(whole =~= texts[k] + behind);
        lemma_literal(items[k], behind);
        assert(behind.skip(2) =~= more);
        assert(", "@.is_prefix_of(behind));
        assert(!")"@.is_prefix_of(behind)) by {
            if ")"@.is_prefix_of(behind) {
                assert(behind[0] == ")"@[0]);
            }
        }
        assert(meant =~= seq![literal_of(items[k])] + items.skip(k + 1).map_values(
            |item: JsonView| literal_of(item),
        ));
    }
}

/// An operator reads back as it was.
#[verifier::rlimit(50)]
proof fn lemma_op(op: Op, rest: Seq<char>)
    ensures
        read_op(filter::before_operand(op) + rest) == Some((op, rest)),
        filter::before_operand(op).len() > 0,
        filter::before_operand(op)[0] == ' ',
{
    reveal(read_op);
    reveal_strlit(" = ");
    reveal_strlit(" <> ");
    reveal_strlit(" < ");
    reveal_strlit(" <= ");
    reveal_strlit(" > ");
    reveal_strlit(" >= ");
    reveal_strlit(" LIKE ");
    reveal_strlit(" IN (");
    reveal_strlit(" NOT IN (");
    reveal_strlit(" IS NULL");
    reveal_strlit(" IS NOT NULL");
    let word = filter::before_operand(op);
    let whole = word + rest;
    assert(word.is_prefix_of(whole));
    assert(whole.skip(word.len() as int) =~= rest);
    assert(word.len() >= 3);
    assert(whole[1] == word[1] && whole[2] == word[2]);
    lemma_not_prefix(" = "@, whole, 1);
    lemma_not_prefix(" <> "@, whole, 1);
    lemma_not_prefix(" <> "@, whole, 2);
    lemma_not_prefix(" < "@, whole, 1);
    lemma_not_prefix(" < "@, whole, 2);
    lemma_not_prefix(" <= "@, whole, 1);
    lemma_not_prefix(" <= "@, whole, 2);
    lemma_not_prefix(" > "@, whole, 1);
    lemma_not_prefix(" > "@, whole, 2);
    lemma_not_prefix(" >= "@, whole, 1);
    lemma_not_prefix(" >= "@, whole, 2);
    lemma_not_prefix(" LIKE "@, whole, 1);
    lemma_not_prefix(" IN ("@, whole, 1);
    lemma_not_prefix(" IN ("@, whole, 2);
    lemma_not_prefix(" NOT IN ("@, whole, 1);
    if op is NotNull {
        assert(whole[5] == word[5]);
        lemma_not_prefix(" IS NULL"@, whole, 5);
    }
}

/// A text that differs at a place is no prefix.
proof fn lemma_not_prefix(word: Seq<char>, whole: Seq<char>, i: int)
    requires
        0 <= i < word.len(),
        i < whole.len(),
    ensures
        whole[i] != word[i] ==> !word.is_prefix_of(whole),
{
    if word.is_prefix_of(whole) {
        assert(whole.take(word.len() as int)[i] == word[i]);
    }
}

/// The operands of a comparison read back as what its value stands for.
proof fn lemma_operands(op: Op, value: JsonView, rest: Seq<char>)
    requires
        filter::operand(op, value) is Ok,
        apart(rest),
    ensures
        read_operands(op, filter::operand(op, value)->Ok_0 + filter::after_operand(op) + rest)
            == Some((operands_of(op, value), rest)),
{
    let text = filter::operand(op, value)->Ok_0 + filter::after_operand(op) + rest;
    match op {
        Op::IsNull | Op::NotNull => {
            assert(text =~= rest);
        },
        Op::In | Op::NotIn => {
            let items = value->Array_0;
            lemma_literals(items, 0, rest);
            assert(filter::literal_texts(items)->Ok_0.skip(0)
                =~= filter::literal_texts(items)->Ok_0);
            assert(items.skip(0) =~= items);
        },
        Op::Like => {
            assert(text =~= filter::operand(op, value)->Ok_0 + rest);
            lemma_literal(value, rest);
        },
        _ => {
            assert(text =~= filter::operand(op, value)->Ok_0 + rest);
            lemma_literal(value, rest);
        },
    }
}

/// The texts of the parts of a group are the texts of each.
proof fn lemma_sql_texts(parts: Seq<FilterView>, ident: char)
    requires
        filter::sql_texts(parts, ident) is Ok,
    ensures
        filter::sql_texts(parts, ident)->Ok_0.len() == parts.len(),
        forall|i: int|
            0 <= i < parts.len() ==> #[trigger] filter::sql_text(parts[i], ident) == Ok::<
                Seq<char>,
                Seq<char>,
            >(filter::sql_texts(parts, ident)->Ok_0[i]),
    decreases parts.len(),
{
    if parts.len() > 0 {
        lemma_sql_texts(parts.drop_last(), ident);
        let fewer = parts.drop_last();
        assert forall|i: int| 0 <= i < parts.len() implies #[trigger] filter::sql_text(
            parts[i],
            ident,
        ) == Ok::<Seq<char>, Seq<char>>(filter::sql_texts(parts, ident)->Ok_0[i]) by {
            if i < fewer.len() {
                assert(fewer[i] == parts[i]);
                assert(filter::sql_text(fewer[i], ident) is Ok);
            }
        }
    }
}

/// What the parts of a group stand for.
spec fn meanings(parts: Seq<FilterView>) -> Seq<Condition> {
    parts.map_values(|part: FilterView| meaning(part))
}

/// The parts of a group from the one at `k` on read back as those parts.
proof fn lemma_parts(
    parts: Seq<FilterView>,
    k: int,
    between: Seq<char>,
    ident: char,
    rest: Seq<char>,
)
    requires
        quotes_names(ident),
        filter::sql_texts(parts, ident) is Ok,
        0 <= k < parts.len(),
        between == " AND "@ || between == " OR "@,
    ensures
        read_parts(
            text::joined(filter::sql_texts(parts, ident)->Ok_0.skip(k), between) + ")"@ + rest,
            between,
            ident,
        ) == Some((meanings(parts.skip(k)), rest)),
    decreases parts, 1int, parts.len() - k,
{
    let texts = filter::sql_texts(parts, ident)->Ok_0;
    lemma_sql_texts(parts, ident);
    assert(filter::sql_text(parts[k], ident) is Ok);
    let whole = text::joined(texts.skip(k), between) + ")"@ + rest;
    reveal_strlit(")");
    reveal_strlit(" AND ");
    reveal_strlit(" OR ");
    if k + 1 == parts.len() {
        assert(texts.skip(k).len() == 1);
        let behind = ")"@ + rest;
        assert(whole =~= texts[k] + behind);
        lemma_reads_back(parts[k], ident, behind);
        assert(behind.skip(1) =~= rest);
        assert(")"@.is_prefix_of(behind));
        assert(meanings(parts.skip(k)) =~= seq![meaning(parts[k])]);
    } else {
        lemma_parts(parts, k + 1, between, ident, rest);
        text::lemma_joined_front(texts.skip(k), between);
        assert(texts.skip(k).drop_first() =~= texts.skip(k + 1));
        let more = text::joined(texts.skip(k + 1), between) + ")"@ + rest;
        let behind = between + more;
        assert(whole =~= texts[k] + behind);
        lemma_reads_back(parts[k], ident, behind);
        assert(behind.skip(between.len() as int) =~= more);
        assert(between.is_prefix_of(behind));
        lemma_not_prefix(")"@, behind, 0);
        assert(meanings(parts.skip(k)) =~= seq![meaning(parts[k])] + meanings(
            parts.skip(k + 1),
        ));
    }
}

/// A group reads back as its parts, all of them and in order.
#[verifier::rlimit(80)]
#[verifier::spinoff_prover]
proof fn lemma_group(
    parts: Seq<FilterView>,
    sep: Seq<char>,
    name: Seq<char>,
    ident: char,
    rest: Seq<char>,
)
    requires
        quotes_names(ident),
        filter::group_text(parts, sep, name, ident) is Ok,
        sep == "AND"@ || sep == "OR"@,
    ensures
        parts.len() > 0,
        read_condition(filter::group_text(parts, sep, name, ident)->Ok_0 + rest, ident) == Some(
            (
                if parts.len() == 1 {
                    meaning(parts[0])
                } else if sep == "AND"@ {
                    Condition::All(meanings(parts))
                } else {
                    Condition::Any(meanings(parts))
                },
                rest,
            ),
        ),
    decreases parts, 2int, 0int,
{
    let texts = filter::sql_texts(parts, ident)->Ok_0;
    lemma_sql_texts(parts, ident);
    assert(filter::sql_text(parts[0], ident) is Ok);
    let between = " "@ + sep + " "@;
    reveal_strlit("(");
    reveal_strlit(")");
    reveal_strlit(" ");
    reveal_strlit("AND");
    reveal_strlit("OR");
    reveal_strlit(" AND ");
    reveal_strlit(" OR ");
    assert(sep == "AND"@ ==> between =~= " AND "@);
    assert(sep == "OR"@ ==> between =~= " OR "@);
    assert("AND"@.len() != "OR"@.len());
    let whole = filter::group_text(parts, sep, name, ident)->Ok_0 + rest;
    assert(whole[0] == '(');
    let inside = text::joined(texts, between) + ")"@ + rest;
    assert(whole.skip(1) =~= inside);
    if parts.len() == 1 {
        let behind = ")"@ + rest;
        assert(inside =~= texts[0] + behind);
        lemma_reads_back(parts[0], ident, behind);
        assert(behind.skip(1) =~= rest);
        assert(")"@.is_prefix_of(behind));
    } else {
        text::lemma_joined_front(texts, between);
        let more = text::joined(texts.skip(1), between) + ")"@ + rest;
        assert(texts.drop_first() =~= texts.skip(1));
        let behind = between + more;
        assert(inside =~= texts[0] + behind);
        lemma_reads_back(parts[0], ident, behind);
        lemma_parts(parts, 1, between, ident, rest);
        assert(behind.skip(between.len() as int) =~= more);
        assert(between.is_prefix_of(behind));
        lemma_not_prefix(")"@, behind, 0);
        lemma_not_prefix(" AND "@, behind, 1);
        assert(meanings(parts) =~= seq![meaning(parts[0])] + meanings(parts.skip(1)));
    }
}

/// A comparison reads back as it was.
proof fn lemma_comparison(
    field: Seq<char>,
    op: Op,
    value: JsonView,
    ident: char,
    rest: Seq<char>,
)
    requires
        quotes_names(ident),
        filter::operand(op, value) is Ok,
        apart(rest),
    ensures
        ({
            let predicate = FilterView::Cmp { field, op, value };
            &&& filter::sql_text(predicate, ident) is Ok
            &&& read_condition(filter::sql_text(predicate, ident)->Ok_0 + rest, ident) == Some(
                (meaning(predicate), rest),
            )
        }),
{
    let predicate = FilterView::Cmp { field, op, value };
    let operand = filter::operand(op, value)->Ok_0 + filter::after_operand(op) + rest;
    let behind = filter::before_operand(op) + operand;
    let whole = filter::sql_text(predicate, ident)->Ok_0 + rest;
    lemma_op(op, operand);
    lemma_operands(op, value, rest);
    assert(whole =~= sql::quoted(field, ident) + behind);
    assert(behind[0] == ' ');
    safety::quoting_reads_back(field, ident, behind);
    assert(whole[0] == ident);
}

/// The text of a predicate reads back as what the predicate stands for.
proof fn lemma_reads_back(predicate: FilterView, ident: char, rest: Seq<char>)
    requires
        quotes_names(ident),
        filter::sql_text(predicate, ident) is Ok,
        apart(rest),
    ensures
        read_condition(filter::sql_text(predicate, ident)->Ok_0 + rest, ident) == Some(
            (meaning(predicate), rest),
        ),
    decreases predicate, 0int, 0int,
{
    reveal_strlit("AND");
    reveal_strlit("OR");
    match predicate {
        FilterView::And(parts) => {
            lemma_group(parts, "AND"@, "and"@, ident, rest);
            if parts.len() != 1 {
                assert(meaning(predicate)->All_0 =~= meanings(parts));
            }
        },
        FilterView::Or(parts) => {
            assert("AND"@.len() != "OR"@.len());
            lemma_group(parts, "OR"@, "or"@, ident, rest);
            if parts.len() != 1 {
                assert(meaning(predicate)->Any_0 =~= meanings(parts));
            }
        },
        FilterView::Cmp { field, op, value } => {
            lemma_comparison(field, op, value, ident, rest);
        },
    }
}

/// The SQL of a predicate is the predicate. Read back, its text is the expression that the
/// predicate stands for: every part of every group, in order, around the word of the group;
/// every column, operator and value of every comparison; and nothing else.
pub proof fn predicates_read_back(predicate: FilterView, ident: char)
    requires
        quotes_names(ident),
        filter::sql_text(predicate, ident) is Ok,
    ensures
        read_condition(filter::sql_text(predicate, ident)->Ok_0, ident) == Some(
            (meaning(predicate), Seq::<char>::empty()),
        ),
{
    lemma_reads_back(predicate, ident, Seq::empty());
    let text = filter::sql_text(predicate, ident)->Ok_0;
    assert(text + Seq::<char>::empty() =~= text);
}

/// The SQL of a predicate is read back whatever stands behind it, as long as that stands apart.
pub proof fn predicates_read_back_ahead(predicate: FilterView, ident: char, rest: Seq<char>)
    requires
        quotes_names(ident),
        filter::sql_text(predicate, ident) is Ok,
        apart(rest),
    ensures
        read_condition(filter::sql_text(predicate, ident)->Ok_0 + rest, ident) == Some(
            (meaning(predicate), rest),
        ),
{
    lemma_reads_back(predicate, ident, rest);
}

/// Expressions keep the truth of what they stand for.
proof fn lemma_meaning_accepts(
    predicate: FilterView,
    holds: spec_fn(Seq<char>, Op, Seq<Literal>) -> bool,
)
    ensures
        is_true(meaning(predicate), holds) == accepts(predicate, holds),
    decreases predicate,
{
    match predicate {
        FilterView::And(parts) => {
            assert forall|i: int| 0 <= i < parts.len() implies is_true(
                #[trigger] meaning(parts[i]),
                holds,
            ) == accepts(parts[i], holds) by {
                lemma_meaning_accepts(parts[i], holds);
            }
            if parts.len() == 1 {
                assert(is_true(meaning(parts[0]), holds) == accepts(parts[0], holds));
            } else {
                let all = meaning(predicate)->All_0;
                assert forall|i: int| 0 <= i < parts.len() implies is_true(
                    #[trigger] all[i],
                    holds,
                ) == accepts(parts[i], holds) by {
                    assert(all[i] == meaning(parts[i]));
                }
                if is_true(meaning(predicate), holds) {
                    assert forall|i: int| 0 <= i < parts.len() implies accepts(
                        #[trigger] parts[i],
                        holds,
                    ) by {
                        assert(is_true(all[i], holds));
                    }
                }
            }
        },
        FilterView::Or(parts) => {
            assert forall|i: int| 0 <= i < parts.len() implies is_true(
                #[trigger] meaning(parts[i]),
                holds,
            ) == accepts(parts[i], holds) by {
                lemma_meaning_accepts(parts[i], holds);
            }
            if parts.len() == 1 {
                assert(is_true(meaning(parts[0]), holds) == accepts(parts[0], holds));
            } else {
                let any = meaning(predicate)->Any_0;
                assert forall|i: int| 0 <= i < parts.len() implies is_true(
                    #[trigger] any[i],
                    holds,
                ) == accepts(parts[i], holds) by {
                    assert(any[i] == meaning(parts[i]));
                }
                if accepts(predicate, holds) {
                    let i = choose|i: int|
                        0 <= i < parts.len() && accepts(#[trigger] parts[i], holds);
                    assert(is_true(any[i], holds));
                }
                if is_true(meaning(predicate), holds) {
                    let i = choose|i: int|
                        0 <= i < any.len() && is_true(#[trigger] any[i], holds);
                    assert(accepts(parts[i], holds));
                }
            }
        },
        _ => {},
    }
}

/// A filtered read returns the rows that the predicate accepts: whatever comparisons hold of a
/// row, the text of the predicate is true of it where all parts of an `and` and some part of an
/// `or` accept it.
pub proof fn predicates_mean_what_they_accept(
    predicate: FilterView,
    ident: char,
    holds: spec_fn(Seq<char>, Op, Seq<Literal>) -> bool,
)
    requires
        quotes_names(ident),
        filter::sql_text(predicate, ident) is Ok,
    ensures
        match read_condition(filter::sql_text(predicate, ident)->Ok_0, ident) {
            Some((condition, rest)) => rest.len() == 0 && is_true(condition, holds) == accepts(
                predicate,
                holds,
            ),
            None => false,
        },
{
    predicates_read_back(predicate, ident);
    lemma_meaning_accepts(predicate, holds);
}

/// Predicates that stand for different expressions have different texts.
pub proof fn predicates_are_told_apart(a: FilterView, b: FilterView, ident: char)
    requires
        quotes_names(ident),
        filter::sql_text(a, ident) is Ok,
        filter::sql_text(a, ident) == filter::sql_text(b, ident),
    ensures
        meaning(a) == meaning(b),
{
    predicates_read_back(a, ident);
    predicates_read_back(b, ident);
}

/// Whether a value is a scalar that SQL can write: text, a truth value, null, or a number.
pub open spec fn writable(value: JsonView) -> bool {
    match value {
        JsonView::Number(NumberView::Float(token)) => json::writes_number(token),
        JsonView::Array(_) => false,
        JsonView::Object(_) => false,
        _ => true,
    }
}

/// Whether a predicate can be written: groups have parts, lists have items, patterns are text,
/// and every value is a scalar.
pub open spec fn can_be_written(predicate: FilterView) -> bool
    decreases predicate,
{
    match predicate {
        FilterView::And(parts) => parts.len() > 0 && forall|i: int|
            0 <= i < parts.len() ==> can_be_written(#[trigger] parts[i]),
        FilterView::Or(parts) => parts.len() > 0 && forall|i: int|
            0 <= i < parts.len() ==> can_be_written(#[trigger] parts[i]),
        FilterView::Cmp { field, op, value } => match op {
            Op::IsNull | Op::NotNull => true,
            Op::Like => value is Str,
            Op::In | Op::NotIn => value is Array && value->Array_0.len() > 0 && forall|i: int|
                0 <= i < value->Array_0.len() ==> writable(#[trigger] value->Array_0[i]),
            _ => writable(value),
        },
    }
}

/// A list has literals where each of its items is a scalar.
proof fn lemma_writable_items(items: Seq<JsonView>)
    ensures
        filter::literal_texts(items) is Ok <==> forall|i: int|
            0 <= i < items.len() ==> writable(#[trigger] items[i]),
    decreases items.len(),
{
    if items.len() > 0 {
        let fewer = items.drop_last();
        lemma_writable_items(fewer);
        if forall|i: int| 0 <= i < items.len() ==> writable(#[trigger] items[i]) {
            assert forall|i: int| 0 <= i < fewer.len() implies writable(#[trigger] fewer[i]) by {
                assert(writable(items[i]));
            }
            assert(writable(items[items.len() - 1]));
        }
        if filter::literal_texts(items) is Ok {
            assert forall|i: int| 0 <= i < items.len() implies writable(#[trigger] items[i]) by {
                if i < fewer.len() {
                    assert(writable(fewer[i]));
                }
            }
        }
    }
}

/// The parts of a group have texts where each of them can be written.
proof fn lemma_written_parts(parts: Seq<FilterView>, ident: char)
    ensures
        filter::sql_texts(parts, ident) is Ok <==> forall|i: int|
            0 <= i < parts.len() ==> can_be_written(#[trigger] parts[i]),
    decreases parts, 1int,
{
    if parts.len() > 0 {
        let fewer = parts.drop_last();
        lemma_written_parts(fewer, ident);
        let n = parts.len() - 1;
        predicates_are_written(parts[n], ident);
        if forall|i: int| 0 <= i < parts.len() ==> can_be_written(#[trigger] parts[i]) {
            assert forall|i: int| 0 <= i < fewer.len() implies can_be_written(
                #[trigger] fewer[i],
            ) by {
                assert(can_be_written(parts[i]));
            }
            assert(can_be_written(parts[n]));
        }
        if filter::sql_texts(parts, ident) is Ok {
            assert forall|i: int| 0 <= i < parts.len() implies can_be_written(
                #[trigger] parts[i],
            ) by {
                if i < fewer.len() {
                    assert(can_be_written(fewer[i]));
                }
            }
        }
    }
}

/// A predicate has a text exactly where it can be written.
pub proof fn predicates_are_written(predicate: FilterView, ident: char)
    ensures
        filter::sql_text(predicate, ident) is Ok <==> can_be_written(predicate),
    decreases predicate, 0int,
{
    match predicate {
        FilterView::And(parts) => {
            lemma_written_parts(parts, ident);
        },
        FilterView::Or(parts) => {
            lemma_written_parts(parts, ident);
        },
        FilterView::Cmp { field, op, value } => {
            match op {
                Op::In | Op::NotIn => {
                    if value is Array {
                        lemma_writable_items(value->Array_0);
                    }
                },
                _ => {},
            }
        },
    }
}

/// A group is refused with what refuses the first of its parts that is refused; one without
/// parts by its name.
pub proof fn groups_are_refused_by_their_first_part(
    parts: Seq<FilterView>,
    ident: char,
    i: int,
)
    requires
        0 <= i < parts.len(),
        filter::sql_text(parts[i], ident) is Err,
        forall|j: int| 0 <= j < i ==> #[trigger] filter::sql_text(parts[j], ident) is Ok,
    ensures
        filter::sql_text(FilterView::And(parts), ident) == filter::sql_text(parts[i], ident),
        filter::sql_text(FilterView::Or(parts), ident) == filter::sql_text(parts[i], ident),
        filter::sql_text(FilterView::And(Seq::empty()), ident) == Err::<Seq<char>, Seq<char>>(
            "empty `and` filter group"@,
        ),
        filter::sql_text(FilterView::Or(Seq::empty()), ident) == Err::<Seq<char>, Seq<char>>(
            "empty `or` filter group"@,
        ),
{
    lemma_refused(parts, ident, i);
    lemma_empty_groups();
}

/// The names of the groups in messages.
proof fn lemma_empty_groups()
    ensures
        "empty `"@ + "and"@ + "` filter group"@ == "empty `and` filter group"@,
        "empty `"@ + "or"@ + "` filter group"@ == "empty `or` filter group"@,
{
    reveal_strlit("empty `");
    reveal_strlit("and");
    reveal_strlit("or");
    reveal_strlit("` filter group");
    reveal_strlit("empty `and` filter group");
    reveal_strlit("empty `or` filter group");
    assert("empty `"@ + "and"@ + "` filter group"@ =~= "empty `and` filter group"@);
    assert("empty `"@ + "or"@ + "` filter group"@ =~= "empty `or` filter group"@);
}

/// Parts are refused with what refuses the first of them.
proof fn lemma_refused(parts: Seq<FilterView>, ident: char, i: int)
    requires
        0 <= i < parts.len(),
        filter::sql_text(parts[i], ident) is Err,
        forall|j: int| 0 <= j < i ==> #[trigger] filter::sql_text(parts[j], ident) is Ok,
    ensures
        filter::sql_texts(parts, ident) is Err,
        filter::sql_texts(parts, ident)->Err_0 == filter::sql_text(parts[i], ident)->Err_0,
    decreases parts.len(),
{
    let fewer = parts.drop_last();
    if i < fewer.len() {
        assert(fewer[i] == parts[i]);
        assert forall|j: int| 0 <= j < i implies #[trigger] filter::sql_text(
            fewer[j],
            ident,
        ) is Ok by {
            assert(filter::sql_text(parts[j], ident) is Ok);
        }
        lemma_refused(fewer, ident, i);
    } else {
        lemma_all_ok(fewer, ident, parts);
    }
}

/// Parts that all have a text have texts.
proof fn lemma_all_ok(parts: Seq<FilterView>, ident: char, all: Seq<FilterView>)
    requires
        parts.len() <= all.len(),
        parts == all.take(parts.len() as int),
        forall|j: int|
            0 <= j < parts.len() ==> #[trigger] filter::sql_text(all[j], ident) is Ok,
    ensures
        filter::sql_texts(parts, ident) is Ok,
    decreases parts.len(),
{
    if parts.len() > 0 {
        let fewer = parts.drop_last();
        assert(fewer =~= all.take(fewer.len() as int));
        lemma_all_ok(fewer, ident, all);
        assert(filter::sql_text(all[parts.len() - 1], ident) is Ok);
    }
}

/// What refuses a value: `in` and `not_in` without an array or with an empty one, `like`
/// without text, and a list or an object where a scalar is compared.
pub proof fn values_are_refused_for_their_kind(
    field: Seq<char>,
    op: Op,
    value: JsonView,
    ident: char,
)
    requires
        filter::sql_text(FilterView::Cmp { field, op, value }, ident) is Err,
    ensures
        ({
            let refusal = filter::sql_text(FilterView::Cmp { field, op, value }, ident)->Err_0;
            &&& !(op is IsNull) && !(op is NotNull)
            &&& (op is In || op is NotIn) && !(value is Array) ==> refusal
                == "`in`/`not_in` need an array value"@
            &&& (op is In || op is NotIn) && value is Array && value->Array_0.len() == 0 ==> refusal
                == "`in`/`not_in` need a non-empty array"@
            &&& op is Like ==> refusal == "`like` needs a string value, got `"@
                + json::json_rendered(value) + "`"@
            &&& !(op is Like) && !(op is In) && !(op is NotIn) ==> refusal
                == "unsupported filter value `"@ + json::json_rendered(value) + "`"@
        }),
{
}

/// A predicate stands behind a `WHERE` and ahead of a space, where there is one; it is refused as
/// it is alone.
pub proof fn conditions_stand_behind_where(predicate: FilterView, ident: char)
    ensures
        filter::where_text(None, ident) == Ok::<Seq<char>, Seq<char>>(Seq::empty()),
        match filter::sql_text(predicate, ident) {
            Ok(condition) => filter::where_text(Some(predicate), ident) == Ok::<
                Seq<char>,
                Seq<char>,
            >("WHERE "@ + condition + " "@),
            Err(message) => filter::where_text(Some(predicate), ident) == Err::<
                Seq<char>,
                Seq<char>,
            >(message),
        },
{
}

} // verus!
