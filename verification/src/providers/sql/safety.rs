//! Quoted names and strings stay inside their quotes.
//!
//! SQL text is read one character at a time: outside every quote, or inside one until
//! the quote comes again, unless it comes twice. What the database takes as SQL is the
//! outline of the text: the characters outside, and one quote in place of each name or
//! string. What a caller supplies as a name or a string does not show in it.

use vstd::prelude::*;

use crate::json::{self, JsonView, NumberView};
use crate::providers::sql;
use crate::providers::sql::filter::{self, FilterView, Op};
use crate::text;

verus! {

/// Where a reader of SQL text stands.
pub enum Reader {
    /// Outside every quote.
    Outside,
    /// Inside the quote that this character opened.
    Inside(char),
    /// Behind this quote, which closed what it opened unless it comes again.
    Closed(char),
}

/// Whether `c` opens a quote: a string's `'`, or the quote of identifiers.
pub open spec fn is_quote(c: char, ident: char) -> bool {
    c == '\'' || c == ident
}

/// Where the reader stands behind `c`.
pub open spec fn step(at: Reader, c: char, ident: char) -> Reader {
    match at {
        Reader::Inside(quote) => if c == quote {
            Reader::Closed(quote)
        } else {
            at
        },
        _ => if at == Reader::Closed(c) {
            Reader::Inside(c)
        } else if is_quote(c, ident) {
            Reader::Inside(c)
        } else {
            Reader::Outside
        },
    }
}

/// What `c` adds to the outline.
pub open spec fn shown(at: Reader, c: char) -> Seq<char> {
    if at is Inside || at == Reader::Closed(c) {
        Seq::empty()
    } else {
        seq![c]
    }
}

/// Where the reader stands behind `text`.
pub open spec fn read(at: Reader, text: Seq<char>, ident: char) -> Reader
    decreases text.len(),
{
    if text.len() == 0 {
        at
    } else {
        step(read(at, text.drop_last(), ident), text.last(), ident)
    }
}

/// The outline of `text`: the characters that are read outside every quote, and the opening
/// quote of each name or string.
pub open spec fn outline(at: Reader, text: Seq<char>, ident: char) -> Seq<char>
    decreases text.len(),
{
    if text.len() == 0 {
        Seq::empty()
    } else {
        outline(at, text.drop_last(), ident) + shown(
            read(at, text.drop_last(), ident),
            text.last(),
        )
    }
}

/// Reading two texts in turn is reading the one, then the other.
proof fn lemma_read_twice(at: Reader, a: Seq<char>, b: Seq<char>, ident: char)
    ensures
        read(at, a + b, ident) == read(read(at, a, ident), b, ident),
        outline(at, a + b, ident) == outline(at, a, ident) + outline(
            read(at, a, ident),
            b,
            ident,
        ),
    decreases b.len(),
{
    if b.len() == 0 {
        assert(a + b =~= a);
        assert(outline(at, a, ident) + Seq::<char>::empty() =~= outline(at, a, ident));
    } else {
        lemma_read_twice(at, a, b.drop_last(), ident);
        assert((a + b).drop_last() =~= a + b.drop_last());
        assert((a + b).last() == b.last());
        assert(outline(at, a + b, ident) =~= outline(at, a, ident) + outline(
            read(at, a, ident),
            b,
            ident,
        ));
    }
}

/// Whether `text` holds no quote.
pub open spec fn plain(text: Seq<char>, ident: char) -> bool {
    forall|i: int| 0 <= i < text.len() ==> !is_quote(#[trigger] text[i], ident)
}

/// Text without quotes is read outside, all of it.
proof fn lemma_read_plain(text: Seq<char>, ident: char)
    requires
        plain(text, ident),
    ensures
        read(Reader::Outside, text, ident) is Outside,
        outline(Reader::Outside, text, ident) == text,
    decreases text.len(),
{
    if text.len() > 0 {
        lemma_read_plain(text.drop_last(), ident);
        assert(text.drop_last() + seq![text.last()] =~= text);
        assert(!is_quote(text[text.len() - 1], ident));
    } else {
        assert(text =~= Seq::empty());
    }
}

/// Behind a closed quote, text that does not begin with the quote is read as outside.
proof fn lemma_read_closed(quote: char, text: Seq<char>, ident: char)
    requires
        text.len() > 0,
        text[0] != quote,
    ensures
        read(Reader::Closed(quote), text, ident) == read(Reader::Outside, text, ident),
        outline(Reader::Closed(quote), text, ident) == outline(Reader::Outside, text, ident),
    decreases text.len(),
{
    let fewer = text.drop_last();
    if text.len() == 1 {
        reveal_with_fuel(read, 2);
        reveal_with_fuel(outline, 2);
        assert(fewer =~= Seq::<char>::empty());
        assert(text.last() == text[0]);
    } else {
        assert(fewer[0] == text[0]);
        lemma_read_closed(quote, fewer, ident);
    }
}

/// The escaped form of `s` is read inside the quote, all of it.
proof fn lemma_read_escaped(s: Seq<char>, quote: char, ident: char)
    requires
        is_quote(quote, ident),
    ensures
        read(Reader::Inside(quote), text::replaced(s, quote, seq![quote, quote]), ident)
            == Reader::Inside(quote),
        outline(Reader::Inside(quote), text::replaced(s, quote, seq![quote, quote]), ident)
            == Seq::<char>::empty(),
    decreases s.len(),
{
    if s.len() > 0 {
        let head = text::replaced(s.drop_last(), quote, seq![quote, quote]);
        let tail = if s.last() == quote {
            seq![quote, quote]
        } else {
            seq![s.last()]
        };
        lemma_read_escaped(s.drop_last(), quote, ident);
        lemma_read_twice(Reader::Inside(quote), head, tail, ident);
        reveal_with_fuel(read, 3);
        reveal_with_fuel(outline, 3);
        assert(tail.drop_last() =~= if s.last() == quote {
            seq![quote]
        } else {
            Seq::empty()
        });
        assert(seq![quote].drop_last() =~= Seq::<char>::empty());
        assert(read(Reader::Inside(quote), tail, ident) == Reader::Inside(quote));
        assert(outline(Reader::Inside(quote), tail, ident) =~= Seq::<char>::empty());
        assert(text::replaced(s, quote, seq![quote, quote]) == head + tail);
        assert(outline(Reader::Inside(quote), head + tail, ident) =~= Seq::<char>::empty());
    }
}

/// A quoted name or string cannot break out of its quotes, whatever it holds: its outline is
/// one quote, and the reader stands behind the closing quote at its end.
pub proof fn quoting_encloses(s: Seq<char>, quote: char, ident: char)
    requires
        is_quote(quote, ident),
    ensures
        read(Reader::Outside, sql::quoted(s, quote), ident) == Reader::Closed(quote),
        outline(Reader::Outside, sql::quoted(s, quote), ident) == seq![quote],
{
    let open = seq![quote];
    let body = text::replaced(s, quote, seq![quote, quote]);
    reveal_with_fuel(read, 2);
    reveal_with_fuel(outline, 2);
    assert(open.drop_last() =~= Seq::<char>::empty());
    assert(read(Reader::Outside, open, ident) == Reader::Inside(quote));
    assert(outline(Reader::Outside, open, ident) =~= seq![quote]);
    lemma_read_escaped(s, quote, ident);
    lemma_read_twice(Reader::Outside, open, body, ident);
    lemma_read_twice(Reader::Outside, open + body, open, ident);
    assert(read(Reader::Inside(quote), open, ident) == Reader::Closed(quote));
    assert(outline(Reader::Inside(quote), open, ident) =~= Seq::<char>::empty());
    assert(outline(Reader::Outside, sql::quoted(s, quote), ident) =~= seq![quote]);
}

/// The name or string that a quoted text holds, and what stands behind the text.
pub open spec fn unquoted(text: Seq<char>, quote: char) -> Option<(Seq<char>, Seq<char>)> {
    if text.len() > 0 && text[0] == quote {
        unescaped(text.skip(1), quote)
    } else {
        None
    }
}

/// What stands ahead of the closing quote, with each pair of quotes read as one, and
/// what stands behind the closing quote.
pub open spec fn unescaped(text: Seq<char>, quote: char) -> Option<(Seq<char>, Seq<char>)>
    decreases text.len(),
{
    if text.len() == 0 {
        None
    } else if text[0] != quote {
        match unescaped(text.skip(1), quote) {
            Some((s, rest)) => Some((seq![text[0]] + s, rest)),
            None => None,
        }
    } else if text.len() > 1 && text[1] == quote {
        match unescaped(text.skip(2), quote) {
            Some((s, rest)) => Some((seq![quote] + s, rest)),
            None => None,
        }
    } else {
        Some((Seq::empty(), text.skip(1)))
    }
}

/// Escaping works from the front too.
proof fn lemma_replaced_front(s: Seq<char>, c: char, with: Seq<char>)
    requires
        s.len() > 0,
    ensures
        text::replaced(s, c, with) == (if s[0] == c {
            with
        } else {
            seq![s[0]]
        }) + text::replaced(s.drop_first(), c, with),
    decreases s.len(),
{
    let head = if s[0] == c {
        with
    } else {
        seq![s[0]]
    };
    if s.len() == 1 {
        assert(s.drop_last() =~= Seq::empty());
        assert(s.drop_first() =~= Seq::empty());
        reveal_with_fuel(text::replaced, 2);
        assert(text::replaced(s, c, with) =~= head);
        assert(head + Seq::<char>::empty() =~= head);
    } else {
        lemma_replaced_front(s.drop_last(), c, with);
        assert(s.drop_last().drop_first() =~= s.drop_first().drop_last());
        assert(text::replaced(s, c, with) =~= head + text::replaced(s.drop_first(), c, with));
    }
}

/// Unescaping undoes escaping.
proof fn lemma_unescaped(s: Seq<char>, quote: char, rest: Seq<char>)
    requires
        rest.len() == 0 || rest[0] != quote,
    ensures
        unescaped(text::replaced(s, quote, seq![quote, quote]) + seq![quote] + rest, quote)
            == Some((s, rest)),
    decreases s.len(),
{
    let body = text::replaced(s, quote, seq![quote, quote]);
    let text = body + seq![quote] + rest;
    if s.len() == 0 {
        assert(text =~= seq![quote] + rest);
        assert(text.skip(1) =~= rest);
        assert(s =~= Seq::empty());
    } else {
        lemma_replaced_front(s, quote, seq![quote, quote]);
        lemma_unescaped(s.drop_first(), quote, rest);
        let fewer = text::replaced(s.drop_first(), quote, seq![quote, quote]) + seq![quote]
            + rest;
        assert(seq![s[0]] + s.drop_first() =~= s);
        if s[0] == quote {
            assert(text =~= seq![quote, quote] + fewer);
            assert(text.skip(2) =~= fewer);
        } else {
            assert(text =~= seq![s[0]] + fewer);
            assert(text.skip(1) =~= fewer);
        }
    }
}

/// A quoted name or string is read back as it was, whatever it holds and whatever stands
/// behind it, as long as that does not begin with the quote.
pub proof fn quoting_reads_back(s: Seq<char>, quote: char, rest: Seq<char>)
    requires
        rest.len() == 0 || rest[0] != quote,
    ensures
        unquoted(sql::quoted(s, quote) + rest, quote) == Some((s, rest)),
{
    let body = text::replaced(s, quote, seq![quote, quote]);
    lemma_unescaped(s, quote, rest);
    assert((sql::quoted(s, quote) + rest).skip(1) =~= body + seq![quote] + rest);
}

/// Different names or strings have different quoted forms.
pub proof fn quoting_tells_apart(a: Seq<char>, b: Seq<char>, quote: char)
    ensures
        sql::quoted(a, quote) == sql::quoted(b, quote) ==> a == b,
{
    quoting_reads_back(a, quote, Seq::empty());
    quoting_reads_back(b, quote, Seq::empty());
}

// === Predicates ===

/// A string with its text taken out; every other value itself.
pub open spec fn blank_scalar(value: JsonView) -> JsonView {
    match value {
        JsonView::Str(_) => JsonView::Str(Seq::empty()),
        _ => value,
    }
}

/// A value with the text of its strings taken out.
pub open spec fn blank_value(value: JsonView) -> JsonView {
    match value {
        JsonView::Array(items) => JsonView::Array(
            items.map_values(|item: JsonView| blank_scalar(item)),
        ),
        _ => blank_scalar(value),
    }
}

/// A predicate with its column names and the text of its strings taken out: its shape,
/// its operators, and its numbers, booleans and nulls.
pub open spec fn blank(filter: FilterView) -> FilterView
    decreases filter,
{
    match filter {
        FilterView::And(parts) => FilterView::And(
            Seq::new(
                parts.len(),
                |i: int|
                    if 0 <= i < parts.len() {
                        blank(parts[i])
                    } else {
                        arbitrary()
                    },
            ),
        ),
        FilterView::Or(parts) => FilterView::Or(
            Seq::new(
                parts.len(),
                |i: int|
                    if 0 <= i < parts.len() {
                        blank(parts[i])
                    } else {
                        arbitrary()
                    },
            ),
        ),
        FilterView::Cmp { field, op, value } => FilterView::Cmp {
            field: Seq::empty(),
            op,
            value: blank_value(value),
        },
    }
}

/// Whether the two texts are read alike: with the same outline, and to the same place, which
/// is inside no quote.
pub open spec fn alike(a: Seq<char>, b: Seq<char>, ident: char) -> bool {
    &&& read(Reader::Outside, a, ident) == read(Reader::Outside, b, ident)
    &&& !(read(Reader::Outside, a, ident) is Inside)
    &&& outline(Reader::Outside, a, ident) == outline(Reader::Outside, b, ident)
}

/// Texts that are read alike can be put together, where the reader stands outside between
/// them.
proof fn lemma_alike_behind(
    a: Seq<char>,
    b: Seq<char>,
    c: Seq<char>,
    d: Seq<char>,
    ident: char,
)
    requires
        alike(a, b, ident),
        alike(c, d, ident),
        read(Reader::Outside, a, ident) is Outside,
    ensures
        alike(a + c, b + d, ident),
{
    lemma_read_twice(Reader::Outside, a, c, ident);
    lemma_read_twice(Reader::Outside, b, d, ident);
}

/// Text without quotes can be put behind texts that are read alike. Where there is any, the
/// reader stands outside behind it.
proof fn lemma_alike_ahead(a: Seq<char>, b: Seq<char>, word: Seq<char>, ident: char)
    requires
        alike(a, b, ident),
        plain(word, ident),
    ensures
        alike(a + word, b + word, ident),
        word.len() > 0 ==> read(Reader::Outside, a + word, ident) is Outside,
{
    let at = read(Reader::Outside, a, ident);
    lemma_read_twice(Reader::Outside, a, word, ident);
    lemma_read_twice(Reader::Outside, b, word, ident);
    lemma_read_plain(word, ident);
    if word.len() > 0 {
        match at {
            Reader::Closed(quote) => {
                if word[0] == quote {
                    lemma_closed_quote(a, ident);
                }
                lemma_read_closed(quote, word, ident);
            },
            _ => {},
        }
    }
}

/// What closes is a quote.
proof fn lemma_closed_quote(text: Seq<char>, ident: char)
    ensures
        match read(Reader::Outside, text, ident) {
            Reader::Outside => true,
            Reader::Inside(quote) => is_quote(quote, ident),
            Reader::Closed(quote) => is_quote(quote, ident),
        },
    decreases text.len(),
{
    if text.len() > 0 {
        lemma_closed_quote(text.drop_last(), ident);
    }
}

/// Two quoted texts are read alike.
proof fn lemma_alike_quoted(a: Seq<char>, b: Seq<char>, quote: char, ident: char)
    requires
        is_quote(quote, ident),
    ensures
        alike(sql::quoted(a, quote), sql::quoted(b, quote), ident),
{
    quoting_encloses(a, quote, ident);
    quoting_encloses(b, quote, ident);
}

/// Text without quotes is read like itself.
proof fn lemma_alike_plain(text: Seq<char>, ident: char)
    requires
        plain(text, ident),
    ensures
        alike(text, text, ident),
{
    lemma_read_plain(text, ident);
}

/// Lists of texts that are read alike can be joined.
proof fn lemma_alike_joined(
    a: Seq<Seq<char>>,
    b: Seq<Seq<char>>,
    sep: Seq<char>,
    ident: char,
)
    requires
        a.len() == b.len(),
        forall|i: int| 0 <= i < a.len() ==> alike(#[trigger] a[i], b[i], ident),
        plain(sep, ident),
        sep.len() > 0,
    ensures
        alike(text::joined(a, sep), text::joined(b, sep), ident),
    decreases a.len(),
{
    if a.len() == 0 {
        lemma_alike_plain(Seq::empty(), ident);
    } else if a.len() == 1 {
        assert(alike(a[0], b[0], ident));
    } else {
        assert forall|i: int| 0 <= i < a.drop_last().len() implies alike(
            #[trigger] a.drop_last()[i],
            b.drop_last()[i],
            ident,
        ) by {
            assert(alike(a[i], b[i], ident));
        }
        lemma_alike_joined(a.drop_last(), b.drop_last(), sep, ident);
        let before = text::joined(a.drop_last(), sep);
        let blank_before = text::joined(b.drop_last(), sep);
        lemma_alike_ahead(before, blank_before, sep, ident);
        assert(alike(a[a.len() - 1], b[b.len() - 1], ident));
        lemma_alike_behind(before + sep, blank_before + sep, a.last(), b.last(), ident);
    }
}

/// Whether `ident` is a quote that SQL dialects put around identifiers.
pub open spec fn dialect_quote(ident: char) -> bool {
    ident == '"' || ident == '`'
}

/// The words around names and values hold no quote.
proof fn lemma_words(op: Op, ident: char)
    requires
        dialect_quote(ident),
    ensures
        plain(filter::before_operand(op), ident),
        filter::before_operand(op).len() > 0,
        plain(filter::after_operand(op), ident),
        plain("("@, ident),
        plain(")"@, ident),
        plain(", "@, ident),
        ", "@.len() > 0,
        plain(" "@, ident),
        " "@.len() > 0,
        plain("AND"@, ident),
        plain("OR"@, ident),
        plain("TRUE"@, ident),
        plain("FALSE"@, ident),
        plain("NULL"@, ident),
{
    reveal_strlit(" = ");
    reveal_strlit(" <> ");
    reveal_strlit(" < ");
    reveal_strlit(" <= ");
    reveal_strlit(" > ");
    reveal_strlit(" >= ");
    reveal_strlit(" LIKE ");
    reveal_strlit(" IN (");
    reveal_strlit(" NOT IN (");
    reveal_strlit(" IS NULL");
    reveal_strlit(" IS NOT NULL");
    reveal_strlit("(");
    reveal_strlit(")");
    reveal_strlit(", ");
    reveal_strlit(" ");
    reveal_strlit("AND");
    reveal_strlit("OR");
    reveal_strlit("TRUE");
    reveal_strlit("FALSE");
    reveal_strlit("NULL");
}

/// Decimals hold no quote.
proof fn lemma_decimal_plain(n: nat, ident: char)
    requires
        dialect_quote(ident),
    ensures
        plain(text::decimal(n), ident),
    decreases n,
{
    if n >= 10 {
        lemma_decimal_plain(n / 10, ident);
    }
}

/// Digits hold no quote, and end within the text.
proof fn lemma_digits(s: Seq<char>, from: int)
    requires
        0 <= from <= s.len(),
    ensures
        from <= json::digits_end(s, from) <= s.len(),
        forall|i: int|
            from <= i < json::digits_end(s, from) ==> text::is_digit(#[trigger] s[i]),
    decreases s.len() - from,
{
    if from < s.len() && text::is_digit(s[from]) {
        lemma_digits(s, from + 1);
    }
}

/// The text of a number holds no quote.
proof fn lemma_number_plain(s: Seq<char>, ident: char)
    requires
        dialect_quote(ident),
        json::writes_number(s),
    ensures
        plain(s, ident),
{
    let start = if s.len() > 0 && s[0] == '-' {
        1
    } else {
        0
    };
    lemma_digits(s, start);
    let whole = json::digits_end(s, start);
    if whole < s.len() && s[whole] == '.' {
        lemma_digits(s, whole + 1);
    }
    let fraction = json::fraction_end(s, whole);
    let digits = json::exponent_digits(s, fraction);
    if fraction < s.len() {
        if digits <= s.len() {
            lemma_digits(s, digits);
        }
    }
    assert forall|i: int| 0 <= i < s.len() implies !is_quote(#[trigger] s[i], ident) by {
        if start <= i < whole {
            assert(text::is_digit(s[i]));
        } else if whole < i < fraction {
            assert(text::is_digit(s[i]));
        } else if fraction < s.len() && digits <= i {
            assert(text::is_digit(s[i]));
        }
    }
}

/// A scalar's literal is read like that of the blanked scalar.
proof fn lemma_literal_alike(value: JsonView, ident: char)
    requires
        dialect_quote(ident),
        filter::literal_text(value) is Ok,
    ensures
        filter::literal_text(blank_scalar(value)) is Ok,
        alike(
            filter::literal_text(value)->Ok_0,
            filter::literal_text(blank_scalar(value))->Ok_0,
            ident,
        ),
{
    lemma_words(Op::Eq, ident);
    match value {
        JsonView::Str(s) => lemma_alike_quoted(s, Seq::empty(), '\'', ident),
        JsonView::Number(n) => {
            match n {
                NumberView::PosInt(k) => lemma_decimal_plain(k as nat, ident),
                NumberView::NegInt(k) => {
                    if k < 0 {
                        lemma_decimal_plain((-k) as nat, ident);
                    } else {
                        lemma_decimal_plain(k as nat, ident);
                    }
                },
                NumberView::Float(text) => lemma_number_plain(text, ident),
            }
            assert(plain(filter::number_text(n), ident));
            lemma_alike_plain(filter::number_text(n), ident);
        },
        _ => {
            lemma_alike_plain("TRUE"@, ident);
            lemma_alike_plain("FALSE"@, ident);
            lemma_alike_plain("NULL"@, ident);
        },
    }
}

/// The literals of a list are read like those of the blanked list.
proof fn lemma_literals_alike(items: Seq<JsonView>, ident: char)
    requires
        dialect_quote(ident),
        filter::literal_texts(items) is Ok,
    ensures
        ({
            let blanked = items.map_values(|item: JsonView| blank_scalar(item));
            let a = filter::literal_texts(items)->Ok_0;
            let b = filter::literal_texts(blanked)->Ok_0;
            &&& filter::literal_texts(blanked) is Ok
            &&& a.len() == b.len() == items.len()
            &&& forall|i: int| 0 <= i < a.len() ==> alike(#[trigger] a[i], b[i], ident)
        }),
    decreases items.len(),
{
    let blanked = items.map_values(|item: JsonView| blank_scalar(item));
    if items.len() > 0 {
        let fewer = items.drop_last();
        lemma_literals_alike(fewer, ident);
        assert(blanked.drop_last() =~= fewer.map_values(|item: JsonView| blank_scalar(item)));
        lemma_literal_alike(items.last(), ident);
        assert(blanked.last() == blank_scalar(items.last()));
    }
}

/// An operand is read like the blanked operand.
proof fn lemma_operand_alike(op: Op, value: JsonView, ident: char)
    requires
        dialect_quote(ident),
        filter::operand(op, value) is Ok,
    ensures
        filter::operand(op, blank_value(value)) is Ok,
        alike(
            filter::operand(op, value)->Ok_0,
            filter::operand(op, blank_value(value))->Ok_0,
            ident,
        ),
{
    lemma_words(op, ident);
    match op {
        Op::Like => {
            lemma_alike_quoted(value->Str_0, Seq::empty(), '\'', ident);
        },
        Op::In | Op::NotIn => {
            let items = value->Array_0;
            let blanked = items.map_values(|item: JsonView| blank_scalar(item));
            lemma_literals_alike(items, ident);
            lemma_alike_joined(
                filter::literal_texts(items)->Ok_0,
                filter::literal_texts(blanked)->Ok_0,
                ", "@,
                ident,
            );
        },
        Op::IsNull | Op::NotNull => {
            lemma_alike_plain(Seq::empty(), ident);
        },
        _ => {
            lemma_literal_alike(value, ident);
        },
    }
}

/// A group is read like the blanked group.
proof fn lemma_group_alike(
    parts: Seq<FilterView>,
    blanked: Seq<FilterView>,
    sep: Seq<char>,
    name: Seq<char>,
    ident: char,
)
    requires
        dialect_quote(ident),
        plain(sep, ident),
        blanked.len() == parts.len(),
        forall|i: int| 0 <= i < parts.len() ==> blanked[i] == blank(#[trigger] parts[i]),
        filter::group_text(parts, sep, name, ident) is Ok,
    ensures
        filter::group_text(blanked, sep, name, ident) is Ok,
        alike(
            filter::group_text(parts, sep, name, ident)->Ok_0,
            filter::group_text(blanked, sep, name, ident)->Ok_0,
            ident,
        ),
    decreases parts, 2int,
{
    lemma_words(Op::Eq, ident);
    lemma_parts_alike(parts, blanked, ident);
    let a = filter::sql_texts(parts, ident)->Ok_0;
    let b = filter::sql_texts(blanked, ident)->Ok_0;
    let between = " "@ + sep + " "@;
    assert(plain(between, ident)) by {
        assert forall|i: int| 0 <= i < between.len() implies !is_quote(
            #[trigger] between[i],
            ident,
        ) by {
            reveal_strlit(" ");
            if 1 <= i < 1 + sep.len() {
                assert(between[i] == sep[i - 1]);
            }
        }
    }
    lemma_alike_joined(a, b, between, ident);
    lemma_read_plain("("@, ident);
    lemma_alike_behind("("@, "("@, text::joined(a, between), text::joined(b, between), ident);
    lemma_alike_ahead(
        "("@ + text::joined(a, between),
        "("@ + text::joined(b, between),
        ")"@,
        ident,
    );
}

/// The parts of a group are read like the blanked parts.
proof fn lemma_parts_alike(parts: Seq<FilterView>, blanked: Seq<FilterView>, ident: char)
    requires
        dialect_quote(ident),
        blanked.len() == parts.len(),
        forall|i: int| 0 <= i < parts.len() ==> blanked[i] == blank(#[trigger] parts[i]),
        filter::sql_texts(parts, ident) is Ok,
    ensures
        ({
            let a = filter::sql_texts(parts, ident)->Ok_0;
            let b = filter::sql_texts(blanked, ident)->Ok_0;
            &&& filter::sql_texts(blanked, ident) is Ok
            &&& a.len() == b.len() == parts.len()
            &&& forall|i: int| 0 <= i < a.len() ==> alike(#[trigger] a[i], b[i], ident)
        }),
    decreases parts, 1int,
{
    if parts.len() > 0 {
        let fewer = parts.drop_last();
        let blanked_fewer = blanked.drop_last();
        assert forall|i: int| 0 <= i < fewer.len() implies blanked_fewer[i] == blank(
            #[trigger] fewer[i],
        ) by {
            assert(fewer[i] == parts[i]);
        }
        lemma_parts_alike(fewer, blanked_fewer, ident);
        filters_stay_in_quotes(parts.last(), ident);
        assert(blanked.last() == blank(parts[parts.len() - 1]));
    }
}

/// No column name and no string can reach the SQL around it: the outline of a rendered
/// predicate is that of the same predicate with its names and strings blanked, and every quote
/// that it opens it closes.
pub proof fn filters_stay_in_quotes(predicate: FilterView, ident: char)
    requires
        dialect_quote(ident),
        filter::sql_text(predicate, ident) is Ok,
    ensures
        filter::sql_text(blank(predicate), ident) is Ok,
        alike(
            filter::sql_text(predicate, ident)->Ok_0,
            filter::sql_text(blank(predicate), ident)->Ok_0,
            ident,
        ),
    decreases predicate, 0int,
{
    lemma_words(Op::Eq, ident);
    match predicate {
        FilterView::And(parts) => {
            let blanked = blank(predicate)->And_0;
            lemma_group_alike(parts, blanked, "AND"@, "and"@, ident);
        },
        FilterView::Or(parts) => {
            let blanked = blank(predicate)->Or_0;
            lemma_group_alike(parts, blanked, "OR"@, "or"@, ident);
        },
        FilterView::Cmp { field, op, value } => {
            lemma_words(op, ident);
            lemma_operand_alike(op, value, ident);
            lemma_alike_quoted(field, Seq::empty(), ident, ident);
            let before = filter::before_operand(op);
            let after = filter::after_operand(op);
            let a = filter::operand(op, value)->Ok_0;
            let b = filter::operand(op, blank_value(value))->Ok_0;
            let name = sql::quoted(field, ident);
            let none = sql::quoted(Seq::empty(), ident);
            lemma_alike_ahead(name, none, before, ident);
            lemma_alike_behind(name + before, none + before, a, b, ident);
            lemma_alike_ahead(name + before + a, none + before + b, after, ident);
        },
    }
}

/// What a caller supplies as names and strings changes nothing but the names and strings: two
/// predicates that are the same without them have the same outline, so the database takes the
/// same SQL with other names and strings in its places.
pub proof fn filters_of_one_shape_have_one_outline(a: FilterView, b: FilterView, ident: char)
    requires
        dialect_quote(ident),
        blank(a) == blank(b),
        filter::sql_text(a, ident) is Ok,
        filter::sql_text(b, ident) is Ok,
    ensures
        alike(filter::sql_text(a, ident)->Ok_0, filter::sql_text(b, ident)->Ok_0, ident),
{
    filters_stay_in_quotes(a, ident);
    filters_stay_in_quotes(b, ident);
}

} // verus!
