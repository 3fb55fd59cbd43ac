//! What the SQL-shaped providers share: quoting, filters, projection, and the paging of
//! a table read.

use vstd::prelude::*;
use vstd::string::*;

use crate::error::Failure;
use crate::text;

pub use crate::error::SqlError;
pub use filter::{where_clause, Filter, Op};
pub use table::{SqlCursor, TableName, WriteResult};

pub mod filter;
pub mod projection;
pub mod reading;
pub mod safety;
pub mod table;

verus! {

// === Quoting ===

/// `s` between two `quote`s, with every `quote` in it doubled.
pub open spec fn quoted(s: Seq<char>, quote: char) -> Seq<char> {
    seq![quote] + text::replaced(s, quote, seq![quote, quote]) + seq![quote]
}

/// The identifiers, each quoted, with `, ` between each two.
pub open spec fn quoted_list(idents: Seq<Seq<char>>, quote: char) -> Seq<char> {
    text::joined(idents.map_values(|ident: Seq<char>| quoted(ident, quote)), ", "@)
}

/// `s` between two `quote`s, with every `quote` in it doubled.
fn enclose(s: &str, quote: char) -> (r: String)
    ensures
        r@ == quoted(s@, quote),
{
    let mut twice = String::new();
    twice.push(quote);
    twice.push(quote);
    assert(twice@ =~= seq![quote, quote]);
    let escaped = text::replace(s, quote, twice.as_str());
    let mut r = String::new();
    r.push(quote);
    r.append(escaped.as_str());
    r.push(quote);
    assert(r@ =~= quoted(s@, quote));
    r
}

/// Quotes a SQL identifier with `quote`, doubling any embedded quote character, so that
/// a name which contains it cannot break out of the quoting. The dialect only picks the
/// quote character.
pub fn quote_ident(ident: &str, quote: char) -> (r: String)
    ensures
        r@ == quoted(ident@, quote),
{
    enclose(ident, quote)
}

/// Quotes each identifier with `quote` and joins them with commas, for
/// `(col1, col2, ...)` clauses.
pub fn quote_idents(idents: &Vec<String>, quote: char) -> (r: String)
    ensures
        r@ == quoted_list(idents.deep_view(), quote),
{
    let ghost model = idents.deep_view().map_values(|ident: Seq<char>| quoted(ident, quote));
    let mut parts: Vec<String> = Vec::new();
    let mut i: usize = 0;
    while i < idents.len()
        invariant
            i <= idents.len(),
            model == idents.deep_view().map_values(|ident: Seq<char>| quoted(ident, quote)),
            parts.deep_view() == model.take(i as int),
        decreases idents.len() - i,
    {
        let ghost before = parts.deep_view();
        let part = quote_ident(idents[i].as_str(), quote);
        parts.push(part);
        assert(parts.deep_view() =~= before.push(part@));
        assert(parts.deep_view() =~= model.take(i + 1));
        i = i + 1;
    }
    assert(model.take(i as int) =~= model);
    text::join(&parts, ", ")
}

/// Quotes a string literal with single quotes, doubling any embedded `'`.
pub fn quote_str(s: &str) -> (r: String)
    ensures
        r@ == quoted(s@, '\''),
{
    enclose(s, '\'')
}

// === Failures ===

/// Whether `error` says that a table is absent, which is told apart from a real failure.
pub fn is_table_not_found(error: &Failure) -> (r: bool)
    ensures
        r == (error@ is TableNotFound),
{
    match error {
        Failure::Sql(SqlError::TableNotFound(_)) => true,
        _ => false,
    }
}

} // verus!
