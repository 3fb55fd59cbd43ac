//! How a sink applies a written dataset.

use vstd::prelude::*;
use vstd::string::*;

use crate::error::{self, Failure};
use crate::text;

verus! {

/// How a sink should apply a written dataset. It rides on `put` as the reserved
/// `disposition` query param, so that every sink shares one write surface.
#[derive(Debug, Clone, Copy, PartialEq, Eq, Structural)]
pub enum Disposition {
    /// Insert every row. Writing again adds duplicates, unless the table has a key: it then
    /// skips the rows whose key is there.
    Append,
    /// Write by key: insert each row, or update the non-key columns where its key is
    /// there already. The schema must declare a key.
    Merge,
}

impl Default for Disposition {
    fn default() -> (r: Self)
        ensures
            r == Disposition::Append,
    {
        Disposition::Append
    }
}

impl Disposition {
    /// The reserved `put` query param that selects the disposition.
    pub const PARAM: &'static str = "disposition";

    /// The param value of the disposition.
    pub open spec fn word(self) -> Seq<char> {
        match self {
            Disposition::Append => "append"@,
            Disposition::Merge => "merge"@,
        }
    }

    /// What a param value selects.
    pub open spec fn of_word(value: Option<Seq<char>>) -> Result<Disposition, Seq<char>> {
        match value {
            None => Ok(Disposition::Append),
            Some(word) => if word == "append"@ {
                Ok(Disposition::Append)
            } else if word == "merge"@ || word == "upsert"@ {
                Ok(Disposition::Merge)
            } else {
                Err("unknown write disposition `"@ + word + "` (append|merge)"@)
            },
        }
    }

    /// Reads the param value: `append`, or `merge` or `upsert`. Append where it is absent.
    pub fn from_param(value: Option<&str>) -> (r: Result<Disposition, Failure>)
        ensures
            error::gives_plain(
                r,
                Disposition::of_word(
                    match value {
                        Some(word) => Some(word@),
                        None => None,
                    },
                ),
            ),
    {
        match value {
            None => Ok(Disposition::Append),
            Some(word) => if text::same(word, "append") {
                Ok(Disposition::Append)
            } else if text::same(word, "merge") || text::same(word, "upsert") {
                Ok(Disposition::Merge)
            } else {
                Err(
                    Failure::Message(
                        text::cat3("unknown write disposition `", word, "` (append|merge)"),
                    ),
                )
            },
        }
    }

    /// The param value, which [`from_param`](Self::from_param) reads back.
    pub fn as_param(self) -> (r: &'static str)
        ensures
            r@ == self.word(),
    {
        match self {
            Disposition::Append => "append",
            Disposition::Merge => "merge",
        }
    }
}

// === Keyed tables ===

/// A table that keeps one row for each key, with one more row put into it. Appending skips a
/// row whose key is there; merging takes its place.
pub open spec fn placed<K, R>(disposition: Disposition, table: Map<K, R>, row: (K, R)) -> Map<K, R> {
    if disposition == Disposition::Append && table.contains_key(row.0) {
        table
    } else {
        table.insert(row.0, row.1)
    }
}

/// A table that keeps one row for each key, with rows put into it one behind the other.
pub open spec fn applied<K, R>(
    disposition: Disposition,
    table: Map<K, R>,
    rows: Seq<(K, R)>,
) -> Map<K, R>
    decreases rows.len(),
{
    if rows.len() == 0 {
        table
    } else {
        placed(disposition, applied(disposition, table, rows.drop_last()), rows.last())
    }
}

/// The row that rows bring for a key, where they bring one: appending the first, merging the
/// last.
pub open spec fn brought<K, R>(disposition: Disposition, rows: Seq<(K, R)>, key: K) -> Option<R>
    decreases rows.len(),
{
    if rows.len() == 0 {
        None
    } else {
        let before = brought(disposition, rows.drop_last(), key);
        if rows.last().0 != key || disposition == Disposition::Append && before is Some {
            before
        } else {
            Some(rows.last().1)
        }
    }
}

/// A keyed table holds, of each key, what it held or what the rows bring: appending keeps what
/// was there, merging takes what is new.
pub proof fn keyed_writes_keep_one_row<K, R>(
    disposition: Disposition,
    table: Map<K, R>,
    rows: Seq<(K, R)>,
    key: K,
)
    ensures
        ({
            let after = applied(disposition, table, rows);
            let new = brought(disposition, rows, key);
            let stays = table.contains_key(key) && (disposition == Disposition::Append || new
                is None);
            &&& after.contains_key(key) <==> table.contains_key(key) || new is Some
            &&& stays ==> after[key] == table[key]
            &&& !stays && new is Some ==> after[key] == new->Some_0
        }),
    decreases rows.len(),
{
    if rows.len() > 0 {
        keyed_writes_keep_one_row(disposition, table, rows.drop_last(), key);
    }
}

/// Writing the same rows again into a keyed table changes nothing, whether they are appended
/// or merged: no key is there twice.
pub proof fn keyed_writes_are_idempotent<K, R>(
    disposition: Disposition,
    table: Map<K, R>,
    rows: Seq<(K, R)>,
)
    ensures
        ({
            let once = applied(disposition, table, rows);
            applied(disposition, once, rows) == once
        }),
{
    let once = applied(disposition, table, rows);
    let twice = applied(disposition, once, rows);
    assert forall|key: K| #![trigger once.contains_key(key)] #![trigger twice.contains_key(key)] {
        &&& once.contains_key(key) <==> twice.contains_key(key)
        &&& once.contains_key(key) ==> twice[key] == once[key]
    } by {
        keyed_writes_keep_one_row(disposition, table, rows, key);
        keyed_writes_keep_one_row(disposition, once, rows, key);
    }
    assert(twice =~= once);
}

/// Rows put into a keyed table in two parts are the rows put into it together.
pub proof fn keyed_writes_add_up<K, R>(
    disposition: Disposition,
    table: Map<K, R>,
    first: Seq<(K, R)>,
    second: Seq<(K, R)>,
)
    ensures
        applied(disposition, table, first + second) == applied(
            disposition,
            applied(disposition, table, first),
            second,
        ),
    decreases second.len(),
{
    if second.len() == 0 {
        assert(first + second =~= first);
    } else {
        keyed_writes_add_up(disposition, table, first, second.drop_last());
        assert((first + second).drop_last() =~= first + second.drop_last());
    }
}

/// Every disposition is read back from its param value.
pub proof fn disposition_reads_back(disposition: Disposition)
    ensures
        Disposition::of_word(Some(disposition.word())) == Ok::<Disposition, Seq<char>>(
            disposition,
        ),
{
    reveal_strlit("append");
    reveal_strlit("merge");
    assert("append"@.len() != "merge"@.len());
}


/// A param value selects merging where it is one of its two words, appending where it is
/// absent or its word, and is else refused by name.
pub proof fn words_select_a_disposition(word: Seq<char>)
    ensures
        Disposition::of_word(None) == Ok::<Disposition, Seq<char>>(Disposition::Append),
        Disposition::of_word(Some(word)) == Ok::<Disposition, Seq<char>>(Disposition::Append)
            <==> word == "append"@,
        Disposition::of_word(Some(word)) == Ok::<Disposition, Seq<char>>(Disposition::Merge)
            <==> word == "merge"@ || word == "upsert"@,
        Disposition::of_word(Some(word)) is Err ==> Disposition::of_word(Some(word))->Err_0
            == "unknown write disposition `"@ + word + "` (append|merge)"@,
{
    reveal_strlit("append");
    reveal_strlit("merge");
    reveal_strlit("upsert");
    assert("append"@.len() == 6 && "merge"@.len() == 5 && "upsert"@.len() == 6);
    assert("append"@[0] == 'a' && "upsert"@[0] == 'u');
}

} // verus!
