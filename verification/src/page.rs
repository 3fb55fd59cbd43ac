//! Pages and the cursors that lead from one to the next.

use vstd::prelude::*;
use vstd::string::*;

use crate::error::{self, Failure};
use crate::json::{self, Json, JsonView, Member, Number, NumberView};
use crate::text;

verus! {

/// The cursor that comes with a [`Page`]: where the next call resumes. `next` is absent
/// at the tail of the scan.
///
/// The token is the JSON text of the provider's own cursor state, which nothing but the
/// provider interprets.
#[derive(Debug)]
pub struct Cursor {
    pub next: Option<String>,
    /// The number of elements in the whole set, where it is known.
    pub total: Option<u32>,
}

/// The model of a [`Cursor`].
pub struct CursorView {
    pub next: Option<Seq<char>>,
    pub total: Option<u32>,
}

impl View for Cursor {
    type V = CursorView;

    open spec fn view(&self) -> CursorView {
        CursorView { next: self.next.deep_view(), total: self.total }
    }
}

/// The cursor with nothing to continue to.
pub open spec fn no_cursor() -> CursorView {
    CursorView { next: None, total: None }
}

/// The cursor that resumes at `state`.
pub open spec fn cursor_to(state: JsonView) -> CursorView {
    CursorView { next: Some(json::json_rendered(state)), total: None }
}

/// The state of a walk by offset.
pub open spec fn offset_state(offset: u32) -> JsonView {
    JsonView::Object(seq![("offset"@, JsonView::Number(NumberView::PosInt(offset as u64)))])
}

/// The cursor that resumes at an offset, or nowhere.
pub open spec fn cursor_at(next: Option<u32>) -> CursorView {
    match next {
        Some(offset) => cursor_to(offset_state(offset)),
        None => no_cursor(),
    }
}

impl Cursor {
    /// A cursor with nothing to continue to: a single, complete page.
    pub fn empty() -> (r: Cursor)
        ensures
            r@ == no_cursor(),
    {
        Cursor { next: None, total: None }
    }

    /// A cursor whose next position is `state`, as a JSON token.
    pub fn new(state: &Json) -> (r: Result<Cursor, Failure>)
        ensures
            r is Ok,
            r->Ok_0@ == cursor_to(state@),
            json::flat(state@) ==> json::json_parsed(r->Ok_0@.next->0) is Ok && json::json_parsed(
                r->Ok_0@.next->0,
            )->Ok_0 == state@,
            json::flat(state@) ==> forall|name: Seq<char>|
                !#[trigger] json::repeats(r->Ok_0@.next->0, name),
    {
        let token = json::render(state);
        Ok(Cursor { next: Some(token), total: None })
    }

    /// A cursor that resumes at `offset`. Its token reads back as that offset.
    pub fn at(offset: u32) -> (r: Cursor)
        ensures
            r@ == cursor_to(offset_state(offset)),
            token_offset(r@.next) == Ok::<u32, Seq<char>>(offset),
    {
        let members = vec![
            Member {
                key: "offset".to_string(),
                value: Json::Number(Number::PosInt(offset as u64)),
            },
        ];
        let state = Json::Object(members);
        proof {
            json::lemma_json_view(state);
            assert(json::member_views(members@) =~= offset_state(offset)->Object_0);
            json::lemma_member_at_is(offset_state(offset)->Object_0, "offset"@, 0);
            assert(state@ == offset_state(offset));
            assert("offset"@.len() != json::RESERVED@.len()) by {
                reveal_strlit("offset");
                reveal_strlit("$serde_json::private::RawValue");
            }
            assert(state@.member("offset"@) == Some(
                JsonView::Number(NumberView::PosInt(offset as u64)),
            ));
        }
        match Cursor::new(&state) {
            Ok(cursor) => cursor,
            Err(_) => Cursor::empty(),
        }
    }
}

/// The offset that a value writes.
pub open spec fn value_offset(value: JsonView) -> Result<u32, Seq<char>> {
    match value.uint64() {
        Some(n) => if n <= u32::MAX {
            Ok(n as u32)
        } else {
            Err("decoding cursor: the offset is out of range"@)
        },
        None => Err("decoding cursor: the offset is not a natural number"@),
    }
}

/// The offset that a cursor state writes: that of its `offset` member, or of its only item
/// where it is an array; the beginning where it has none.
pub open spec fn state_offset(state: JsonView) -> Result<u32, Seq<char>> {
    match state {
        JsonView::Object(_) => match state.member("offset"@) {
            None => Ok(0u32),
            Some(value) => value_offset(value),
        },
        JsonView::Array(items) => if items.len() == 0 {
            Ok(0u32)
        } else if items.len() == 1 {
            value_offset(items[0])
        } else {
            Err("decoding cursor: more than an offset"@)
        },
        _ => Err("decoding cursor: not an object"@),
    }
}

/// The offset that a token resumes at: the beginning where there is no token.
pub open spec fn token_offset(token: Option<Seq<char>>) -> Result<u32, Seq<char>> {
    match token {
        None => Ok(0u32),
        Some(token) => match json::json_parsed(token) {
            Ok(state) => if state is Object && json::repeats(token, "offset"@) {
                Err("decoding cursor: duplicate field `offset`"@)
            } else {
                state_offset(state)
            },
            Err(message) => Err("decoding cursor: "@ + message),
        },
    }
}

/// The offset that a value writes.
fn read_offset(value: &Json) -> (r: Result<u32, Failure>)
    ensures
        error::gives_plain(r, value_offset(value@)),
{
    match value.as_u64() {
        Some(n) => if n <= u32::MAX as u64 {
            Ok(n as u32)
        } else {
            Err(Failure::Message("decoding cursor: the offset is out of range".to_string()))
        },
        None => Err(
            Failure::Message("decoding cursor: the offset is not a natural number".to_string()),
        ),
    }
}

/// The offset that a cursor state writes.
pub fn offset_of(state: &Json) -> (r: Result<u32, Failure>)
    ensures
        error::gives_plain(r, state_offset(state@)),
{
    proof {
        json::lemma_json_view(*state);
    }
    match state {
        Json::Object(_) => match state.get("offset") {
            None => Ok(0),
            Some(value) => read_offset(value),
        },
        Json::Array(items) => {
            if items.len() == 0 {
                Ok(0)
            } else if items.len() == 1 {
                assert(json::json_views(items@)[0] == items@[0]@);
                read_offset(&items[0])
            } else {
                Err(Failure::Message("decoding cursor: more than an offset".to_string()))
            }
        },
        _ => Err(Failure::Message("decoding cursor: not an object".to_string())),
    }
}

/// The offset that a token resumes at.
pub fn resume_offset(token: Option<&str>) -> (r: Result<u32, Failure>)
    ensures
        error::gives_plain(
            r,
            token_offset(
                match token {
                    Some(token) => Some(token@),
                    None => None,
                },
            ),
        ),
{
    match token {
        None => Ok(0),
        Some(token) => match json::parse(token) {
            Ok(state) => {
                if let Json::Object(_) = &state {
                    if json::names_twice(token, "offset") {
                        return Err(
                            Failure::Message(
                                "decoding cursor: duplicate field `offset`".to_string(),
                            ),
                        );
                    }
                }
                offset_of(&state)
            },
            Err(message) => Err(
                Failure::Message(text::cat2("decoding cursor: ", message.as_str())),
            ),
        },
    }
}

/// The page size of a read: what was asked for, else `default`, and never more than
/// `max`.
pub fn page_limit(asked: Option<u32>, default: u32, max: u32) -> (r: u32)
    ensures
        r == if (match asked {
            Some(n) => n,
            None => default,
        }) <= max {
            match asked {
                Some(n) => n,
                None => default,
            }
        } else {
            max
        },
{
    let wanted: u32 = match asked {
        Some(n) => n,
        None => default,
    };
    if wanted <= max {
        wanted
    } else {
        max
    }
}

/// The JSON of a cursor: its token, where it has one, and its total.
pub open spec fn cursor_json(cursor: CursorView) -> JsonView {
    let total = match cursor.total {
        Some(n) => JsonView::Number(NumberView::PosInt(n as u64)),
        None => JsonView::Null,
    };
    match cursor.next {
        Some(token) => JsonView::Object(seq![("next"@, JsonView::Str(token)), ("total"@, total)]),
        None => JsonView::Object(seq![("total"@, total)]),
    }
}

impl Cursor {
    /// The cursor as JSON.
    pub fn to_json(&self) -> (r: Json)
        ensures
            r@ == cursor_json(self@),
    {
        let total = match self.total {
            Some(n) => Json::Number(Number::PosInt(n as u64)),
            None => Json::Null,
        };
        let last = Member { key: "total".to_string(), value: total };
        let members = match &self.next {
            Some(token) => vec![
                Member { key: "next".to_string(), value: Json::Str(token.clone()) },
                last,
            ],
            None => vec![last],
        };
        let r = Json::Object(members);
        proof {
            json::lemma_json_view(r);
            assert(json::member_views(members@) =~= cursor_json(self@)->Object_0);
        }
        r
    }
}

impl Default for Cursor {
    fn default() -> (r: Self)
        ensures
            r@ == no_cursor(),
    {
        Cursor::empty()
    }
}

impl Clone for Cursor {
    fn clone(&self) -> (r: Self)
        ensures
            r@ == self@,
    {
        Cursor {
            next: match &self.next {
                Some(token) => Some(token.clone()),
                None => None,
            },
            total: self.total,
        }
    }
}

/// One page of a list endpoint: the items, and the cursor to continue from.
#[derive(Debug)]
pub struct Page<T> {
    pub items: Vec<T>,
    pub cursor: Cursor,
}

impl<T> Page<T> {
    /// The page of the given items.
    pub fn new(items: Vec<T>, cursor: Cursor) -> (r: Page<T>)
        ensures
            r.items == items,
            r.cursor == cursor,
    {
        Page { items, cursor }
    }
}

/// How the sync layer walks a list endpoint. The two differ in where a run starts, when
/// it stops, and what a second run does.
#[derive(Debug, Clone, Copy, PartialEq, Eq, Structural)]
pub enum ListStrategy {
    /// Finite backfill by offset and limit. The cursor ends at the tail, so a run starts
    /// from the beginning and drains to completion.
    Offset,
    /// Incremental tail, walked from old to new. The cursor never ends: a run resumes
    /// from the last persisted cursor and stops at a page without rows.
    NextLink,
}

// === Laws ===

/// The state of a walk by offset has the offset as its only member, and is read as it; a state
/// without an offset is read as the beginning.
pub proof fn offsets_are_read_back(offset: u32)
    ensures
        state_offset(offset_state(offset)) == Ok::<u32, Seq<char>>(offset),
        state_offset(JsonView::Array(seq![JsonView::Number(NumberView::PosInt(offset as u64))]))
            == Ok::<u32, Seq<char>>(offset),
        state_offset(JsonView::Object(Seq::empty())) == Ok::<u32, Seq<char>>(0u32),
        state_offset(JsonView::Array(Seq::empty())) == Ok::<u32, Seq<char>>(0u32),
        token_offset(None) == Ok::<u32, Seq<char>>(0u32),
        json::flat(offset_state(offset)),
{
    json::lemma_member_at_is(offset_state(offset)->Object_0, "offset"@, 0);
    reveal_strlit("offset");
    reveal_strlit("$serde_json::private::RawValue");
    assert("offset"@.len() != json::RESERVED@.len());
}

/// An offset is read where it is a natural number of 32 bits, and from nothing else.
pub proof fn only_natural_offsets_are_read(state: JsonView)
    ensures
        match state_offset(state) {
            Ok(offset) => {
                ||| state is Object && match state.member("offset"@) {
                    Some(value) => value == JsonView::Number(NumberView::PosInt(offset as u64)),
                    None => offset == 0,
                }
                ||| state is Array && state->Array_0.len() == 0 && offset == 0
                ||| state is Array && state->Array_0.len() == 1 && state->Array_0[0]
                    == JsonView::Number(NumberView::PosInt(offset as u64))
            },
            Err(_) => true,
        },
        state is Object && state.member("offset"@) is None ==> state_offset(state) is Ok,
        forall|n: u32|
            state is Object && #[trigger] state.member("offset"@) == Some(
                JsonView::Number(NumberView::PosInt(n as u64)),
            ) ==> state_offset(state) == Ok::<u32, Seq<char>>(n),
{
}

/// A cursor as JSON says where it resumes, where it does, and how many elements there are.
pub proof fn cursors_say_where_they_resume(cursor: CursorView)
    ensures
        cursor_json(cursor).member("next"@) == match cursor.next {
            Some(token) => Some(JsonView::Str(token)),
            None => None,
        },
        cursor_json(cursor).member("total"@) == Some(
            match cursor.total {
                Some(n) => JsonView::Number(NumberView::PosInt(n as u64)),
                None => JsonView::Null,
            },
        ),
        forall|key: Seq<char>|
            key != "next"@ && key != "total"@ ==> #[trigger] cursor_json(cursor).member(key)
                is None,
{
    reveal_strlit("next");
    reveal_strlit("total");
    let members = cursor_json(cursor)->Object_0;
    assert("next"@.len() != "total"@.len());
    match cursor.next {
        Some(token) => {
            json::lemma_member_at_is(members, "next"@, 0);
            json::lemma_member_at_is(members, "total"@, 1);
        },
        None => {
            json::lemma_member_at_is(members, "next"@, 1);
            json::lemma_member_at_is(members, "total"@, 0);
        },
    }
    assert forall|key: Seq<char>| key != "next"@ && key != "total"@ implies #[trigger] cursor_json(
        cursor,
    ).member(key) is None by {
        json::lemma_member_at(members, key);
    }
}


/// A cursor leads to the offset that it was made for: its token is the text of a state that is
/// read as that offset. Without an offset it leads nowhere.
pub proof fn cursors_lead_to_their_offset(next: Option<u32>)
    ensures
        next is None ==> cursor_at(next).next is None,
        next is Some ==> exists|state: JsonView|
            {
                &&& cursor_at(next).next == Some(#[trigger] json::json_rendered(state))
                &&& state_offset(state) == Ok::<u32, Seq<char>>(next->0)
            },
        cursor_at(next).total is None,
        no_cursor().next is None,
{
    if next is Some {
        offsets_are_read_back(next->0);
        assert(cursor_at(next).next == Some(json::json_rendered(offset_state(next->0))));
    }
}


/// A token is read by the state that it writes. One that is no JSON is refused, and so is an
/// object that writes its offset twice.
pub proof fn tokens_are_read_by_their_state(token: Seq<char>)
    ensures
        json::json_parsed(token) is Err ==> token_offset(Some(token)) is Err,
        json::json_parsed(token) is Ok && json::json_parsed(token)->Ok_0 is Object
            && json::repeats(token, "offset"@) ==> token_offset(Some(token)) is Err,
        json::json_parsed(token) is Ok && !(json::json_parsed(token)->Ok_0 is Object
            && json::repeats(token, "offset"@)) ==> token_offset(Some(token)) == state_offset(
            json::json_parsed(token)->Ok_0,
        ),
{
}

} // verus!
