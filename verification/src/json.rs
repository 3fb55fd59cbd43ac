//! JSON values.
//!
//! JSON appears at the edges of the data layer: rows of JSON-native sources, request
//! bodies, cursor tokens and filter values. Parsing and rendering are `serde_json`'s;
//! the tree in between is this module's.

use vstd::prelude::*;
use vstd::string::*;

use serde_json::Value;

use crate::text;

verus! {

/// A JSON number. A number with a fraction or an exponent is held as the text that
/// renders it.
#[derive(Debug)]
pub enum Number {
    PosInt(u64),
    NegInt(i64),
    Float(String),
}

/// A JSON value. An object keeps its members in order.
#[derive(Debug)]
pub enum Json {
    Null,
    Bool(bool),
    Number(Number),
    Str(String),
    Array(Vec<Json>),
    Object(Vec<Member>),
}

/// One member of a JSON object.
#[derive(Debug)]
pub struct Member {
    pub key: String,
    pub value: Json,
}

/// The model of a [`Number`].
pub enum NumberView {
    PosInt(u64),
    NegInt(i64),
    Float(Seq<char>),
}

/// The model of a [`Json`] value.
pub enum JsonView {
    Null,
    Bool(bool),
    Number(NumberView),
    Str(Seq<char>),
    Array(Seq<JsonView>),
    Object(Seq<(Seq<char>, JsonView)>),
}

impl View for Number {
    type V = NumberView;

    open spec fn view(&self) -> NumberView {
        match self {
            Number::PosInt(n) => NumberView::PosInt(*n),
            Number::NegInt(n) => NumberView::NegInt(*n),
            Number::Float(text) => NumberView::Float(text@),
        }
    }
}

/// The model of `json`.
pub open spec fn json_view(json: Json) -> JsonView
    decreases json,
{
    match json {
        Json::Null => JsonView::Null,
        Json::Bool(b) => JsonView::Bool(b),
        Json::Number(n) => JsonView::Number(n@),
        Json::Str(s) => JsonView::Str(s@),
        Json::Array(items) => JsonView::Array(
            Seq::new(
                items@.len(),
                |i: int|
                    if 0 <= i < items@.len() {
                        json_view(items@[i])
                    } else {
                        JsonView::Null
                    },
            ),
        ),
        Json::Object(members) => JsonView::Object(
            Seq::new(
                members@.len(),
                |i: int|
                    if 0 <= i < members@.len() {
                        (members@[i].key@, json_view(members@[i].value))
                    } else {
                        (Seq::empty(), JsonView::Null)
                    },
            ),
        ),
    }
}

impl View for Json {
    type V = JsonView;

    open spec fn view(&self) -> JsonView {
        json_view(*self)
    }
}

impl View for Member {
    type V = (Seq<char>, JsonView);

    open spec fn view(&self) -> (Seq<char>, JsonView) {
        (self.key@, self.value@)
    }
}

/// The models of a list of values.
pub open spec fn json_views(items: Seq<Json>) -> Seq<JsonView> {
    items.map_values(|json: Json| json@)
}

/// The models of the members of an object.
pub open spec fn member_views(members: Seq<Member>) -> Seq<(Seq<char>, JsonView)> {
    members.map_values(|member: Member| member@)
}

/// The models of the parts of an array and of an object are the parts of the models.
pub broadcast proof fn lemma_json_view(json: Json)
    ensures
        match json {
            Json::Array(items) => (#[trigger] json@) == JsonView::Array(json_views(items@)),
            Json::Object(members) => json@ == JsonView::Object(member_views(members@)),
            _ => true,
        },
{
    match json {
        Json::Array(items) => {
            assert(json@->Array_0 =~= json_views(items@));
        },
        Json::Object(members) => {
            assert(json@->Object_0 =~= member_views(members@));
        },
        _ => {},
    }
}

/// The position of the first member named `key`; the number of members when there is
/// none.
pub open spec fn member_at(members: Seq<(Seq<char>, JsonView)>, key: Seq<char>) -> nat
    decreases members.len(),
{
    if members.len() == 0 || members[0].0 == key {
        0
    } else {
        1 + member_at(members.drop_first(), key)
    }
}

impl JsonView {
    /// The member `key` of an object.
    pub open spec fn member(self, key: Seq<char>) -> Option<JsonView> {
        match self {
            JsonView::Object(members) => {
                let i = member_at(members, key) as int;
                if i < members.len() {
                    Some(members[i].1)
                } else {
                    None
                }
            },
            _ => None,
        }
    }

    /// The text of a string.
    pub open spec fn string(self) -> Option<Seq<char>> {
        match self {
            JsonView::Str(s) => Some(s),
            _ => None,
        }
    }

    /// The value of an integer that fits in 64 signed bits.
    pub open spec fn int64(self) -> Option<i64> {
        match self {
            JsonView::Number(NumberView::PosInt(n)) => if n <= i64::MAX {
                Some(n as i64)
            } else {
                None
            },
            JsonView::Number(NumberView::NegInt(n)) => Some(n),
            _ => None,
        }
    }

    /// The value of a non-negative integer.
    pub open spec fn uint64(self) -> Option<u64> {
        match self {
            JsonView::Number(NumberView::PosInt(n)) => Some(n),
            _ => None,
        }
    }
}

/// What [`member_at`] finds: no such member ahead of it, and one there unless it is
/// the end.
pub proof fn lemma_member_at(members: Seq<(Seq<char>, JsonView)>, key: Seq<char>)
    ensures
        member_at(members, key) <= members.len(),
        forall|j: int| 0 <= j < member_at(members, key) ==> (#[trigger] members[j]).0 != key,
        member_at(members, key) < members.len() ==> members[member_at(members, key) as int].0
            == key,
    decreases members.len(),
{
    if members.len() > 0 && members[0].0 != key {
        let rest = members.drop_first();
        lemma_member_at(rest, key);
        assert forall|j: int| 0 <= j < member_at(members, key) implies (#[trigger] members[j]).0
            != key by {
            if j > 0 {
                assert(rest[j - 1] == members[j]);
            }
        }
    }
}

/// [`member_at`] is pinned down by what [`lemma_member_at`] says of it.
pub proof fn lemma_member_at_is(members: Seq<(Seq<char>, JsonView)>, key: Seq<char>, i: int)
    requires
        0 <= i <= members.len(),
        forall|j: int| 0 <= j < i ==> (#[trigger] members[j]).0 != key,
        i < members.len() ==> members[i].0 == key,
    ensures
        member_at(members, key) == i,
{
    lemma_member_at(members, key);
}

// === serde_json ===

/// `serde_json::Value`, as it is handed from one call of `serde_json` to the next.
#[verifier::external_type_specification]
#[verifier::external_body]
pub struct ExValue(Value);

/// What `serde_json` reads from `text`: a value, or the message of its error.
pub uninterp spec fn json_parsed(text: Seq<char>) -> Result<JsonView, Seq<char>>;

/// The compact rendering of `json` by `serde_json`.
pub uninterp spec fn json_rendered(json: JsonView) -> Seq<char>;

/// The member name that `serde_json` takes as an instruction: what stands behind it is read
/// as JSON text.
pub const RESERVED: &'static str = "$serde_json::private::RawValue";

/// Whether `json` is an object of integers whose names stand in strict order, none of them
/// the reserved one.
pub open spec fn flat(json: JsonView) -> bool {
    match json {
        JsonView::Object(members) => {
            &&& forall|i: int|
                0 <= i < members.len() ==> {
                    &&& (#[trigger] members[i]).1.uint64() is Some
                    &&& members[i].0 != RESERVED@
                }
            &&& forall|i: int, j: int|
                0 <= i < j < members.len() ==> {
                    &&& text::ordered((#[trigger] members[i]).0, (#[trigger] members[j]).0)
                    &&& members[i].0 != members[j].0
                }
        },
        _ => false,
    }
}

/// The place behind the digits that begin at `from`.
pub open spec fn digits_end(s: Seq<char>, from: int) -> int
    decreases s.len() - from,
{
    if 0 <= from < s.len() && text::is_digit(s[from]) {
        digits_end(s, from + 1)
    } else {
        from
    }
}

/// The place behind a fraction that begins at `from`: `from` itself where there is none.
pub open spec fn fraction_end(s: Seq<char>, from: int) -> int {
    if from < s.len() && s[from] == '.' {
        digits_end(s, from + 1)
    } else {
        from
    }
}

/// The place at which the digits of an exponent begin whose letter stands at `from`.
pub open spec fn exponent_digits(s: Seq<char>, from: int) -> int {
    if from + 1 < s.len() && (s[from + 1] == '+' || s[from + 1] == '-') {
        from + 2
    } else {
        from + 1
    }
}

/// Whether `s` writes a number: a sign, digits, a fraction and an exponent, of which only the
/// digits must be there.
pub open spec fn writes_number(s: Seq<char>) -> bool {
    let start = if s.len() > 0 && s[0] == '-' {
        1
    } else {
        0
    };
    let whole = digits_end(s, start);
    let fraction = fraction_end(s, whole);
    &&& whole > start
    &&& fraction != whole + 1
    &&& fraction == s.len() || {
        let digits = exponent_digits(s, fraction);
        &&& s[fraction] == 'e' || s[fraction] == 'E'
        &&& digits_end(s, digits) > digits
        &&& digits_end(s, digits) == s.len()
    }
}

/// Whether the text of every number in `json` that is no integer writes a number.
pub open spec fn sound(json: JsonView) -> bool
    decreases json,
{
    match json {
        JsonView::Number(NumberView::Float(text)) => writes_number(text),
        JsonView::Array(items) => forall|i: int|
            0 <= i < items.len() ==> sound(#[trigger] items[i]),
        JsonView::Object(members) => forall|i: int|
            0 <= i < members.len() ==> sound_member(#[trigger] members[i]),
        _ => true,
    }
}

/// Whether the value of a member is sound.
pub open spec fn sound_member(member: (Seq<char>, JsonView)) -> bool
    decreases member,
{
    sound(member.1)
}

/// Where a reader of the text of an object stands, and the names that it has met.
pub struct Scan {
    /// How many objects and arrays are open.
    pub depth: nat,
    /// Whether a string that opens here is the name of a member.
    pub name: bool,
    /// Where the string began that is open.
    pub quote: Option<int>,
    /// Whether the next character of the string is escaped.
    pub escaped: bool,
    /// The names of the members of the object, as they are written.
    pub names: Seq<Seq<char>>,
}

/// Where the reader of the text of an object stands behind `text`.
pub open spec fn scan(text: Seq<char>) -> Scan
    decreases text.len(),
{
    if text.len() == 0 {
        Scan { depth: 0, name: false, quote: None, escaped: false, names: Seq::empty() }
    } else {
        let at = scan(text.drop_last());
        let c = text.last();
        match at.quote {
            Some(from) => if at.escaped {
                Scan { escaped: false, ..at }
            } else if c == '\\' {
                Scan { escaped: true, ..at }
            } else if c == '"' {
                Scan {
                    name: false,
                    quote: None,
                    names: if at.name && at.depth == 1 {
                        at.names.push(text.skip(from))
                    } else {
                        at.names
                    },
                    ..at
                }
            } else {
                at
            },
            None => if c == '"' {
                Scan { quote: Some(text.len() - 1), ..at }
            } else if c == '{' {
                Scan { depth: at.depth + 1, name: at.depth == 0, ..at }
            } else if c == '[' {
                Scan { depth: at.depth + 1, name: false, ..at }
            } else if c == '}' || c == ']' {
                Scan {
                    depth: if at.depth > 0 {
                        (at.depth - 1) as nat
                    } else {
                        0
                    },
                    name: false,
                    ..at
                }
            } else if c == ',' {
                Scan { name: at.depth == 1, ..at }
            } else {
                at
            },
        }
    }
}

/// Whether `written` writes the name `name`.
pub open spec fn writes_name(written: Seq<char>, name: Seq<char>) -> bool {
    json_parsed(written) == Ok::<JsonView, Seq<char>>(JsonView::Str(name))
}

/// Whether the text of an object names a member `name` more than once.
pub open spec fn repeats(text: Seq<char>, name: Seq<char>) -> bool {
    let names = scan(text).names;
    exists|i: int, j: int|
        0 <= i < j < names.len() && writes_name(#[trigger] names[i], name) && writes_name(
            #[trigger] names[j],
            name,
        )
}

/// Rebuilds `json` as a `serde_json::Value`, part for part. Nothing is claimed of the
/// value: it is only handed on to `serde_json`.
#[verifier::external_body]
pub(crate) fn to_value(json: &Json) -> Value {
    match json {
        Json::Null => Value::Null,
        Json::Bool(b) => Value::from(*b),
        Json::Number(Number::PosInt(n)) => Value::from(*n),
        Json::Number(Number::NegInt(n)) => Value::from(*n),
        Json::Number(Number::Float(text)) => serde_json::from_str(text).unwrap_or_default(),
        Json::Str(s) => Value::from(s.as_str()),
        Json::Array(items) => items.iter().map(to_value).collect(),
        Json::Object(members) => members.iter().map(|m| (m.key.clone(), to_value(&m.value))).collect(),
    }
}

/// Rebuilds a `serde_json::Value` as a [`Json`], part for part. Nothing is claimed of
/// the result here: the callers that parse a text say what it is.
#[verifier::external_body]
pub(crate) fn from_value(value: Value) -> Json {
    match value {
        Value::Null => Json::Null,
        Value::Bool(b) => Json::Bool(b),
        Value::Number(n) => match (n.as_u64(), n.as_i64()) {
            (Some(n), _) => Json::Number(Number::PosInt(n)),
            (None, Some(n)) => Json::Number(Number::NegInt(n)),
            (None, None) => Json::Number(Number::Float(n.to_string())),
        },
        Value::String(s) => Json::Str(s),
        Value::Array(items) => Json::Array(items.into_iter().map(from_value).collect()),
        Value::Object(map) => Json::Object(
            map.into_iter().map(|(key, v)| Member { key, value: from_value(v) }).collect(),
        ),
    }
}

/// Parses `text` with `serde_json::from_str`. What comes back depends on the text
/// alone: the value that it writes, or the message of the error. A number that is no integer
/// is finite, and its `Display` writes it in digits.
#[verifier::external_body]
pub(crate) fn parse(text: &str) -> (r: Result<Json, String>)
    ensures
        match r {
            Ok(json) => json_parsed(text@) is Ok && json_parsed(text@)->Ok_0 == json@,
            Err(message) => json_parsed(text@) is Err && json_parsed(text@)->Err_0 == message@,
        },
        r is Ok ==> sound(r->Ok_0@),
{
    serde_json::from_str(text).map(from_value).map_err(|e| e.to_string())
}

/// Renders `json` with the `Display` of `serde_json::Value`, which is compact JSON. An
/// object of integers whose names stand in order, none of them the name that `serde_json`
/// keeps for raw text, is read back by `serde_json` as it was, and names each member once.
#[verifier::external_body]
pub(crate) fn render(json: &Json) -> (r: String)
    ensures
        r@ == json_rendered(json@),
        flat(json@) ==> json_parsed(r@) is Ok && json_parsed(r@)->Ok_0 == json@,
        flat(json@) ==> forall|name: Seq<char>| !#[trigger] repeats(r@, name),
{
    to_value(json).to_string()
}

/// The place behind the digits that begin at `from`.
fn skip_digits(s: &Vec<char>, from: usize) -> (r: usize)
    requires
        from <= s.len(),
    ensures
        from <= r <= s.len(),
        r == digits_end(s@, from as int),
{
    let mut i: usize = from;
    while i < s.len() && '0' <= s[i] && s[i] <= '9'
        invariant
            from <= i <= s.len(),
            digits_end(s@, from as int) == digits_end(s@, i as int),
        decreases s.len() - i,
    {
        i = i + 1;
    }
    i
}

/// Whether `s` writes a number.
pub fn is_number(s: &str) -> (r: bool)
    ensures
        r == writes_number(s@),
{
    let s = text::chars(s);
    let start: usize = if s.len() > 0 && s[0] == '-' {
        1
    } else {
        0
    };
    let whole = skip_digits(&s, start);
    let fraction = if whole < s.len() && s[whole] == '.' {
        skip_digits(&s, whole + 1)
    } else {
        whole
    };
    if whole == start || fraction - whole == 1 {
        return false;
    }
    if fraction == s.len() {
        return true;
    }
    if s[fraction] != 'e' && s[fraction] != 'E' {
        return false;
    }
    let digits = if fraction + 1 < s.len() && (s[fraction + 1] == '+' || s[fraction + 1] == '-') {
        fraction + 2
    } else {
        fraction + 1
    };
    let end = skip_digits(&s, digits);
    end > digits && end == s.len()
}

/// The names of the members of an object, as its text writes them.
fn written_names(text: &str) -> (r: Vec<String>)
    ensures
        r.deep_view() == scan(text@).names,
{
    let chars = text::chars(text);
    let mut depth: usize = 0;
    let mut name: bool = false;
    let mut quote: Option<usize> = None;
    let mut escaped: bool = false;
    let mut names: Vec<String> = Vec::new();
    let mut i: usize = 0;
    assert(chars@.take(0) =~= Seq::empty());
    assert(names.deep_view() =~= Seq::empty());
    while i < chars.len()
        invariant
            i <= chars.len(),
            chars@ == text@,
            depth <= i,
            match quote {
                Some(from) => from < i,
                None => true,
            },
            scan(chars@.take(i as int)) == (Scan {
                depth: depth as nat,
                name,
                quote: match quote {
                    Some(from) => Some(from as int),
                    None => None,
                },
                escaped,
                names: names.deep_view(),
            }),
        decreases chars.len() - i,
    {
        let c = chars[i];
        assert(chars@.take(i + 1).drop_last() =~= chars@.take(i as int));
        assert(chars@.take(i + 1).last() == c);
        match quote {
            Some(from) => {
                if escaped {
                    escaped = false;
                } else if c == '\\' {
                    escaped = true;
                } else if c == '"' {
                    if name && depth == 1 {
                        let ghost before = names.deep_view();
                        let written = text::string_of(&chars, from, i + 1);
                        assert(written@ =~= chars@.take(i + 1).skip(from as int));
                        names.push(written);
                        assert(names.deep_view() =~= before.push(written@));
                    }
                    name = false;
                    quote = None;
                }
            },
            None => {
                if c == '"' {
                    quote = Some(i);
                } else if c == '{' {
                    name = depth == 0;
                    depth = depth + 1;
                } else if c == '[' {
                    name = false;
                    depth = depth + 1;
                } else if c == '}' || c == ']' {
                    name = false;
                    if depth > 0 {
                        depth = depth - 1;
                    }
                } else if c == ',' {
                    name = depth == 1;
                }
            },
        }
        i = i + 1;
    }
    assert(chars@.take(i as int) =~= text@);
    names
}

/// Whether the text of an object names a member `name` more than once.
pub fn names_twice(text: &str, name: &str) -> (r: bool)
    ensures
        r == repeats(text@, name@),
{
    let names = written_names(text);
    let ghost all = scan(text@).names;
    let mut met: bool = false;
    let ghost mut first: int = 0;
    let mut i: usize = 0;
    while i < names.len()
        invariant
            i <= names.len(),
            all == names.deep_view(),
            all == scan(text@).names,
            met ==> 0 <= first < i && writes_name(all[first], name@),
            forall|k: int|
                0 <= k < i && (!met || k != first) ==> !writes_name(#[trigger] all[k], name@),
        decreases names.len() - i,
    {
        assert(all[i as int] == names@[i as int]@);
        let found = match parse(names[i].as_str()) {
            Ok(Json::Str(s)) => text::same(s.as_str(), name),
            _ => false,
        };
        assert(found == writes_name(all[i as int], name@));
        if found {
            if met {
                assert(writes_name(all[first], name@));
                return true;
            }
            met = true;
            proof {
                first = i as int;
            }
        }
        i = i + 1;
    }
    false
}

// === Values ===

impl Clone for Number {
    fn clone(&self) -> (r: Self)
        ensures
            r@ == self@,
    {
        match self {
            Number::PosInt(n) => Number::PosInt(*n),
            Number::NegInt(n) => Number::NegInt(*n),
            Number::Float(text) => Number::Float(text.clone()),
        }
    }
}

impl Clone for Json {
    fn clone(&self) -> (r: Self)
        ensures
            r@ == self@,
        decreases self,
    {
        broadcast use lemma_json_view;

        match self {
            Json::Null => Json::Null,
            Json::Bool(b) => Json::Bool(*b),
            Json::Number(n) => Json::Number(n.clone()),
            Json::Str(s) => Json::Str(s.clone()),
            Json::Array(items) => {
                let mut copy: Vec<Json> = Vec::new();
                let mut i: usize = 0;
                while i < items.len()
                    invariant
                        i <= items.len(),
                        decreases_to!(self => items),
                        json_views(copy@) == json_views(items@).take(i as int),
                    decreases items.len() - i,
                {
                    let ghost before = json_views(copy@);
                    let item = items[i].clone();
                    copy.push(item);
                    assert(json_views(copy@) =~= before.push(item@));
                    assert(json_views(copy@) =~= json_views(items@).take(i + 1));
                    i = i + 1;
                }
                assert(json_views(copy@) =~= json_views(items@));
                Json::Array(copy)
            },
            Json::Object(members) => {
                let mut copy: Vec<Member> = Vec::new();
                let mut i: usize = 0;
                while i < members.len()
                    invariant
                        i <= members.len(),
                        decreases_to!(self => members),
                        member_views(copy@) == member_views(members@).take(i as int),
                    decreases members.len() - i,
                {
                    let ghost before = member_views(copy@);
                    let member = Member {
                        key: members[i].key.clone(),
                        value: members[i].value.clone(),
                    };
                    copy.push(member);
                    assert(member_views(copy@) =~= before.push(member@));
                    assert(member_views(copy@) =~= member_views(members@).take(i + 1));
                    i = i + 1;
                }
                assert(member_views(copy@) =~= member_views(members@));
                Json::Object(copy)
            },
        }
    }
}

/// The position of the first member named `key`, or the number of members.
pub fn find_member(members: &Vec<Member>, key: &str) -> (i: usize)
    ensures
        i == member_at(member_views(members@), key@),
        i <= members.len(),
{
    let ghost all = member_views(members@);
    let mut i: usize = 0;
    while i < members.len()
        invariant
            i <= members.len(),
            all == member_views(members@),
            forall|j: int| 0 <= j < i ==> (#[trigger] all[j]).0 != key@,
        decreases members.len() - i,
    {
        if text::same(members[i].key.as_str(), key) {
            proof {
                lemma_member_at_is(all, key@, i as int);
            }
            return i;
        }
        i = i + 1;
    }
    proof {
        lemma_member_at_is(all, key@, i as int);
    }
    i
}

impl Json {
    /// The value that `text` writes, or the message of the parse error.
    pub fn from_text(text: &str) -> (r: Result<Json, String>)
        ensures
            match r {
                Ok(json) => json_parsed(text@) is Ok && json_parsed(text@)->Ok_0 == json@,
                Err(message) => json_parsed(text@) is Err && json_parsed(text@)->Err_0 == message@,
            },
            r is Ok ==> sound(r->Ok_0@),
    {
        parse(text)
    }

    /// The compact text of the value.
    pub fn text(&self) -> (r: String)
        ensures
            r@ == json_rendered(self@),
            flat(self@) ==> json_parsed(r@) is Ok && json_parsed(r@)->Ok_0 == self@,
    {
        render(self)
    }

    /// The member `key` of an object.
    pub fn get(&self, key: &str) -> (r: Option<&Json>)
        ensures
            match r {
                Some(json) => self@.member(key@) == Some(json@),
                None => self@.member(key@) is None,
            },
    {
        broadcast use lemma_json_view;

        match self {
            Json::Object(members) => {
                let i = find_member(members, key);
                if i < members.len() {
                    Some(&members[i].value)
                } else {
                    None
                }
            },
            _ => None,
        }
    }

    /// The text of a string.
    pub fn as_str(&self) -> (r: Option<&str>)
        ensures
            match r {
                Some(s) => self@.string() == Some(s@),
                None => self@.string() is None,
            },
    {
        match self {
            Json::Str(s) => Some(s.as_str()),
            _ => None,
        }
    }

    /// The value of an integer that fits in 64 signed bits.
    pub fn as_i64(&self) -> (r: Option<i64>)
        ensures
            r == self@.int64(),
    {
        match self {
            Json::Number(Number::PosInt(n)) => if *n <= i64::MAX as u64 {
                Some(*n as i64)
            } else {
                None
            },
            Json::Number(Number::NegInt(n)) => Some(*n),
            _ => None,
        }
    }

    /// The value of a non-negative integer.
    pub fn as_u64(&self) -> (r: Option<u64>)
        ensures
            r == self@.uint64(),
    {
        match self {
            Json::Number(Number::PosInt(n)) => Some(*n),
            _ => None,
        }
    }
}


// === Laws of values ===

/// Of the members with one name the first counts; what is no object has none.
pub proof fn the_first_member_counts(json: JsonView, key: Seq<char>, i: int)
    ensures
        !(json is Object) ==> json.member(key) is None,
        json is Object && 0 <= i < json->Object_0.len() && json->Object_0[i].0 == key && (
        forall|j: int| 0 <= j < i ==> (#[trigger] json->Object_0[j]).0 != key) ==> json.member(key)
            == Some(json->Object_0[i].1),
        json is Object && (forall|j: int|
            0 <= j < json->Object_0.len() ==> (#[trigger] json->Object_0[j]).0 != key)
            ==> json.member(key) is None,
{
    if json is Object {
        let members = json->Object_0;
        lemma_member_at(members, key);
        let at = member_at(members, key) as int;
        if 0 <= i < members.len() && members[i].0 == key && (forall|j: int|
            0 <= j < i ==> (#[trigger] members[j]).0 != key) {
            lemma_member_at_is(members, key, i);
        }
        if at < members.len() {
            assert(members[at].0 == key);
        }
    }
}

/// A value is an integer of either width just where it is a number without a fraction that fits.
pub proof fn integers_are_whole_numbers(json: JsonView, n: u64, v: i64)
    ensures
        json.uint64() == Some(n) <==> json == JsonView::Number(NumberView::PosInt(n)),
        json.int64() == Some(v) ==> json is Number && !(json->Number_0 is Float),
        v >= 0 ==> JsonView::Number(NumberView::PosInt(v as u64)).int64() == Some(v),
        JsonView::Number(NumberView::NegInt(v)).int64() == Some(v),
        n > i64::MAX ==> JsonView::Number(NumberView::PosInt(n)).int64() is None,
        json.string() is Some <==> json is Str,
        json is Str ==> json.string() == Some(json->Str_0),
{
}


// === Laws of numbers as text ===

/// Whether `s` is digits, at least one.
pub open spec fn is_digits(s: Seq<char>) -> bool {
    &&& s.len() > 0
    &&& forall|i: int| 0 <= i < s.len() ==> '0' <= #[trigger] s[i] <= '9'
}

/// Whether `mark` begins an exponent: its letter, with a sign behind it or without.
pub open spec fn is_mark(mark: Seq<char>) -> bool {
    &&& mark.len() == 1 || mark.len() == 2 && (mark[1] == '+' || mark[1] == '-')
    &&& mark[0] == 'e' || mark[0] == 'E'
}

/// A number as it is written: its sign, its digits, its fraction and its exponent.
pub open spec fn number_of(
    negative: bool,
    whole: Seq<char>,
    fraction: Option<Seq<char>>,
    exponent: Option<(Seq<char>, Seq<char>)>,
) -> Seq<char> {
    let sign = if negative {
        seq!['-']
    } else {
        Seq::empty()
    };
    let part = match fraction {
        Some(digits) => seq!['.'] + digits,
        None => Seq::empty(),
    };
    let power = match exponent {
        Some((mark, digits)) => mark + digits,
        None => Seq::empty(),
    };
    sign + whole + part + power
}

/// Whether the parts are those of a number.
pub open spec fn are_parts(
    whole: Seq<char>,
    fraction: Option<Seq<char>>,
    exponent: Option<(Seq<char>, Seq<char>)>,
) -> bool {
    &&& is_digits(whole)
    &&& fraction is Some ==> is_digits(fraction->0)
    &&& match exponent {
        Some((mark, digits)) => is_mark(mark) && is_digits(digits),
        None => true,
    }
}

/// The digits that begin at a place end where the first character stands that is none.
proof fn lemma_digits_end_is(s: Seq<char>, from: int, end: int)
    requires
        0 <= from <= end <= s.len(),
        forall|i: int| from <= i < end ==> '0' <= #[trigger] s[i] <= '9',
        end < s.len() ==> !('0' <= s[end] <= '9'),
    ensures
        digits_end(s, from) == end,
    decreases end - from,
{
    if from < end {
        assert('0' <= s[from] <= '9');
        lemma_digits_end_is(s, from + 1, end);
    }
}

/// What stands between a place and the end of its digits are digits.
pub proof fn lemma_digits_end(s: Seq<char>, from: int)
    requires
        0 <= from <= s.len(),
    ensures
        from <= digits_end(s, from) <= s.len(),
        forall|i: int| from <= i < digits_end(s, from) ==> text::is_digit(#[trigger] s[i]),
    decreases s.len() - from,
{
    if from < s.len() && text::is_digit(s[from]) {
        lemma_digits_end(s, from + 1);
    }
}

/// Every number that is put together of a sign, digits, a fraction and an exponent is a number.
pub proof fn numbers_are_put_together(
    negative: bool,
    whole: Seq<char>,
    fraction: Option<Seq<char>>,
    exponent: Option<(Seq<char>, Seq<char>)>,
)
    requires
        are_parts(whole, fraction, exponent),
    ensures
        writes_number(number_of(negative, whole, fraction, exponent)),
{
    let s = number_of(negative, whole, fraction, exponent);
    let start: int = if negative {
        1
    } else {
        0
    };
    assert('0' <= whole[0] <= '9');
    assert(s[start] == whole[0]);
    let end = start + whole.len();
    assert forall|i: int| start <= i < end implies '0' <= #[trigger] s[i] <= '9' by {
        assert(s[i] == whole[i - start]);
    }
    let part: int = match fraction {
        Some(digits) => end + 1 + digits.len(),
        None => end as int,
    };
    if fraction is Some {
        assert(s[end as int] == '.');
        assert forall|i: int| end + 1 <= i < part implies '0' <= #[trigger] s[i] <= '9' by {
            assert(s[i] == fraction->0[i - end - 1]);
        }
    }
    if exponent is Some {
        let mark = (exponent->0).0;
        let digits = (exponent->0).1;
        assert(s[part] == mark[0]);
        assert(mark.len() == 2 ==> s[part + 1] == mark[1]);
        let from = part + mark.len();
        assert forall|i: int| from <= i < s.len() implies '0' <= #[trigger] s[i] <= '9' by {
            assert(s[i] == digits[i - from]);
        }
        if mark.len() == 1 {
            assert(s[part + 1] == digits[0]);
            assert('0' <= digits[0] <= '9');
        }
        assert(exponent_digits(s, part) == from);
        lemma_digits_end_is(s, from, s.len() as int);
    }
    lemma_digits_end_is(s, start, end as int);
    if fraction is Some {
        lemma_digits_end_is(s, end + 1, part);
    }
}

/// Every text that writes a number is put together of such parts.
pub proof fn numbers_fall_into_their_parts(s: Seq<char>)
    requires
        writes_number(s),
    ensures
        exists|
            negative: bool,
            whole: Seq<char>,
            fraction: Option<Seq<char>>,
            exponent: Option<(Seq<char>, Seq<char>)>,
        |
            are_parts(whole, fraction, exponent) && s == #[trigger] number_of(
                negative,
                whole,
                fraction,
                exponent,
            ),
{
    let negative = s.len() > 0 && s[0] == '-';
    let start: int = if negative {
        1
    } else {
        0
    };
    lemma_digits_end(s, start);
    let end = digits_end(s, start);
    let whole = s.subrange(start, end);
    let part = fraction_end(s, end);
    let fraction = if part == end {
        None
    } else {
        lemma_digits_end(s, end + 1);
        Some(s.subrange(end + 1, part))
    };
    let exponent = if part == s.len() {
        None
    } else {
        let from = exponent_digits(s, part);
        Some((s.subrange(part, from), s.subrange(from, s.len() as int)))
    };
    if part != s.len() {
        lemma_digits_end(s, exponent_digits(s, part));
    }
    assert(are_parts(whole, fraction, exponent));
    assert(number_of(negative, whole, fraction, exponent) =~= s);
}

// === Laws of member names ===

/// Whether a character neither opens nor closes anything, nor parts members.
pub open spec fn is_plain(c: char) -> bool {
    c != '"' && c != '{' && c != '}' && c != '[' && c != ']' && c != ','
}

/// What neither opens nor closes anything changes nothing of where a reader stands.
pub proof fn plain_text_is_passed_over(before: Seq<char>, run: Seq<char>)
    requires
        scan(before).quote is None,
        forall|i: int| 0 <= i < run.len() ==> is_plain(#[trigger] run[i]),
    ensures
        scan(before + run) == scan(before),
    decreases run.len(),
{
    if run.len() == 0 {
        assert(before + run =~= before);
    } else {
        let fewer = run.drop_last();
        assert forall|i: int| 0 <= i < fewer.len() implies is_plain(#[trigger] fewer[i]) by {
            assert(fewer[i] == run[i]);
        }
        plain_text_is_passed_over(before, fewer);
        assert((before + run).drop_last() =~= before + fewer);
        assert(is_plain(run[run.len() - 1]));
    }
}

/// Where a reader stands within a string.
proof fn lemma_within(before: Seq<char>, inner: Seq<char>)
    requires
        scan(before).quote is None,
        !scan(before).escaped,
        !inner.contains('"'),
        !inner.contains('\\'),
    ensures
        scan(before + seq!['"'] + inner) == (Scan {
            quote: Some(before.len() as int),
            ..scan(before)
        }),
    decreases inner.len(),
{
    if inner.len() == 0 {
        assert(before + seq!['"'] + inner =~= before.push('"'));
        assert(before.push('"').drop_last() =~= before);
    } else {
        let fewer = inner.drop_last();
        assert forall|i: int| 0 <= i < inner.len() implies inner[i] != '"' && inner[i] != '\\' by {
            assert(inner.contains(inner[i]));
        }
        lemma_within(before, fewer);
        assert((before + seq!['"'] + inner).drop_last() =~= before + seq!['"'] + fewer);
    }
}

/// A string is the name of a member just where it opens at the first level and where a name is
/// due: behind the brace that opens the object, or behind a comma. Any other string is none.
pub proof fn names_are_met_at_the_first_level(before: Seq<char>, inner: Seq<char>)
    requires
        scan(before).quote is None,
        !scan(before).escaped,
        !inner.contains('"'),
        !inner.contains('\\'),
    ensures
        ({
            let at = scan(before);
            let after = scan(before + seq!['"'] + inner + seq!['"']);
            &&& after.names == if at.name && at.depth == 1 {
                at.names.push(seq!['"'] + inner + seq!['"'])
            } else {
                at.names
            }
            &&& after.depth == at.depth
            &&& !after.name
            &&& after.quote is None
            &&& !after.escaped
        }),
{
    let open = before + seq!['"'] + inner;
    let whole = open + seq!['"'];
    lemma_within(before, inner);
    assert(whole.drop_last() =~= open);
    assert(whole.skip(before.len() as int) =~= seq!['"'] + inner + seq!['"']);
}

/// A brace and a bracket open a level, and their counterparts close it. A name is due behind the
/// brace that opens the object and behind a comma at its level, and nowhere else.
pub proof fn levels_open_and_close(before: Seq<char>)
    requires
        scan(before).quote is None,
    ensures
        ({
            let at = scan(before);
            &&& scan(before.push('{')) == (Scan {
                depth: at.depth + 1,
                name: at.depth == 0,
                ..at
            })
            &&& scan(before.push('[')) == (Scan { depth: at.depth + 1, name: false, ..at })
            &&& at.depth > 0 ==> scan(before.push('}')) == (Scan {
                depth: (at.depth - 1) as nat,
                name: false,
                ..at
            })
            &&& scan(before.push(']')) == scan(before.push('}'))
            &&& scan(before.push(',')) == (Scan { name: at.depth == 1, ..at })
        }),
        scan(Seq::empty()).depth == 0,
        scan(Seq::empty()).quote is None,
        !scan(Seq::empty()).escaped,
        scan(Seq::empty()).names.len() == 0,
{
    assert(before.push('{').drop_last() =~= before);
    assert(before.push('[').drop_last() =~= before);
    assert(before.push('}').drop_last() =~= before);
    assert(before.push(']').drop_last() =~= before);
    assert(before.push(',').drop_last() =~= before);
}

/// Within a string a backslash escapes the next character, which then closes nothing.
pub proof fn escaped_quotes_close_nothing(before: Seq<char>, c: char)
    requires
        scan(before).quote is Some,
        !scan(before).escaped,
    ensures
        scan(before.push('\\').push(c)) == scan(before),
{
    let escaping = before.push('\\');
    assert(escaping.drop_last() =~= before);
    assert(scan(escaping) == (Scan { escaped: true, ..scan(before) }));
    assert(escaping.push(c).drop_last() =~= escaping);
}

/// An object whose names all differ repeats none; one that writes a name twice repeats it.
pub proof fn names_are_repeated_where_written_twice(text: Seq<char>, name: Seq<char>, i: int, j: int)
    ensures
        0 <= i < j < scan(text).names.len() && writes_name(scan(text).names[i], name)
            && writes_name(scan(text).names[j], name) ==> repeats(text, name),
        (forall|k: int|
            0 <= k < scan(text).names.len() && k != i ==> !writes_name(
                #[trigger] scan(text).names[k],
                name,
            )) ==> !repeats(text, name),
{
}

} // verus!
