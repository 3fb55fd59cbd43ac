//! Builders for the reserved query params.
//!
//! A caller sets a resume cursor or a write disposition without encoding it onto a path
//! by hand. Each builder wraps a path and yields the encoded path.

use vstd::prelude::*;
use vstd::string::*;

use crate::dataset::Disposition;
use crate::text;

verus! {

/// The reserved read param that carries the resume cursor.
pub const CURSOR_PARAM: &'static str = "cursor";

/// The reserved read param that names the column to order by.
pub const CURSOR_FIELD_PARAM: &'static str = "cursor_field";

// === serde_urlencoded ===

/// The pairs that `serde_urlencoded` reads from a query string.
pub uninterp spec fn form_decoded(query: Seq<char>) -> Option<Seq<(Seq<char>, Seq<char>)>>;

/// The query string that `serde_urlencoded` writes for the pairs.
pub uninterp spec fn form_encoded(pairs: Seq<(Seq<char>, Seq<char>)>) -> Option<Seq<char>>;

/// Reads a query string with `serde_urlencoded::from_str`, as a list of pairs of strings.
/// What comes back depends on the query string alone.
#[verifier::external_body]
fn decode_form(query: &str) -> (r: Option<Vec<(String, String)>>)
    ensures
        r.deep_view() == form_decoded(query@),
{
    serde_urlencoded::from_str(query).ok()
}

/// Writes a query string with `serde_urlencoded::to_string`. What comes back depends on
/// the pairs alone. Pairs of strings can always be written; the text is empty exactly
/// when there are no pairs, since each pair writes at least its `=`; and
/// `serde_urlencoded::from_str` reads the same pairs back from it.
#[verifier::external_body]
fn encode_form(pairs: &Vec<(String, String)>) -> (r: Option<String>)
    ensures
        r.deep_view() == form_encoded(pairs.deep_view()),
        r is Some,
        r->0@.len() == 0 <==> pairs.len() == 0,
        form_decoded(r->0@) == Some(pairs.deep_view()),
{
    serde_urlencoded::to_string(pairs).ok()
}

// === Params ===

/// The path ahead of its query.
pub open spec fn base(path: Seq<char>) -> Seq<char> {
    match text::split_once_at(path, '?') {
        Some((base, query)) => base,
        None => path,
    }
}

/// The query of a path.
pub open spec fn query(path: Seq<char>) -> Seq<char> {
    match text::split_once_at(path, '?') {
        Some((base, query)) => query,
        None => Seq::empty(),
    }
}

/// The params of a path, in order; none where its query cannot be read.
pub open spec fn params(path: Seq<char>) -> Seq<(Seq<char>, Seq<char>)> {
    match form_decoded(query(path)) {
        Some(pairs) => pairs,
        None => Seq::empty(),
    }
}

/// Whether the query of a path can be read, and reads as nothing where there is none.
pub open spec fn readable(path: Seq<char>) -> bool {
    &&& form_decoded(query(path)) is Some
    &&& !path.contains('?') ==> params(path) == Seq::<(Seq<char>, Seq<char>)>::empty()
}

/// The pairs that are not named `key`, in order.
pub open spec fn without(pairs: Seq<(Seq<char>, Seq<char>)>, key: Seq<char>) -> Seq<
    (Seq<char>, Seq<char>),
>
    decreases pairs.len(),
{
    if pairs.len() == 0 {
        Seq::empty()
    } else if pairs.last().0 == key {
        without(pairs.drop_last(), key)
    } else {
        without(pairs.drop_last(), key).push(pairs.last())
    }
}

/// The pairs with `key` set to `value` behind all others, or taken out.
pub open spec fn with_pair(
    pairs: Seq<(Seq<char>, Seq<char>)>,
    key: Seq<char>,
    value: Option<Seq<char>>,
) -> Seq<(Seq<char>, Seq<char>)> {
    match value {
        Some(value) => without(pairs, key).push((key, value)),
        None => without(pairs, key),
    }
}

/// The path with the given params: the path alone where there are none.
pub open spec fn with_params(base: Seq<char>, pairs: Seq<(Seq<char>, Seq<char>)>) -> Seq<char> {
    if pairs.len() == 0 {
        base
    } else {
        match form_encoded(pairs) {
            Some(query) => base + "?"@ + query,
            None => base,
        }
    }
}

/// The path with `key` set to `value`, or taken out.
pub open spec fn with_param(path: Seq<char>, key: Seq<char>, value: Option<Seq<char>>) -> Seq<
    char,
> {
    with_params(base(path), with_pair(params(path), key, value))
}

/// The last value of `key` among the pairs.
pub open spec fn value_of(pairs: Seq<(Seq<char>, Seq<char>)>, key: Seq<char>) -> Option<Seq<char>>
    decreases pairs.len(),
{
    if pairs.len() == 0 {
        None
    } else if pairs.last().0 == key {
        Some(pairs.last().1)
    } else {
        value_of(pairs.drop_last(), key)
    }
}

/// Taking `key` out leaves every other param as it was.
proof fn lemma_without(
    pairs: Seq<(Seq<char>, Seq<char>)>,
    key: Seq<char>,
    other: Seq<char>,
)
    ensures
        value_of(without(pairs, key), key) is None,
        other != key ==> value_of(without(pairs, key), other) == value_of(pairs, other),
    decreases pairs.len(),
{
    if pairs.len() > 0 {
        lemma_without(pairs.drop_last(), key, other);
        let kept = without(pairs.drop_last(), key);
        assert(kept.push(pairs.last()).drop_last() =~= kept);
    }
}

/// A param that was set is read back, one that was taken out is gone, and every other
/// param keeps its value.
pub proof fn set_param_reads_back(
    pairs: Seq<(Seq<char>, Seq<char>)>,
    key: Seq<char>,
    value: Option<Seq<char>>,
    other: Seq<char>,
)
    ensures
        value_of(with_pair(pairs, key, value), key) == value,
        other != key ==> value_of(with_pair(pairs, key, value), other) == value_of(pairs, other),
{
    lemma_without(pairs, key, other);
    match value {
        Some(value) => {
            let kept = without(pairs, key);
            assert(kept.push((key, value)).drop_last() =~= kept);
        },
        None => {},
    }
}

/// Setting a param twice leaves what the second call set.
pub proof fn set_param_replaces(
    pairs: Seq<(Seq<char>, Seq<char>)>,
    key: Seq<char>,
    first: Option<Seq<char>>,
    second: Option<Seq<char>>,
)
    ensures
        with_pair(with_pair(pairs, key, first), key, second) == with_pair(pairs, key, second),
{
    lemma_without_twice(pairs, key);
    match first {
        Some(value) => {
            let kept = without(pairs, key);
            assert(kept.push((key, value)).drop_last() =~= kept);
        },
        None => {},
    }
}

/// What is gone cannot be taken out again.
proof fn lemma_without_twice(pairs: Seq<(Seq<char>, Seq<char>)>, key: Seq<char>)
    ensures
        without(without(pairs, key), key) == without(pairs, key),
    decreases pairs.len(),
{
    if pairs.len() > 0 {
        lemma_without_twice(pairs.drop_last(), key);
        let kept = without(pairs.drop_last(), key);
        assert(kept.push(pairs.last()).drop_last() =~= kept);
    }
}

/// A path whose base has no `?` falls apart into that base and its query.
pub proof fn lemma_put_together(base_part: Seq<char>, query_part: Seq<char>)
    requires
        forall|i: int| 0 <= i < base_part.len() ==> base_part[i] != '?',
    ensures
        base(base_part + "?"@ + query_part) == base_part,
        query(base_part + "?"@ + query_part) == query_part,
        base(base_part) == base_part,
        query(base_part) == Seq::<char>::empty(),
{
    reveal_strlit("?");
    let whole = base_part + "?"@ + query_part;
    let n = base_part.len() as int;
    assert(whole[n] == '?');
    assert forall|j: int| 0 <= j < n implies whole[j] != '?' by {
        assert(whole[j] == base_part[j]);
    }
    text::lemma_find_is(whole, '?', n);
    assert(whole.take(n) =~= base_part);
    assert(whole.skip(n + 1) =~= query_part);
    text::lemma_find_is(base_part, '?', n);
}

/// The path ahead of its query, and the query.
pub(crate) fn split_query(path: &str) -> (r: (String, String))
    ensures
        r.0@ == base(path@),
        r.1@ == query(path@),
        forall|i: int| 0 <= i < r.0@.len() ==> r.0@[i] != '?',
{
    proof {
        text::lemma_find(path@, '?');
    }
    match text::split_once(path, '?') {
        Some((base, query)) => (base, query),
        None => {
            let none = String::new();
            assert(none@ =~= Seq::<char>::empty());
            (path.to_string(), none)
        },
    }
}

/// Sets the query param `key` to `value` on `path`, in place of any value it had; without
/// a value the param is taken out. The rest of the query stays; where no param is left, the
/// path has no query.
pub fn set_param(path: &str, key: &str, value: Option<&str>) -> (r: String)
    ensures
        r@ == with_param(
            path@,
            key@,
            match value {
                Some(value) => Some(value@),
                None => None,
            },
        ),
        base(r@) == base(path@),
        readable(r@),
        value is None && without(params(path@), key@).len() == 0 ==> r@ == base(path@),
        params(r@) == with_pair(
            params(path@),
            key@,
            match value {
                Some(value) => Some(value@),
                None => None,
            },
        ),
{
    let (base_part, query_part) = split_query(path);
    let mut pairs: Vec<(String, String)> = Vec::new();
    let ghost before = params(path@);
    match decode_form(query_part.as_str()) {
        Some(decoded) => {
            let mut i: usize = 0;
            assert(decoded.deep_view() == before);
            assert(pairs.deep_view() =~= without(before.take(0), key@));
            while i < decoded.len()
                invariant
                    i <= decoded.len(),
                    decoded.deep_view() == before,
                    pairs.deep_view() == without(before.take(i as int), key@),
                decreases decoded.len() - i,
            {
                let ghost kept = pairs.deep_view();
                assert(before.take(i + 1).drop_last() =~= before.take(i as int));
                assert(before[i as int] == (decoded@[i as int].0@, decoded@[i as int].1@));
                if !text::same(decoded[i].0.as_str(), key) {
                    let pair = (decoded[i].0.clone(), decoded[i].1.clone());
                    pairs.push(pair);
                    assert(pairs.deep_view() =~= kept.push((pair.0@, pair.1@)));
                }
                i = i + 1;
            }
            assert(before.take(i as int) =~= before);
        },
        None => {
            assert(pairs.deep_view() =~= without(before, key@));
        },
    }
    match value {
        Some(value) => {
            let ghost kept = pairs.deep_view();
            pairs.push((key.to_string(), value.to_string()));
            assert(pairs.deep_view() =~= kept.push((key@, value@)));
        },
        None => {},
    }
    assert(pairs.len() == pairs.deep_view().len());
    match encode_form(&pairs) {
        Some(encoded) => {
            proof {
                lemma_put_together(base_part@, encoded@);
            }
            if encoded.as_str().is_empty() {
                assert(encoded@ =~= Seq::<char>::empty());
                assert(pairs.deep_view() =~= Seq::<(Seq<char>, Seq<char>)>::empty());
                base_part
            } else {
                let r = text::cat3(base_part.as_str(), "?", encoded.as_str());
                proof {
                    reveal_strlit("?");
                    assert(r@[base_part@.len() as int] == '?');
                }
                r
            }
        },
        None => base_part,
    }
}

/// Puts the params behind a path. Where the path has no query, just those params are read
/// back.
pub fn put_params(path: String, pairs: &Vec<(String, String)>) -> (r: String)
    ensures
        r@ == with_params(path@, pairs.deep_view()),
        (forall|i: int| 0 <= i < path@.len() ==> path@[i] != '?') ==> base(r@) == path@ && params(
            r@,
        ) == pairs.deep_view(),
{
    assert(pairs.len() == pairs.deep_view().len());
    match encode_form(pairs) {
        Some(encoded) => {
            proof {
                if forall|i: int| 0 <= i < path@.len() ==> path@[i] != '?' {
                    lemma_put_together(path@, encoded@);
                }
            }
            if encoded.as_str().is_empty() {
                assert(encoded@ =~= Seq::<char>::empty());
                path
            } else {
                text::cat3(path.as_str(), "?", encoded.as_str())
            }
        },
        None => path,
    }
}

/// The value of the query param `key` of `path`, where it has one.
pub fn get_param(path: &str, key: &str) -> (r: Option<String>)
    ensures
        r.deep_view() == value_of(params(path@), key@),
{
    let (_, query_part) = split_query(path);
    let ghost pairs = params(path@);
    match decode_form(query_part.as_str()) {
        Some(decoded) => {
            let mut i: usize = decoded.len();
            assert(pairs.take(i as int) =~= pairs);
            while i > 0
                invariant
                    i <= decoded.len(),
                    decoded.deep_view() == pairs,
                    pairs == params(path@),
                    value_of(pairs, key@) == value_of(pairs.take(i as int), key@),
                decreases i,
            {
                i = i - 1;
                assert(pairs.take(i + 1).drop_last() =~= pairs.take(i as int));
                assert(pairs[i as int] == (decoded@[i as int].0@, decoded@[i as int].1@));
                if text::same(decoded[i].0.as_str(), key) {
                    return Some(decoded[i].1.clone());
                }
            }
            None
        },
        None => None,
    }
}

// === The builders ===

/// A read path with an optional resume cursor and an optional column to order by.
#[derive(Debug)]
pub struct ReadRequest {
    path: String,
    cursor: Option<String>,
    cursor_field: Option<String>,
}

impl ReadRequest {
    /// The path to read.
    pub closed spec fn target(&self) -> Seq<char> {
        self.path@
    }

    /// Where to resume.
    pub closed spec fn resume(&self) -> Option<Seq<char>> {
        self.cursor.deep_view()
    }

    /// The column to order by.
    pub closed spec fn order(&self) -> Option<Seq<char>> {
        self.cursor_field.deep_view()
    }

    /// A read of `path` from the beginning.
    pub fn new(path: &str) -> (r: ReadRequest)
        ensures
            r.target() == path@,
            r.resume() is None,
            r.order() is None,
    {
        ReadRequest { path: path.to_string(), cursor: None, cursor_field: None }
    }

    /// Sets the resume cursor, or clears it.
    pub fn with_cursor(self, cursor: Option<String>) -> (r: ReadRequest)
        ensures
            r.target() == self.target(),
            r.resume() == cursor.deep_view(),
            r.order() == self.order(),
    {
        ReadRequest { path: self.path, cursor, cursor_field: self.cursor_field }
    }

    /// Sets the column to order by, or clears it.
    pub fn with_cursor_field(self, cursor_field: Option<String>) -> (r: ReadRequest)
        ensures
            r.target() == self.target(),
            r.resume() == self.resume(),
            r.order() == cursor_field.deep_view(),
    {
        ReadRequest { path: self.path, cursor: self.cursor, cursor_field }
    }

    /// The encoded path, with `cursor` set, or taken out, to match, and with `cursor_field`
    /// set where there is one.
    pub fn path(self) -> (r: String)
        ensures
            r@ == read_path(self.target(), self.resume(), self.order()),
            readable(r@),
            base(r@) == base(self.target()),
            params(r@) == read_params(params(self.target()), self.resume(), self.order()),
    {
        let cursor = match &self.cursor {
            Some(cursor) => Some(cursor.as_str()),
            None => None,
        };
        let resumed = set_param(self.path.as_str(), CURSOR_PARAM, cursor);
        match &self.cursor_field {
            Some(field) => set_param(resumed.as_str(), CURSOR_FIELD_PARAM, Some(field.as_str())),
            None => resumed,
        }
    }
}

/// The path of a read that resumes at `resume` and orders by `order`.
pub open spec fn read_path(
    path: Seq<char>,
    resume: Option<Seq<char>>,
    order: Option<Seq<char>>,
) -> Seq<char> {
    let resumed = with_param(path, CURSOR_PARAM@, resume);
    match order {
        Some(_) => with_param(resumed, CURSOR_FIELD_PARAM@, order),
        None => resumed,
    }
}

/// The params of a read that resumes at `resume` and orders by `order`.
pub open spec fn read_params(
    pairs: Seq<(Seq<char>, Seq<char>)>,
    resume: Option<Seq<char>>,
    order: Option<Seq<char>>,
) -> Seq<(Seq<char>, Seq<char>)> {
    let resumed = with_pair(pairs, CURSOR_PARAM@, resume);
    match order {
        Some(_) => with_pair(resumed, CURSOR_FIELD_PARAM@, order),
        None => resumed,
    }
}

/// A write path with an optional disposition.
#[derive(Debug)]
pub struct WriteRequest {
    path: String,
    disposition: Option<Disposition>,
}

impl WriteRequest {
    /// The path to write.
    pub closed spec fn target(&self) -> Seq<char> {
        self.path@
    }

    /// The param value of the disposition.
    pub closed spec fn word(&self) -> Option<Seq<char>> {
        match self.disposition {
            Some(disposition) => Some(disposition.word()),
            None => None,
        }
    }

    /// A write of `path`.
    pub fn new(path: &str) -> (r: WriteRequest)
        ensures
            r.target() == path@,
            r.word() is None,
    {
        WriteRequest { path: path.to_string(), disposition: None }
    }

    /// Sets the write disposition.
    pub fn with_disposition(self, disposition: Disposition) -> (r: WriteRequest)
        ensures
            r.target() == self.target(),
            r.word() == Some(disposition.word()),
    {
        WriteRequest { path: self.path, disposition: Some(disposition) }
    }

    /// The encoded path, with `disposition` set, or taken out, to match.
    pub fn path(self) -> (r: String)
        ensures
            r@ == with_param(self.target(), Disposition::PARAM@, self.word()),
            base(r@) == base(self.target()),
            readable(r@),
            params(r@) == with_pair(params(self.target()), Disposition::PARAM@, self.word()),
    {
        let word = match self.disposition {
            Some(disposition) => Some(disposition.as_param()),
            None => None,
        };
        set_param(self.path.as_str(), Disposition::PARAM, word)
    }
}

// === urlencoding ===

/// Whether `c` stands for itself in a URL: a letter or digit of ASCII, or one of `-_.~`.
pub open spec fn is_unreserved(c: char) -> bool {
    ||| 'a' <= c && c <= 'z'
    ||| 'A' <= c && c <= 'Z'
    ||| '0' <= c && c <= '9'
    ||| c == '-'
    ||| c == '_'
    ||| c == '.'
    ||| c == '~'
}

/// Whether every character of `text` stands for itself in a URL.
pub open spec fn unreserved(text: Seq<char>) -> bool {
    forall|i: int| 0 <= i < text.len() ==> is_unreserved(#[trigger] text[i])
}

/// The digit of base sixteen for a number below sixteen, its letters in upper case.
pub open spec fn hex_digit(digit: int) -> char {
    if digit < 10 {
        ('0' as int + digit) as char
    } else {
        ('A' as int + digit - 10) as char
    }
}

/// A byte in a URL: itself where it may stand there, `%` and its two digits otherwise.
pub open spec fn percent_byte(byte: u8) -> Seq<char> {
    if is_unreserved(byte as char) {
        seq![byte as char]
    } else {
        seq!['%', hex_digit(byte as int / 16), hex_digit(byte as int % 16)]
    }
}

/// The bytes in a URL, one behind the other.
pub open spec fn percent_bytes(bytes: Seq<u8>) -> Seq<char>
    decreases bytes.len(),
{
    if bytes.len() == 0 {
        Seq::empty()
    } else {
        percent_byte(bytes[0]) + percent_bytes(bytes.drop_first())
    }
}

/// The percent encoding of a text: that of its UTF-8.
pub open spec fn percent_encoded(text: Seq<char>) -> Seq<char> {
    percent_bytes(vstd::utf8::encode_utf8(text))
}

/// Percent-encoded bytes hold letters and digits of ASCII, `-_.~` and `%` only.
proof fn lemma_percent_bytes(bytes: Seq<u8>)
    ensures
        forall|i: int|
            0 <= i < percent_bytes(bytes).len() ==> is_unreserved(
                #[trigger] percent_bytes(bytes)[i],
            ) || percent_bytes(bytes)[i] == '%',
    decreases bytes.len(),
{
    if bytes.len() > 0 {
        lemma_percent_bytes(bytes.drop_first());
        let byte = bytes[0];
        let first = percent_byte(byte);
        let rest = percent_bytes(bytes.drop_first());
        assert forall|i: int| 0 <= i < percent_bytes(bytes).len() implies is_unreserved(
            #[trigger] percent_bytes(bytes)[i],
        ) || percent_bytes(bytes)[i] == '%' by {
            if i < first.len() {
                assert(percent_bytes(bytes)[i] == first[i]);
            } else {
                assert(percent_bytes(bytes)[i] == rest[i - first.len()]);
            }
        }
    }
}

/// A percent-encoded text holds letters and digits of ASCII, `-_.~` and `%` only, so that
/// nothing in it parts a URL or a query string.
pub proof fn percent_encoding_is_plain(text: Seq<char>)
    ensures
        forall|i: int|
            0 <= i < percent_encoded(text).len() ==> is_unreserved(
                #[trigger] percent_encoded(text)[i],
            ) || percent_encoded(text)[i] == '%',
{
    lemma_percent_bytes(vstd::utf8::encode_utf8(text));
}

/// Text that may stand in a URL as it is encodes as itself.
pub proof fn unreserved_text_encodes_as_itself(text: Seq<char>)
    requires
        unreserved(text),
    ensures
        percent_encoded(text) == text,
    decreases text.len(),
{
    if text.len() > 0 {
        let rest = text.drop_first();
        assert forall|i: int| 0 <= i < rest.len() implies is_unreserved(#[trigger] rest[i]) by {
            assert(rest[i] == text[i + 1]);
        }
        unreserved_text_encodes_as_itself(rest);
        let c = text[0];
        let n = c as u32;
        assert(is_unreserved(c));
        assert(n < 128);
        assert(n < 128 ==> (n & 0x7F) as u8 == n) by (bit_vector);
        let bytes = vstd::utf8::encode_utf8(text);
        assert(vstd::utf8::encode_scalar(n) =~= seq![n as u8]);
        assert(bytes =~= seq![n as u8] + vstd::utf8::encode_utf8(rest));
        assert(bytes.drop_first() =~= vstd::utf8::encode_utf8(rest));
        assert(bytes[0] as char == c);
        assert(text =~= seq![c] + rest);
    } else {
        assert(percent_encoded(text) =~= text);
    }
}

/// Encodes a text with `urlencoding::encode`, which percent-encodes every byte of its UTF-8
/// that is not a letter or digit of ASCII or one of `-_.~`. As a value in a query string, alone
/// or behind other pairs, what comes back is read back by `serde_urlencoded::from_str`, which
/// parts pairs at `&`, parts a pair at its first `=`, and decodes percent encodings.
#[verifier::external_body]
pub(crate) fn percent_encode(text: &str) -> (r: String)
    ensures
        r@ == percent_encoded(text@),
        forall|key: Seq<char>|
            unreserved(key) ==> #[trigger] form_decoded(key + "="@ + r@) == Some(
                seq![(key, text@)],
            ),
        forall|query: Seq<char>, key: Seq<char>|
            unreserved(key) && form_decoded(query) is Some ==> #[trigger] form_decoded(
                query + "&"@ + key + "="@ + r@,
            ) == Some(form_decoded(query)->0.push((key, text@))),
{
    urlencoding::encode(text).into_owned()
}

/// A URL with a param put behind what it has, where there is a value.
pub open spec fn with_extra(url: Seq<char>, key: Seq<char>, value: Option<Seq<char>>) -> Seq<char> {
    match value {
        Some(value) => {
            let separator = if url.contains('?') {
                "&"@
            } else {
                "?"@
            };
            url + separator + key + "="@ + percent_encoded(value)
        },
        None => url,
    }
}

/// The pairs with one more behind them, where there is a value.
pub open spec fn with_extra_pair(
    pairs: Seq<(Seq<char>, Seq<char>)>,
    key: Seq<char>,
    value: Option<Seq<char>>,
) -> Seq<(Seq<char>, Seq<char>)> {
    match value {
        Some(value) => pairs.push((key, value)),
        None => pairs,
    }
}

/// Puts a param behind what a URL has, where there is a value. The params that were there
/// stay, and the new one is read back.
pub(crate) fn add_param(url: String, key: &str, value: Option<&str>) -> (r: String)
    requires
        unreserved(key@),
        readable(url@),
    ensures
        r@ == with_extra(
            url@,
            key@,
            match value {
                Some(value) => Some(value@),
                None => None,
            },
        ),
        base(r@) == base(url@),
        readable(r@),
        params(r@) == with_extra_pair(
            params(url@),
            key@,
            match value {
                Some(value) => Some(value@),
                None => None,
            },
        ),
{
    match value {
        None => url,
        Some(value) => {
            let encoded = percent_encode(value);
            let pair = text::cat3(key, "=", encoded.as_str());
            let ghost n = text::find(url@, '?') as int;
            proof {
                text::lemma_find(url@, '?');
                reveal_strlit("?");
                reveal_strlit("&");
            }
            if text::has_char(url.as_str(), '?') {
                let r = text::cat3(url.as_str(), "&", pair.as_str());
                proof {
                    assert(n < url@.len());
                    assert(r@ =~= with_extra(url@, key@, Some(value@)));
                    assert(r@[n] == '?');
                    assert forall|j: int| 0 <= j < n implies r@[j] != '?' by {
                        assert(r@[j] == url@[j]);
                    }
                    text::lemma_find_is(r@, '?', n);
                    assert(r@.take(n) =~= url@.take(n));
                    assert(query(r@) =~= query(url@) + "&"@ + key@ + "="@ + encoded@);
                }
                r
            } else {
                let r = text::cat3(url.as_str(), "?", pair.as_str());
                proof {
                    assert(r@ =~= with_extra(url@, key@, Some(value@)));
                    assert forall|i: int| 0 <= i < url@.len() implies url@[i] != '?' by {
                        assert(url@.contains(url@[i]));
                    }
                    lemma_put_together(url@, pair@);
                    assert(query(r@) =~= key@ + "="@ + encoded@);
                    assert(r@[url@.len() as int] == '?');
                    assert(seq![(key@, value@)] =~= params(url@).push((key@, value@)));
                }
                r
            }
        },
    }
}

/// A param that is put behind others is read back, and the others keep their values; where there
/// is no value, nothing is put.
pub proof fn extra_pairs_read_back(
    pairs: Seq<(Seq<char>, Seq<char>)>,
    key: Seq<char>,
    value: Option<Seq<char>>,
)
    ensures
        value is Some ==> value_of(with_extra_pair(pairs, key, value), key) == value,
        value is None ==> with_extra_pair(pairs, key, value) == pairs,
        forall|other: Seq<char>|
            other != key ==> #[trigger] value_of(with_extra_pair(pairs, key, value), other)
                == value_of(pairs, other),
{
    match value {
        Some(value) => {
            assert(pairs.push((key, value)).drop_last() =~= pairs);
        },
        None => {},
    }
}

// === Laws of params ===

/// A path is its base and, behind a question mark, its query; a path without one is its base.
pub proof fn paths_fall_apart_at_the_question_mark(path: Seq<char>)
    ensures
        !base(path).contains('?'),
        path.contains('?') ==> path == base(path).push('?') + query(path),
        !path.contains('?') ==> base(path) == path && query(path).len() == 0,
{
    text::texts_split_at_the_first(path, '?');
    if path.contains('?') {
        assert(base(path) + seq!['?'] + query(path) =~= base(path).push('?') + query(path));
        assert(path.contains('?'));
    }
    match text::split_once_at(path, '?') {
        Some((before, behind)) => {
            assert(path[before.len() as int] == '?');
        },
        None => {},
    }
}

/// Taking a param out takes out every pair of its name and leaves the others in order.
pub proof fn params_are_taken_out_by_name(pairs: Seq<(Seq<char>, Seq<char>)>, key: Seq<char>)
    ensures
        without(pairs, key) == pairs.filter(|pair: (Seq<char>, Seq<char>)| pair.0 != key),
    decreases pairs.len(),
{
    reveal(Seq::filter);
    if pairs.len() > 0 {
        params_are_taken_out_by_name(pairs.drop_last(), key);
    }
}

/// The value of a param is that of the last pair of its name.
pub proof fn the_last_pair_counts(pairs: Seq<(Seq<char>, Seq<char>)>, key: Seq<char>, i: int)
    ensures
        0 <= i < pairs.len() && pairs[i].0 == key && (forall|j: int|
            i < j < pairs.len() ==> (#[trigger] pairs[j]).0 != key) ==> value_of(pairs, key)
            == Some(pairs[i].1),
        (forall|j: int| 0 <= j < pairs.len() ==> (#[trigger] pairs[j]).0 != key) ==> value_of(
            pairs,
            key,
        ) is None,
    decreases pairs.len(),
{
    if pairs.len() > 0 {
        let fewer = pairs.drop_last();
        the_last_pair_counts(fewer, key, i);
        let n = pairs.len() - 1;
        if 0 <= i < n && pairs[i].0 == key && (forall|j: int|
            i < j < pairs.len() ==> (#[trigger] pairs[j]).0 != key) {
            assert(pairs[n].0 != key);
            assert forall|j: int| i < j < fewer.len() implies (#[trigger] fewer[j]).0 != key by {
                assert(pairs[j].0 != key);
            }
        }
        if forall|j: int| 0 <= j < pairs.len() ==> (#[trigger] pairs[j]).0 != key {
            assert(pairs[n].0 != key);
            assert forall|j: int| 0 <= j < fewer.len() implies (#[trigger] fewer[j]).0 != key by {
                assert(pairs[j].0 != key);
            }
        }
    }
}

/// A read resumes where it was asked to and nowhere else; it is ordered by the column that was
/// asked for, or as its path has it; and every other param of the path keeps its value.
pub proof fn reads_carry_their_cursor(
    pairs: Seq<(Seq<char>, Seq<char>)>,
    resume: Option<Seq<char>>,
    order: Option<Seq<char>>,
    other: Seq<char>,
)
    requires
        other != "cursor"@,
        other != "cursor_field"@,
    ensures
        value_of(read_params(pairs, resume, order), "cursor"@) == resume,
        order is Some ==> value_of(read_params(pairs, resume, order), "cursor_field"@) == order,
        order is None ==> value_of(read_params(pairs, resume, order), "cursor_field"@) == value_of(
            pairs,
            "cursor_field"@,
        ),
        value_of(read_params(pairs, resume, order), other) == value_of(pairs, other),
{
    reveal_strlit("cursor");
    reveal_strlit("cursor_field");
    assert("cursor"@.len() != "cursor_field"@.len());
    let resumed = with_pair(pairs, "cursor"@, resume);
    set_param_reads_back(pairs, "cursor"@, resume, other);
    set_param_reads_back(pairs, "cursor"@, resume, "cursor_field"@);
    set_param_reads_back(resumed, "cursor_field"@, order, other);
    set_param_reads_back(resumed, "cursor_field"@, order, "cursor"@);
}


/// The params of a path are those that its query writes, in order; a query that cannot be read
/// writes none.
pub proof fn params_are_read_from_the_query(path: Seq<char>)
    ensures
        form_decoded(query(path)) is Some ==> params(path) == form_decoded(query(path))->0,
        form_decoded(query(path)) is None ==> params(path).len() == 0,
{
}

/// A path with params is its base and, behind a question mark, their query; without params it is
/// its base.
pub proof fn params_stand_behind_the_question_mark(
    base: Seq<char>,
    pairs: Seq<(Seq<char>, Seq<char>)>,
)
    ensures
        pairs.len() == 0 ==> with_params(base, pairs) == base,
        pairs.len() > 0 && form_encoded(pairs) is Some ==> with_params(base, pairs) == base
            + seq!['?'] + form_encoded(pairs)->0,
{
    reveal_strlit("?");
    assert("?"@ =~= seq!['?']);
}


/// A param is put behind a question mark where it is the first and behind an ampersand where it is
/// not, by its name and its encoded value; where there is no value, nothing is put.
pub proof fn extra_params_are_parted(url: Seq<char>, key: Seq<char>, value: Seq<char>)
    ensures
        with_extra(url, key, None) == url,
        !url.contains('?') ==> with_extra(url, key, Some(value)) == url + seq!['?'] + key
            + seq!['='] + percent_encoded(value),
        url.contains('?') ==> with_extra(url, key, Some(value)) == url + seq!['&'] + key
            + seq!['='] + percent_encoded(value),
{
    reveal_strlit("?");
    reveal_strlit("&");
    reveal_strlit("=");
    assert("?"@ =~= seq!['?']);
    assert("&"@ =~= seq!['&']);
    assert("="@ =~= seq!['=']);
}

} // verus!
