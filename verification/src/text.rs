//! Text operations over the characters of a string.
//!
//! A string is modelled by the sequence of its characters. The operations here are
//! the ones that paths, query strings and SQL fragments are put together with.

use vstd::prelude::*;
use vstd::string::*;

verus! {

/// `String::push` appends one character.
pub assume_specification[std::string::String::push](s: &mut std::string::String, c: char)
    ensures
        final(s)@ == old(s)@.push(c),
;

/// Whether `c` has the Unicode `White_Space` property.
pub uninterp spec fn white_space(c: char) -> bool;

/// `char::is_whitespace` tests the Unicode `White_Space` property, which is fixed per
/// character.
pub assume_specification[ char::is_whitespace ](c: char) -> (b: bool)
    ensures
        b == white_space(c),
;

// === Models ===

/// The number of characters of `s` ahead of the first `c`; all of them when there is
/// no `c`.
pub open spec fn find(s: Seq<char>, c: char) -> nat
    decreases s.len(),
{
    if s.len() == 0 || s[0] == c {
        0
    } else {
        1 + find(s.drop_first(), c)
    }
}

/// What stands before and after the first `c`.
pub open spec fn split_once_at(s: Seq<char>, c: char) -> Option<(Seq<char>, Seq<char>)> {
    let i = find(s, c) as int;
    if i < s.len() {
        Some((s.take(i), s.skip(i + 1)))
    } else {
        None
    }
}

/// The pieces of `s` between the occurrences of `c`: one more than there are
/// occurrences.
pub open spec fn split_at(s: Seq<char>, c: char) -> Seq<Seq<char>>
    decreases s.len(),
{
    let i = find(s, c) as int;
    if i < s.len() {
        seq![s.take(i)] + split_at(s.skip(i + 1), c)
    } else {
        seq![s]
    }
}

/// The parts with `sep` between each two.
pub open spec fn joined(parts: Seq<Seq<char>>, sep: Seq<char>) -> Seq<char>
    decreases parts.len(),
{
    if parts.len() == 0 {
        Seq::empty()
    } else if parts.len() == 1 {
        parts[0]
    } else {
        joined(parts.drop_last(), sep) + sep + parts.last()
    }
}

/// `s` with every `c` replaced by `with`.
pub open spec fn replaced(s: Seq<char>, c: char, with: Seq<char>) -> Seq<char>
    decreases s.len(),
{
    if s.len() == 0 {
        Seq::empty()
    } else {
        replaced(s.drop_last(), c, with) + (if s.last() == c {
            with
        } else {
            seq![s.last()]
        })
    }
}

/// `s` without the leading characters that satisfy `drop`.
pub open spec fn trimmed_start(s: Seq<char>, drop: spec_fn(char) -> bool) -> Seq<char>
    decreases s.len(),
{
    if s.len() > 0 && drop(s[0]) {
        trimmed_start(s.drop_first(), drop)
    } else {
        s
    }
}

/// `s` without the trailing characters that satisfy `drop`.
pub open spec fn trimmed_end(s: Seq<char>, drop: spec_fn(char) -> bool) -> Seq<char>
    decreases s.len(),
{
    if s.len() > 0 && drop(s.last()) {
        trimmed_end(s.drop_last(), drop)
    } else {
        s
    }
}

/// `s` without leading and trailing white space.
pub open spec fn trimmed(s: Seq<char>) -> Seq<char> {
    trimmed_end(trimmed_start(s, |c: char| white_space(c)), |c: char| white_space(c))
}

/// Whether `part` occurs in `s`.
pub open spec fn occurs(part: Seq<char>, s: Seq<char>) -> bool {
    exists|i: int|
        0 <= i && i + part.len() <= s.len() && #[trigger] s.subrange(i, i + part.len()) == part
}

/// The decimal digit `d`.
pub open spec fn digit(d: nat) -> char {
    (48 + d) as char
}

/// `n` in decimal, without leading zeros.
pub open spec fn decimal(n: nat) -> Seq<char>
    decreases n,
{
    if n < 10 {
        seq![digit(n)]
    } else {
        decimal(n / 10).push(digit(n % 10))
    }
}

/// `n` in decimal, with a leading `-` when it is negative.
pub open spec fn signed_decimal(n: int) -> Seq<char> {
    if n < 0 {
        seq!['-'] + decimal((-n) as nat)
    } else {
        decimal(n as nat)
    }
}

/// Whether `a` comes before `b` or equals it, comparing character by character.
pub open spec fn ordered(a: Seq<char>, b: Seq<char>) -> bool
    decreases a.len(),
{
    if a.len() == 0 {
        true
    } else if b.len() == 0 {
        false
    } else if a[0] != b[0] {
        (a[0] as int) < (b[0] as int)
    } else {
        ordered(a.drop_first(), b.drop_first())
    }
}

/// The lower case of an ASCII letter; every other character itself.
pub open spec fn ascii_lower(c: char) -> char {
    if 65 <= c as int && c as int <= 90 {
        ((c as int) + 32) as char
    } else {
        c
    }
}

/// Whether the two agree but for the case of ASCII letters.
pub open spec fn same_but_ascii_case(a: Seq<char>, b: Seq<char>) -> bool {
    &&& a.len() == b.len()
    &&& forall|i: int| 0 <= i < a.len() ==> ascii_lower(#[trigger] a[i]) == ascii_lower(b[i])
}

/// Whether `c` is a decimal digit.
pub open spec fn is_digit(c: char) -> bool {
    48 <= c as int && c as int <= 57
}

/// Whether `s` is a non-empty run of decimal digits.
pub open spec fn all_digits(s: Seq<char>) -> bool {
    &&& s.len() > 0
    &&& forall|i: int| 0 <= i < s.len() ==> is_digit(#[trigger] s[i])
}

/// The number that a run of decimal digits writes.
pub open spec fn digits_value(s: Seq<char>) -> nat
    decreases s.len(),
{
    if s.len() == 0 {
        0
    } else {
        10 * digits_value(s.drop_last()) + ((s.last() as int) - 48) as nat
    }
}

/// The natural number that `s` writes: an optional `+`, then digits alone.
pub open spec fn natural(s: Seq<char>) -> Option<nat> {
    let body = if s.len() > 0 && s[0] == '+' {
        s.skip(1)
    } else {
        s
    };
    if all_digits(body) {
        Some(digits_value(body))
    } else {
        None
    }
}

/// The integer that `s` writes: an optional `+` or `-`, then digits alone.
pub open spec fn integer(s: Seq<char>) -> Option<int> {
    if s.len() > 0 && s[0] == '-' {
        if all_digits(s.skip(1)) {
            Some(-(digits_value(s.skip(1)) as int))
        } else {
            None
        }
    } else {
        match natural(s) {
            Some(n) => Some(n as int),
            None => None,
        }
    }
}

/// The lines of `s`: what stands between line feeds, each without the carriage return
/// ahead of its line feed, and without an empty last line.
pub open spec fn lines_of(s: Seq<char>) -> Seq<Seq<char>> {
    let pieces = split_at(s, '\n');
    let ended = pieces.drop_last().map_values(|p: Seq<char>| without_return(p));
    if pieces.last().len() == 0 {
        ended
    } else {
        ended.push(pieces.last())
    }
}

/// `s` without one trailing carriage return.
pub open spec fn without_return(s: Seq<char>) -> Seq<char> {
    if s.len() > 0 && s.last() == '\r' {
        s.drop_last()
    } else {
        s
    }
}

// === Facts about the models ===

/// What [`find`] finds: no `c` ahead of it, and a `c` there unless it is the end.
pub proof fn lemma_find(s: Seq<char>, c: char)
    ensures
        find(s, c) <= s.len(),
        forall|j: int| 0 <= j < find(s, c) ==> s[j] != c,
        find(s, c) < s.len() ==> s[find(s, c) as int] == c,
    decreases s.len(),
{
    if s.len() > 0 && s[0] != c {
        let rest = s.drop_first();
        lemma_find(rest, c);
        assert forall|j: int| 0 <= j < find(s, c) implies s[j] != c by {
            if j > 0 {
                assert(rest[j - 1] == s[j]);
            }
        }
    }
}

/// [`find`] is pinned down by what [`lemma_find`] says of it.
pub proof fn lemma_find_is(s: Seq<char>, c: char, i: int)
    requires
        0 <= i <= s.len(),
        forall|j: int| 0 <= j < i ==> s[j] != c,
        i < s.len() ==> s[i] == c,
    ensures
        find(s, c) == i,
{
    lemma_find(s, c);
}

/// Splitting never leaves nothing.
pub proof fn lemma_split_nonempty(s: Seq<char>, c: char)
    ensures
        split_at(s, c).len() > 0,
{
}

/// The order on strings is total and transitive, and equals only what is equal.
pub proof fn lemma_ordered_total(a: Seq<char>, b: Seq<char>)
    ensures
        ordered(a, b) || ordered(b, a),
        ordered(a, b) && ordered(b, a) ==> a == b,
    decreases a.len(),
{
    if a.len() > 0 && b.len() > 0 && a[0] == b[0] {
        lemma_ordered_total(a.drop_first(), b.drop_first());
        if ordered(a, b) && ordered(b, a) {
            assert(a =~= seq![a[0]] + a.drop_first());
            assert(b =~= seq![b[0]] + b.drop_first());
        }
    }
    if a.len() == 0 && b.len() == 0 {
        assert(a =~= b);
    }
}

/// The order on strings is transitive.
pub proof fn lemma_ordered_transitive(a: Seq<char>, b: Seq<char>, c: Seq<char>)
    requires
        ordered(a, b),
        ordered(b, c),
    ensures
        ordered(a, c),
    decreases a.len(),
{
    if a.len() > 0 && a[0] == b[0] && b[0] == c[0] {
        lemma_ordered_transitive(a.drop_first(), b.drop_first(), c.drop_first());
    }
}

// === Operations ===

/// The characters of `s`.
pub fn chars(s: &str) -> (v: Vec<char>)
    ensures
        v@ == s@,
{
    let mut v: Vec<char> = Vec::new();
    for c in it: s.chars()
        invariant
            v@ == it.seq().take(it.index() as int),
            it.seq() == s@,
    {
        v.push(c);
    }
    v
}

/// The string of the characters `from..to` of `v`.
pub fn string_of(v: &Vec<char>, from: usize, to: usize) -> (s: String)
    requires
        from <= to <= v.len(),
    ensures
        s@ == v@.subrange(from as int, to as int),
{
    let mut s = String::new();
    let mut i = from;
    while i < to
        invariant
            from <= i <= to <= v.len(),
            s@ == v@.subrange(from as int, i as int),
        decreases to - i,
    {
        s.push(v[i]);
        i = i + 1;
    }
    s
}

/// Whether the two strings hold the same characters.
pub fn same(a: &str, b: &str) -> (r: bool)
    ensures
        r == (a@ == b@),
{
    let x = chars(a);
    let y = chars(b);
    if x.len() != y.len() {
        return false;
    }
    let mut i: usize = 0;
    while i < x.len()
        invariant
            i <= x.len(),
            x.len() == y.len(),
            x@ == a@,
            y@ == b@,
            forall|j: int| 0 <= j < i ==> x@[j] == y@[j],
        decreases x.len() - i,
    {
        if x[i] != y[i] {
            assert(a@[i as int] != b@[i as int]);
            return false;
        }
        i = i + 1;
    }
    assert(a@ =~= b@);
    true
}

/// What stands before and after the first `c`, where there is one.
pub fn split_once(s: &str, c: char) -> (r: Option<(String, String)>)
    ensures
        r.deep_view() == split_once_at(s@, c),
{
    let v = chars(s);
    let mut i: usize = 0;
    while i < v.len()
        invariant
            i <= v.len(),
            v@ == s@,
            forall|j: int| 0 <= j < i ==> s@[j] != c,
        decreases v.len() - i,
    {
        if v[i] == c {
            proof {
                lemma_find_is(s@, c, i as int);
            }
            let before = string_of(&v, 0, i);
            let after = string_of(&v, i + 1, v.len());
            assert(before@ =~= s@.take(i as int));
            assert(after@ =~= s@.skip(i + 1));
            return Some((before, after));
        }
        i = i + 1;
    }
    proof {
        lemma_find_is(s@, c, i as int);
    }
    None
}

/// The pieces of `s` between the occurrences of `c`.
pub fn split(s: &str, c: char) -> (r: Vec<String>)
    ensures
        r.deep_view() == split_at(s@, c),
{
    let v = chars(s);
    let mut out: Vec<String> = Vec::new();
    let mut current = String::new();
    let mut i: usize = 0;
    assert(current@ + s@.skip(0) =~= s@);
    assert(out.deep_view() + split_at(s@, c) =~= split_at(s@, c));
    while i < v.len()
        invariant
            i <= v.len(),
            v@ == s@,
            forall|j: int| 0 <= j < current@.len() ==> current@[j] != c,
            split_at(s@, c) == out.deep_view() + split_at(current@ + s@.skip(i as int), c),
        decreases v.len() - i,
    {
        let ghost whole = current@ + s@.skip(i as int);
        let ghost done = out.deep_view();
        if v[i] == c {
            proof {
                lemma_find_is(whole, c, current@.len() as int);
                assert(whole.take(current@.len() as int) =~= current@);
                assert(whole.skip(current@.len() as int + 1) =~= s@.skip(i + 1));
                assert(Seq::<char>::empty() + s@.skip(i + 1) =~= s@.skip(i + 1));
                assert(split_at(whole, c) == seq![current@] + split_at(s@.skip(i + 1), c));
            }
            out.push(current);
            current = String::new();
            proof {
                assert(out.deep_view() =~= done.push(whole.take(find(whole, c) as int)));
                assert(out.deep_view() + split_at(s@.skip(i + 1), c) =~= done + (seq![
                    whole.take(find(whole, c) as int),
                ] + split_at(s@.skip(i + 1), c)));
                assert(current@ + s@.skip(i + 1) =~= s@.skip(i + 1));
            }
        } else {
            current.push(v[i]);
            proof {
                assert(current@ + s@.skip(i + 1) =~= whole);
            }
        }
        i = i + 1;
    }
    proof {
        assert(current@ + s@.skip(i as int) =~= current@);
        lemma_find_is(current@, c, current@.len() as int);
    }
    let ghost done = out.deep_view();
    let ghost last = current@;
    out.push(current);
    proof {
        assert(out.deep_view() =~= done + seq![last]);
    }
    out
}

/// The parts with `sep` between each two.
pub fn join(parts: &Vec<String>, sep: &str) -> (r: String)
    ensures
        r@ == joined(parts.deep_view(), sep@),
{
    let mut r = String::new();
    let mut i: usize = 0;
    let ghost all = parts.deep_view();
    assert(all.take(0) =~= Seq::empty());
    while i < parts.len()
        invariant
            i <= parts.len(),
            all == parts.deep_view(),
            r@ == joined(all.take(i as int), sep@),
        decreases parts.len() - i,
    {
        proof {
            assert(all.take(i + 1).drop_last() =~= all.take(i as int));
            assert(all.take(i + 1).last() == parts@[i as int]@);
        }
        if i > 0 {
            r.append(sep);
        }
        r.append(parts[i].as_str());
        proof {
            if i == 0 {
                assert(r@ =~= parts@[0]@);
            } else {
                assert(all.take(i + 1).len() > 1);
            }
        }
        i = i + 1;
    }
    assert(all.take(i as int) =~= all);
    r
}

/// `s` with every `c` replaced by `with`.
pub fn replace(s: &str, c: char, with: &str) -> (r: String)
    ensures
        r@ == replaced(s@, c, with@),
{
    let v = chars(s);
    let mut r = String::new();
    let mut i: usize = 0;
    assert(s@.take(0) =~= Seq::empty());
    while i < v.len()
        invariant
            i <= v.len(),
            v@ == s@,
            r@ == replaced(s@.take(i as int), c, with@),
        decreases v.len() - i,
    {
        proof {
            assert(s@.take(i + 1).drop_last() =~= s@.take(i as int));
        }
        let ghost before = r@;
        if v[i] == c {
            r.append(with);
        } else {
            r.push(v[i]);
            assert(r@ =~= before + seq![v@[i as int]]);
        }
        i = i + 1;
    }
    assert(s@.take(i as int) =~= s@);
    r
}

/// Whether `s` begins with `prefix`.
pub fn starts_with(s: &str, prefix: &str) -> (r: bool)
    ensures
        r == prefix@.is_prefix_of(s@),
{
    let v = chars(s);
    let p = chars(prefix);
    if p.len() > v.len() {
        return false;
    }
    let mut i: usize = 0;
    while i < p.len()
        invariant
            i <= p.len() <= v.len(),
            v@ == s@,
            p@ == prefix@,
            forall|j: int| 0 <= j < i ==> p@[j] == v@[j],
        decreases p.len() - i,
    {
        if p[i] != v[i] {
            assert(prefix@[i as int] != s@.subrange(0, prefix@.len() as int)[i as int]);
            return false;
        }
        i = i + 1;
    }
    assert(prefix@ =~= s@.subrange(0, prefix@.len() as int));
    true
}

/// Whether `part` occurs in `s`.
pub fn contains(s: &str, part: &str) -> (r: bool)
    ensures
        r == occurs(part@, s@),
{
    let v = chars(s);
    let p = chars(part);
    if p.len() > v.len() {
        return false;
    }
    let mut i: usize = 0;
    while i <= v.len() - p.len()
        invariant
            p.len() <= v.len(),
            i <= v.len() - p.len() + 1,
            v@ == s@,
            p@ == part@,
            forall|k: int| 0 <= k < i ==> #[trigger] s@.subrange(k, k + part@.len()) != part@,
        decreases v.len() - p.len() + 1 - i,
    {
        let mut j: usize = 0;
        while j < p.len() && v[i + j] == p[j]
            invariant
                j <= p.len(),
                i + p.len() <= v.len(),
                forall|k: int| 0 <= k < j ==> v@[i + k] == p@[k],
            decreases p.len() - j,
        {
            j = j + 1;
        }
        if j == p.len() {
            assert(s@.subrange(i as int, i + part@.len()) =~= part@);
            return true;
        }
        assert(s@.subrange(i as int, i + part@.len())[j as int] != part@[j as int]);
        i = i + 1;
    }
    false
}

/// Whether `c` occurs in `s`.
pub fn has_char(s: &str, c: char) -> (r: bool)
    ensures
        r == s@.contains(c),
{
    let v = chars(s);
    let mut i: usize = 0;
    while i < v.len()
        invariant
            i <= v.len(),
            v@ == s@,
            forall|j: int| 0 <= j < i ==> s@[j] != c,
        decreases v.len() - i,
    {
        if v[i] == c {
            assert(s@[i as int] == c);
            return true;
        }
        i = i + 1;
    }
    false
}

/// `s` without the leading occurrences of `c`.
pub fn trim_start_matches(s: &str, c: char) -> (r: String)
    ensures
        r@ == trimmed_start(s@, |x: char| x == c),
{
    let v = chars(s);
    let ghost drop = |x: char| x == c;
    let mut i: usize = 0;
    assert(s@.skip(0) =~= s@);
    while i < v.len() && v[i] == c
        invariant
            i <= v.len(),
            v@ == s@,
            drop == (|x: char| x == c),
            trimmed_start(s@, drop) == trimmed_start(s@.skip(i as int), drop),
        decreases v.len() - i,
    {
        assert(s@.skip(i as int).drop_first() =~= s@.skip(i + 1));
        i = i + 1;
    }
    let r = string_of(&v, i, v.len());
    assert(r@ =~= s@.skip(i as int));
    r
}

/// `s` without the trailing occurrences of `c`.
pub fn trim_end_matches(s: &str, c: char) -> (r: String)
    ensures
        r@ == trimmed_end(s@, |x: char| x == c),
{
    let v = chars(s);
    let ghost drop = |x: char| x == c;
    let mut i: usize = v.len();
    assert(s@.take(i as int) =~= s@);
    while i > 0 && v[i - 1] == c
        invariant
            i <= v.len(),
            v@ == s@,
            drop == (|x: char| x == c),
            trimmed_end(s@, drop) == trimmed_end(s@.take(i as int), drop),
        decreases i,
    {
        assert(s@.take(i as int).drop_last() =~= s@.take(i - 1));
        i = i - 1;
    }
    let r = string_of(&v, 0, i);
    assert(r@ =~= s@.take(i as int));
    r
}

/// `s` without leading and trailing white space.
pub fn trim(s: &str) -> (r: String)
    ensures
        r@ == trimmed(s@),
{
    let v = chars(s);
    let ghost drop = |x: char| white_space(x);
    let mut from: usize = 0;
    assert(s@.skip(0) =~= s@);
    while from < v.len() && v[from].is_whitespace()
        invariant
            from <= v.len(),
            v@ == s@,
            drop == (|x: char| white_space(x)),
            trimmed_start(s@, drop) == trimmed_start(s@.skip(from as int), drop),
        decreases v.len() - from,
    {
        assert(s@.skip(from as int).drop_first() =~= s@.skip(from + 1));
        from = from + 1;
    }
    let ghost head = s@.skip(from as int);
    let mut to: usize = v.len();
    assert(s@.subrange(from as int, to as int) =~= head);
    while to > from && v[to - 1].is_whitespace()
        invariant
            from <= to <= v.len(),
            v@ == s@,
            drop == (|x: char| white_space(x)),
            trimmed_end(head, drop) == trimmed_end(s@.subrange(from as int, to as int), drop),
        decreases to,
    {
        assert(s@.subrange(from as int, to as int).drop_last() =~= s@.subrange(
            from as int,
            to - 1,
        ));
        to = to - 1;
    }
    string_of(&v, from, to)
}

/// The decimal digit `d`.
fn digit_char(d: u64) -> (c: char)
    requires
        d < 10,
    ensures
        c == digit(d as nat),
{
    ((48 + d) as u8) as char
}

/// `n` in decimal.
pub fn decimal_u64(n: u64) -> (r: String)
    ensures
        r@ == decimal(n as nat),
    decreases n,
{
    let mut r = if n < 10 {
        String::new()
    } else {
        decimal_u64(n / 10)
    };
    r.push(digit_char(n % 10));
    assert(n < 10 ==> r@ =~= seq![digit(n as nat)]);
    r
}

/// `n` in decimal, with a leading `-` when it is negative.
pub fn decimal_i64(n: i64) -> (r: String)
    ensures
        r@ == signed_decimal(n as int),
{
    if n >= 0 {
        decimal_u64(n as u64)
    } else {
        let mut r = String::new();
        r.push('-');
        let magnitude: u64 = (-(n + 1)) as u64 + 1;
        let digits = decimal_u64(magnitude);
        r.append(digits.as_str());
        assert(r@ =~= seq!['-'] + decimal((-n) as nat));
        r
    }
}

/// Whether `a` comes before `b` or equals it.
pub fn is_ordered(a: &str, b: &str) -> (r: bool)
    ensures
        r == ordered(a@, b@),
{
    let x = chars(a);
    let y = chars(b);
    let mut i: usize = 0;
    assert(a@.skip(0) =~= a@);
    assert(b@.skip(0) =~= b@);
    while i < x.len() && i < y.len() && x[i] == y[i]
        invariant
            i <= x.len(),
            i <= y.len(),
            x@ == a@,
            y@ == b@,
            ordered(a@, b@) == ordered(a@.skip(i as int), b@.skip(i as int)),
        decreases x.len() - i,
    {
        assert(a@.skip(i as int).drop_first() =~= a@.skip(i + 1));
        assert(b@.skip(i as int).drop_first() =~= b@.skip(i + 1));
        i = i + 1;
    }
    if i == x.len() {
        true
    } else if i == y.len() {
        false
    } else {
        x[i] < y[i]
    }
}

/// The lower case of an ASCII letter; every other character itself.
pub fn lower(c: char) -> (r: char)
    ensures
        r == ascii_lower(c),
{
    if 'A' <= c && c <= 'Z' {
        ((c as u8) + 32) as char
    } else {
        c
    }
}

/// Whether the two agree but for the case of ASCII letters.
pub fn same_ignoring_ascii_case(a: &str, b: &str) -> (r: bool)
    ensures
        r == same_but_ascii_case(a@, b@),
{
    let x = chars(a);
    let y = chars(b);
    if x.len() != y.len() {
        return false;
    }
    let mut i: usize = 0;
    while i < x.len()
        invariant
            i <= x.len(),
            x.len() == y.len(),
            x@ == a@,
            y@ == b@,
            forall|j: int| 0 <= j < i ==> ascii_lower(#[trigger] a@[j]) == ascii_lower(b@[j]),
        decreases x.len() - i,
    {
        if lower(x[i]) != lower(y[i]) {
            assert(ascii_lower(a@[i as int]) != ascii_lower(b@[i as int]));
            return false;
        }
        i = i + 1;
    }
    true
}

/// The value of the digits `from..` of `v`, where they are digits and it fits.
fn digits_of(v: &Vec<char>, from: usize) -> (r: Option<u64>)
    requires
        from <= v.len(),
    ensures
        match r {
            Some(n) => all_digits(v@.skip(from as int)) && n == digits_value(v@.skip(from as int)),
            None => !all_digits(v@.skip(from as int)) || digits_value(v@.skip(from as int))
                > u64::MAX,
        },
{
    let ghost body = v@.skip(from as int);
    if from == v.len() {
        return None;
    }
    let mut i = from;
    let mut n: u64 = 0;
    assert(body.take(0) =~= Seq::empty());
    while i < v.len()
        invariant
            from <= i <= v.len(),
            body == v@.skip(from as int),
            n == digits_value(body.take(i - from)),
            forall|j: int| 0 <= j < i - from ==> is_digit(#[trigger] body[j]),
        decreases v.len() - i,
    {
        let c = v[i];
        assert(body[i - from] == c);
        if c < '0' || c > '9' {
            assert(!is_digit(body[i - from]));
            return None;
        }
        let d: u64 = (c as u8 - 48) as u64;
        proof {
            assert(body.take(i - from + 1).drop_last() =~= body.take(i - from));
            assert(digits_value(body.take(i - from + 1)) == 10 * n + d);
        }
        if n > 1844674407370955161 || (n == 1844674407370955161 && d > 5) {
            proof {
                assert(10 * n + d > u64::MAX);
                lemma_digits_value_grows(body, i - from + 1);
            }
            return None;
        }
        n = 10 * n + d;
        i = i + 1;
    }
    assert(body.take(i - from) =~= body);
    Some(n)
}

/// A run of digits writes no less than any of its beginnings.
proof fn lemma_digits_value_grows(s: Seq<char>, n: int)
    requires
        0 <= n <= s.len(),
    ensures
        digits_value(s.take(n)) <= digits_value(s),
    decreases s.len() - n,
{
    if n < s.len() {
        lemma_digits_value_grows(s, n + 1);
        assert(s.take(n + 1).drop_last() =~= s.take(n));
    } else {
        assert(s.take(n) =~= s);
    }
}

/// The number that `s` writes: an optional `+`, then digits, where it fits in 64 bits.
pub fn parse_u64(s: &str) -> (r: Option<u64>)
    ensures
        match r {
            Some(n) => natural(s@) == Some(n as nat),
            None => natural(s@) is None || natural(s@)->0 > u64::MAX,
        },
{
    let v = chars(s);
    if v.len() > 0 && v[0] == '+' {
        digits_of(&v, 1)
    } else {
        assert(s@.skip(0) =~= s@);
        digits_of(&v, 0)
    }
}

/// The number that `s` writes: an optional `+`, then digits, where it fits in 32 bits.
pub fn parse_u32(s: &str) -> (r: Option<u32>)
    ensures
        match r {
            Some(n) => natural(s@) == Some(n as nat),
            None => natural(s@) is None || natural(s@)->0 > u32::MAX,
        },
{
    match parse_u64(s) {
        Some(n) => if n <= u32::MAX as u64 {
            Some(n as u32)
        } else {
            None
        },
        None => None,
    }
}

/// The number that `s` writes: an optional sign, then digits, where it fits.
pub fn parse_i64(s: &str) -> (r: Option<i64>)
    ensures
        match r {
            Some(n) => integer(s@) == Some(n as int),
            None => integer(s@) is None || !(i64::MIN <= integer(s@)->0 <= i64::MAX),
        },
{
    let v = chars(s);
    if v.len() > 0 && v[0] == '-' {
        match digits_of(&v, 1) {
            Some(n) => if n < 9223372036854775808 {
                Some(-(n as i64))
            } else if n == 9223372036854775808 {
                Some(i64::MIN)
            } else {
                None
            },
            None => None,
        }
    } else {
        match parse_u64(s) {
            Some(n) => if n <= i64::MAX as u64 {
                Some(n as i64)
            } else {
                None
            },
            None => None,
        }
    }
}

/// `s` without one trailing carriage return.
fn drop_return(s: &str) -> (r: String)
    ensures
        r@ == without_return(s@),
{
    let v = chars(s);
    if v.len() > 0 && v[v.len() - 1] == '\r' {
        let r = string_of(&v, 0, v.len() - 1);
        assert(r@ =~= s@.drop_last());
        r
    } else {
        s.to_string()
    }
}

/// The lines of `s`.
pub fn lines(s: &str) -> (r: Vec<String>)
    ensures
        r.deep_view() == lines_of(s@),
{
    let pieces = split(s, '\n');
    let ghost all = split_at(s@, '\n');
    let mut out: Vec<String> = Vec::new();
    let mut i: usize = 0;
    proof {
        lemma_split_nonempty(s@, '\n');
    }
    let ghost ended = all.drop_last().map_values(|p: Seq<char>| without_return(p));
    assert(all.len() == pieces.len());
    while i + 1 < pieces.len()
        invariant
            pieces.deep_view() == all,
            0 < pieces.len() == all.len(),
            i + 1 <= pieces.len(),
            ended == all.drop_last().map_values(|p: Seq<char>| without_return(p)),
            out.deep_view() == ended.take(i as int),
        decreases pieces.len() - i,
    {
        let ghost before = out.deep_view();
        let line = drop_return(pieces[i].as_str());
        assert(pieces.deep_view()[i as int] == pieces@[i as int]@);
        out.push(line);
        assert(out.deep_view() =~= before.push(line@));
        assert(out.deep_view() =~= ended.take(i + 1));
        i = i + 1;
    }
    assert(ended.take(i as int) =~= ended);
    let last = pieces[i].clone();
    assert(pieces.deep_view()[i as int] == pieces@[i as int]@);
    if !last.as_str().is_empty() {
        let ghost before = out.deep_view();
        let ghost text = last@;
        out.push(last);
        assert(out.deep_view() =~= before.push(text));
    }
    out
}

/// Whether `names` stand in order.
pub open spec fn sorted(names: Seq<Seq<char>>) -> bool {
    forall|i: int, j: int|
        0 <= i <= j < names.len() ==> ordered(#[trigger] names[i], #[trigger] names[j])
}

/// Whether `order` lists every index of `keys` once, along the order of the keys, and
/// keeps the given order among equal keys.
pub open spec fn arranges(order: Seq<usize>, keys: Seq<Seq<char>>) -> bool {
    &&& order.len() == keys.len()
    &&& forall|a: int| 0 <= a < order.len() ==> (#[trigger] order[a]) < keys.len()
    &&& forall|m: int| 0 <= m < keys.len() ==> #[trigger] order.contains(m as usize)
    &&& forall|a: int, b: int|
        0 <= a < b < order.len() ==> {
            &&& order[a] != order[b]
            &&& ordered(keys[#[trigger] order[a] as int], keys[#[trigger] order[b] as int])
            &&& keys[order[a] as int] == keys[order[b] as int] ==> order[a] < order[b]
        }
}

/// An index that is inserted behind the keys up to its own, and ahead of the others,
/// keeps an arrangement.
proof fn lemma_insert_arranges(order: Seq<usize>, keys: Seq<Seq<char>>, key: Seq<char>, p: int)
    requires
        arranges(order, keys),
        keys.len() < usize::MAX,
        0 <= p <= order.len(),
        p > 0 ==> ordered(keys[order[p - 1] as int], key),
        forall|a: int| p <= a < order.len() ==> !ordered(keys[#[trigger] order[a] as int], key),
    ensures
        arranges(order.insert(p, keys.len() as usize), keys.push(key)),
{
    let n = keys.len() as usize;
    let next = order.insert(p, n);
    let all = keys.push(key);
    assert(next.len() == all.len());
    assert forall|a: int| 0 <= a < p implies ordered(keys[#[trigger] order[a] as int], key) by {
        if a < p - 1 {
            lemma_ordered_transitive(keys[order[a] as int], keys[order[p - 1] as int], key);
        }
    }
    assert forall|a: int| p <= a < order.len() implies ordered(key, keys[#[trigger] order[a] as int])
        && key != keys[order[a] as int] by {
        lemma_ordered_total(keys[order[a] as int], key);
    }
    assert forall|m: int| 0 <= m < all.len() implies #[trigger] next.contains(m as usize) by {
        if m == n {
            assert(next[p] == n);
        } else {
            assert(order.contains(m as usize));
            let a = choose|a: int| 0 <= a < order.len() && order[a] == m as usize;
            if a < p {
                assert(next[a] == m as usize);
            } else {
                assert(next[a + 1] == m as usize);
            }
        }
    }
    assert forall|a: int| 0 <= a < next.len() implies (#[trigger] next[a]) < all.len() by {
        if a < p {
            assert(next[a] == order[a]);
        } else if a > p {
            assert(next[a] == order[a - 1]);
        }
    }
    assert forall|a: int, b: int| 0 <= a < b < next.len() implies {
        &&& next[a] != next[b]
        &&& ordered(all[#[trigger] next[a] as int], all[#[trigger] next[b] as int])
        &&& all[next[a] as int] == all[next[b] as int] ==> next[a] < next[b]
    } by {
        let i = if a < p {
            a
        } else {
            a - 1
        };
        let j = if b < p {
            b
        } else {
            b - 1
        };
        if a == p {
            assert(next[a] == n);
            assert(next[b] == order[j]);
        } else if b == p {
            assert(next[b] == n);
            assert(next[a] == order[i]);
        } else {
            assert(next[a] == order[i]);
            assert(next[b] == order[j]);
        }
    }
}

/// The indices of `keys` along the order of the keys; equal keys keep their order.
pub fn arrangement(keys: &Vec<String>) -> (order: Vec<usize>)
    ensures
        arranges(order@, keys.deep_view()),
{
    let ghost all = keys.deep_view();
    let mut order: Vec<usize> = Vec::new();
    let mut i: usize = 0;
    while i < keys.len()
        invariant
            i <= keys.len(),
            all == keys.deep_view(),
            arranges(order@, all.take(i as int)),
        decreases keys.len() - i,
    {
        let ghost before = all.take(i as int);
        let ghost key = all[i as int];
        let mut p: usize = order.len();
        while p > 0 && !is_ordered(keys[order[p - 1]].as_str(), keys[i].as_str())
            invariant
                i < keys.len(),
                all == keys.deep_view(),
                before == all.take(i as int),
                key == all[i as int],
                arranges(order@, before),
                p <= order.len(),
                forall|a: int|
                    p <= a < order.len() ==> !ordered(before[#[trigger] order@[a] as int], key),
            decreases p,
        {
            assert(order@[p - 1] < before.len());
            p = p - 1;
        }
        proof {
            if p > 0 {
                assert(order@[p - 1] < before.len());
            }
            lemma_insert_arranges(order@, before, key, p as int);
            assert(before.push(key) =~= all.take(i + 1));
        }
        order.insert(p, i);
        i = i + 1;
    }
    assert(all.take(i as int) =~= all);
    order
}

/// The values that `order` picks, one after the other.
pub open spec fn picked<T>(values: Seq<T>, order: Seq<usize>) -> Seq<T> {
    Seq::new(order.len(), |i: int| values[order[i] as int])
}

/// Picking every index once gives every value as often as it was there.
pub proof fn lemma_picked<T>(values: Seq<T>, order: Seq<usize>)
    requires
        order.len() == values.len(),
        forall|a: int| 0 <= a < order.len() ==> (#[trigger] order[a]) < values.len(),
        forall|m: int| 0 <= m < values.len() ==> #[trigger] order.contains(m as usize),
        forall|a: int, b: int|
            0 <= a < b < order.len() ==> #[trigger] order[a] != #[trigger] order[b],
        values.len() <= usize::MAX,
    ensures
        picked(values, order).to_multiset() == values.to_multiset(),
    decreases values.len(),
{
    broadcast use vstd::seq_lib::group_to_multiset_ensures;

    if values.len() == 0 {
        assert(picked(values, order) =~= values);
    } else {
        let last = values.len() - 1;
        assert(order.contains(last as usize));
        let a = choose|a: int| 0 <= a < order.len() && order[a] == last as usize;
        let fewer = values.drop_last();
        let rest = order.remove(a);
        assert forall|m: int| 0 <= m < fewer.len() implies #[trigger] rest.contains(m as usize) by {
            assert(order.contains(m as usize));
            let b = choose|b: int| 0 <= b < order.len() && order[b] == m as usize;
            if b < a {
                assert(rest[b] == m as usize);
            } else {
                assert(rest[b - 1] == m as usize);
            }
        }
        assert forall|b: int| 0 <= b < rest.len() implies (#[trigger] rest[b]) < fewer.len() by {
            let c = if b < a {
                b
            } else {
                b + 1
            };
            assert(rest[b] == order[c]);
            assert(order[c] != order[a]);
        }
        lemma_picked(fewer, rest);
        let all = picked(values, order);
        assert(picked(fewer, rest) =~= all.remove(a));
        assert(all.contains(all[a]));
        assert(values =~= fewer.push(values.last()));
        assert(all.to_multiset() =~= all.remove(a).to_multiset().insert(all[a]));
    }
}

/// The names in order, each as often as it was given.
pub fn sort(names: &Vec<String>) -> (r: Vec<String>)
    ensures
        sorted(r.deep_view()),
        r.deep_view().to_multiset() == names.deep_view().to_multiset(),
{
    let order = arrangement(names);
    let ghost all = names.deep_view();
    let mut r: Vec<String> = Vec::new();
    let mut i: usize = 0;
    while i < order.len()
        invariant
            i <= order.len(),
            all == names.deep_view(),
            arranges(order@, all),
            r.deep_view() == picked(all, order@).take(i as int),
        decreases order.len() - i,
    {
        let ghost before = r.deep_view();
        assert(order@[i as int] < all.len());
        let name = names[order[i]].clone();
        r.push(name);
        assert(r.deep_view() =~= before.push(all[order@[i as int] as int]));
        assert(r.deep_view() =~= picked(all, order@).take(i + 1));
        i = i + 1;
    }
    proof {
        assert(r.deep_view() =~= picked(all, order@));
        lemma_picked(all, order@);
        assert forall|a: int, b: int| 0 <= a <= b < r.deep_view().len() implies ordered(
            #[trigger] r.deep_view()[a],
            #[trigger] r.deep_view()[b],
        ) by {
            if a == b {
                lemma_ordered_total(r.deep_view()[a], r.deep_view()[a]);
            } else {
                assert(ordered(all[order@[a] as int], all[order@[b] as int]));
            }
        }
    }
    r
}

// === Putting text together ===

/// The two texts, one after the other.
pub fn cat2(a: &str, b: &str) -> (r: String)
    ensures
        r@ == a@ + b@,
{
    let mut r = a.to_string();
    r.append(b);
    r
}

/// The three texts, one after the other.
pub fn cat3(a: &str, b: &str, c: &str) -> (r: String)
    ensures
        r@ == a@ + b@ + c@,
{
    let mut r = cat2(a, b);
    r.append(c);
    r
}

/// The four texts, one after the other.
pub fn cat4(a: &str, b: &str, c: &str, d: &str) -> (r: String)
    ensures
        r@ == a@ + b@ + c@ + d@,
{
    let mut r = cat3(a, b, c);
    r.append(d);
    r
}

/// The five texts, one after the other.
pub fn cat5(a: &str, b: &str, c: &str, d: &str, e: &str) -> (r: String)
    ensures
        r@ == a@ + b@ + c@ + d@ + e@,
{
    let mut r = cat4(a, b, c, d);
    r.append(e);
    r
}

/// `n` in decimal.
pub fn decimal_u128(n: u128) -> (r: String)
    ensures
        r@ == decimal(n as nat),
    decreases n,
{
    if n < 10 {
        let c = digit_char(n as u64);
        let mut r = String::new();
        r.push(c);
        assert(r@ =~= seq![digit(n as nat)]);
        r
    } else {
        let mut r = decimal_u128(n / 10);
        r.push(digit_char((n % 10) as u64));
        r
    }
}

/// `s` as `str`'s `Debug` writes it: in quotes, with escapes.
pub uninterp spec fn debug_quoted(s: Seq<char>) -> Seq<char>;

/// `format!("{:?}")` of a `str`. The result depends on the text alone.
#[verifier::external_body]
pub(crate) fn debug_quote(s: &str) -> (r: String)
    ensures
        r@ == debug_quoted(s@),
{
    format!("{:?}", s)
}

/// The lower case of `s`, as the standard library has it.
pub uninterp spec fn lower_case(s: Seq<char>) -> Seq<char>;

/// `str::to_lowercase` gives the lower case of a text by the Unicode tables, which depends
/// on the text alone.
#[verifier::external_body]
pub(crate) fn to_lowercase(s: &str) -> (r: String)
    ensures
        r@ == lower_case(s@),
{
    s.to_lowercase()
}

/// The last digit of a decimal tells the number's remainder, and what stands ahead of it
/// the rest.
pub proof fn lemma_decimal_tells_apart(a: nat, b: nat)
    ensures
        decimal(a) == decimal(b) ==> a == b,
    decreases a,
{
    lemma_decimal_len(a);
    lemma_decimal_len(b);
    if decimal(a) == decimal(b) {
        if a < 10 {
            if b < 10 {
                assert(decimal(a)[0] == decimal(b)[0]);
                assert(digit(a) as int == 48 + a);
                assert(digit(b) as int == 48 + b);
            } else {
                assert(decimal(b).len() >= 2) by {
                    lemma_decimal_len(b / 10);
                }
            }
        } else if b < 10 {
            assert(decimal(a).len() >= 2) by {
                lemma_decimal_len(a / 10);
            }
        } else {
            assert(decimal(a).last() == digit(a % 10));
            assert(decimal(b).last() == digit(b % 10));
            assert(digit(a % 10) as int == 48 + a % 10);
            assert(digit(b % 10) as int == 48 + b % 10);
            assert(decimal(a).drop_last() =~= decimal(a / 10));
            assert(decimal(b).drop_last() =~= decimal(b / 10));
            lemma_decimal_tells_apart(a / 10, b / 10);
        }
    }
}

/// A decimal has a digit.
proof fn lemma_decimal_len(n: nat)
    ensures
        decimal(n).len() >= 1,
    decreases n,
{
    if n >= 10 {
        lemma_decimal_len(n / 10);
    }
}

/// Joining works from the front too.
pub proof fn lemma_joined_front(parts: Seq<Seq<char>>, sep: Seq<char>)
    requires
        parts.len() > 1,
    ensures
        joined(parts, sep) == parts[0] + sep + joined(parts.drop_first(), sep),
    decreases parts.len(),
{
    let fewer = parts.drop_last();
    if parts.len() == 2 {
        reveal_with_fuel(joined, 2);
        assert(fewer.len() == 1);
        assert(parts.drop_first().len() == 1);
    } else {
        lemma_joined_front(fewer, sep);
        assert(fewer.drop_first() =~= parts.drop_first().drop_last());
        assert(joined(parts, sep) =~= parts[0] + sep + joined(parts.drop_first(), sep));
    }
}

/// A decimal is a run of digits that writes its number.
proof fn lemma_decimal_digits(n: nat)
    ensures
        all_digits(decimal(n)),
        digits_value(decimal(n)) == n,
    decreases n,
{
    if n < 10 {
        reveal_with_fuel(digits_value, 2);
        assert(digit(n) as int == 48 + n);
        assert(decimal(n).drop_last() =~= Seq::empty());
    } else {
        lemma_decimal_digits(n / 10);
        let last = digit(n % 10);
        assert(last as int == 48 + n % 10);
        assert(decimal(n).drop_last() =~= decimal(n / 10));
        assert(decimal(n).last() == last);
    }
}

/// An integer in decimal reads back as the integer, and holds digits and a sign only.
pub proof fn decimals_read_back(n: int)
    ensures
        integer(signed_decimal(n)) == Some(n),
        n >= 0 ==> signed_decimal(n) == decimal(n as nat),
        n >= 0 ==> natural(decimal(n as nat)) == Some(n as nat),
        signed_decimal(n).len() > 0,
        is_digit(signed_decimal(n)[0]) || signed_decimal(n)[0] == '-',
        forall|i: int|
            0 <= i < signed_decimal(n).len() ==> is_digit(#[trigger] signed_decimal(n)[i])
                || signed_decimal(n)[i] == '-',
{
    if n < 0 {
        let body = decimal((-n) as nat);
        lemma_decimal_digits((-n) as nat);
        assert(signed_decimal(n).skip(1) =~= body);
        assert forall|i: int| 0 <= i < signed_decimal(n).len() implies is_digit(
            #[trigger] signed_decimal(n)[i],
        ) || signed_decimal(n)[i] == '-' by {
            if i > 0 {
                assert(signed_decimal(n)[i] == body[i - 1]);
            }
        }
    } else {
        lemma_decimal_digits(n as nat);
        assert(is_digit(decimal(n as nat)[0]));
    }
}

// === Laws ===

/// Joined parts are all of the parts in order, each but the first behind a separator.
pub proof fn joining_keeps_every_part(parts: Seq<Seq<char>>, sep: Seq<char>)
    ensures
        joined(parts, sep) == Seq::new(
            parts.len(),
            |i: int|
                if i == 0 {
                    parts[0]
                } else {
                    sep + parts[i]
                },
        ).flatten(),
    decreases parts.len(),
{
    let pieces = Seq::new(
        parts.len(),
        |i: int|
            if i == 0 {
                parts[0]
            } else {
                sep + parts[i]
            },
    );
    if parts.len() == 0 {
        assert(pieces.flatten() =~= Seq::empty());
    } else if parts.len() == 1 {
        assert(pieces =~= seq![parts[0]]);
        pieces.lemma_flatten_one_element();
    } else {
        let fewer = parts.drop_last();
        joining_keeps_every_part(fewer, sep);
        let before = Seq::new(
            fewer.len(),
            |i: int|
                if i == 0 {
                    fewer[0]
                } else {
                    sep + fewer[i]
                },
        );
        let last = sep + parts.last();
        assert(pieces =~= before.push(last));
        before.lemma_flatten_push(last);
        assert(joined(parts, sep) =~= before.flatten() + last);
    }
}

/// The pieces between the occurrences of a character hold none of it, and put together with it
/// they are the text.
pub proof fn pieces_join_back(s: Seq<char>, c: char)
    ensures
        split_at(s, c).len() > 0,
        joined(split_at(s, c), seq![c]) == s,
        forall|i: int|
            0 <= i < split_at(s, c).len() ==> !(#[trigger] split_at(s, c)[i]).contains(c),
    decreases s.len(),
{
    lemma_find(s, c);
    let i = find(s, c) as int;
    let pieces = split_at(s, c);
    if i < s.len() {
        let rest = s.skip(i + 1);
        pieces_join_back(rest, c);
        let others = split_at(rest, c);
        assert(pieces =~= seq![s.take(i)] + others);
        lemma_joined_front(pieces, seq![c]);
        assert(pieces.drop_first() =~= others);
        assert(s =~= s.take(i) + seq![c] + rest);
        assert forall|k: int| 0 <= k < pieces.len() implies !(#[trigger] pieces[k]).contains(c) by {
            if k > 0 {
                assert(pieces[k] == others[k - 1]);
            }
        }
    } else {
        assert(pieces =~= seq![s]);
        assert(joined(pieces, seq![c]) =~= s);
    }
}

/// Parts that hold none of a character are the pieces of what they are joined to with it.
pub proof fn joined_parts_split_back(parts: Seq<Seq<char>>, c: char)
    requires
        parts.len() > 0,
        forall|i: int| 0 <= i < parts.len() ==> !(#[trigger] parts[i]).contains(c),
    ensures
        split_at(joined(parts, seq![c]), c) == parts,
    decreases parts.len(),
{
    let whole = joined(parts, seq![c]);
    let first = parts[0];
    assert(!first.contains(c));
    assert forall|j: int| 0 <= j < first.len() implies first[j] != c by {
        assert(first.contains(first[j]));
    }
    if parts.len() == 1 {
        lemma_find_is(whole, c, whole.len() as int);
        assert(split_at(whole, c) =~= parts);
    } else {
        let rest = parts.drop_first();
        lemma_joined_front(parts, seq![c]);
        let n = first.len() as int;
        assert(whole[n] == c);
        assert forall|j: int| 0 <= j < n implies whole[j] != c by {
            assert(whole[j] == first[j]);
        }
        lemma_find_is(whole, c, n);
        assert(whole.take(n) =~= first);
        assert(whole.skip(n + 1) =~= joined(rest, seq![c]));
        assert forall|i: int| 0 <= i < rest.len() implies !(#[trigger] rest[i]).contains(c) by {
            assert(rest[i] == parts[i + 1]);
        }
        joined_parts_split_back(rest, c);
        assert(split_at(whole, c) =~= parts);
    }
}

/// A text is split at the first occurrence of a character, and only where there is one.
pub proof fn texts_split_at_the_first(s: Seq<char>, c: char)
    ensures
        match split_once_at(s, c) {
            Some((before, behind)) => s == before + seq![c] + behind && !before.contains(c),
            None => !s.contains(c),
        },
{
    lemma_find(s, c);
    let i = find(s, c) as int;
    if i < s.len() {
        assert(s =~= s.take(i) + seq![c] + s.skip(i + 1));
    }
}

/// Every occurrence of a character is replaced, and nothing else.
pub proof fn replacing_is_per_character(s: Seq<char>, c: char, with: Seq<char>)
    ensures
        replaced(s, c, with) == s.map_values(
            |x: char|
                if x == c {
                    with
                } else {
                    seq![x]
                },
        ).flatten(),
    decreases s.len(),
{
    let put = |x: char|
        if x == c {
            with
        } else {
            seq![x]
        };
    if s.len() == 0 {
        assert(s.map_values(put).flatten() =~= Seq::empty());
    } else {
        let fewer = s.drop_last();
        replacing_is_per_character(fewer, c, with);
        let before = fewer.map_values(put);
        assert(s.map_values(put) =~= before.push(put(s.last())));
        before.lemma_flatten_push(put(s.last()));
    }
}

/// What is taken off the front is all that is to be dropped there.
pub proof fn lemma_trimmed_start(s: Seq<char>, drop: spec_fn(char) -> bool)
    ensures
        ({
            let left = trimmed_start(s, drop);
            let n = s.len() - left.len();
            &&& left.len() <= s.len()
            &&& left == s.skip(n)
            &&& forall|i: int| 0 <= i < n ==> drop(#[trigger] s[i])
            &&& left.len() > 0 ==> !drop(left[0])
        }),
    decreases s.len(),
{
    if s.len() > 0 && drop(s[0]) {
        let rest = s.drop_first();
        lemma_trimmed_start(rest, drop);
        let left = trimmed_start(s, drop);
        let n = s.len() - left.len();
        assert(s.skip(n) =~= rest.skip(n - 1));
        assert forall|i: int| 0 <= i < n implies drop(#[trigger] s[i]) by {
            if i > 0 {
                assert(s[i] == rest[i - 1]);
            }
        }
    } else {
        assert(s.skip(0) =~= s);
    }
}

/// What is taken off the end is all that is to be dropped there.
pub proof fn lemma_trimmed_end(s: Seq<char>, drop: spec_fn(char) -> bool)
    ensures
        ({
            let left = trimmed_end(s, drop);
            &&& left.len() <= s.len()
            &&& left == s.take(left.len() as int)
            &&& forall|i: int| left.len() <= i < s.len() ==> drop(#[trigger] s[i])
            &&& left.len() > 0 ==> !drop(left.last())
        }),
    decreases s.len(),
{
    if s.len() > 0 && drop(s.last()) {
        let rest = s.drop_last();
        lemma_trimmed_end(rest, drop);
        let left = trimmed_end(s, drop);
        assert(s.take(left.len() as int) =~= rest.take(left.len() as int));
        assert forall|i: int| left.len() <= i < s.len() implies drop(#[trigger] s[i]) by {
            if i < rest.len() {
                assert(s[i] == rest[i]);
            }
        }
    } else {
        assert(s.take(s.len() as int) =~= s);
    }
}

/// Whether `inner` is `s` without white space around it: what stands ahead of it and behind it
/// is white space, and it neither begins nor ends with any.
pub open spec fn is_trimmed(s: Seq<char>, inner: Seq<char>, from: int) -> bool {
    &&& 0 <= from
    &&& from + inner.len() <= s.len()
    &&& inner == s.subrange(from, from + inner.len())
    &&& forall|i: int| 0 <= i < from ==> white_space(#[trigger] s[i])
    &&& forall|i: int| from + inner.len() <= i < s.len() ==> white_space(#[trigger] s[i])
    &&& inner.len() > 0 ==> !white_space(inner[0]) && !white_space(inner.last())
}

/// Trimming takes off the white space around a text, all of it and nothing else.
pub proof fn trimming_takes_off_white_space(s: Seq<char>)
    ensures
        exists|from: int| is_trimmed(s, trimmed(s), from),
{
    let drop = |c: char| white_space(c);
    let head = trimmed_start(s, drop);
    let from = s.len() - head.len();
    lemma_trimmed_start(s, drop);
    lemma_trimmed_end(head, drop);
    let inner = trimmed(s);
    assert(inner =~= s.subrange(from, from + inner.len()));
    assert forall|i: int| from + inner.len() <= i < s.len() implies white_space(#[trigger] s[i]) by {
        assert(s[i] == head[i - from]);
        assert(drop(head[i - from]));
    }
    assert forall|i: int| 0 <= i < from implies white_space(#[trigger] s[i]) by {
        assert(drop(s[i]));
    }
    if inner.len() > 0 {
        assert(inner[0] == head[0]);
        assert(!drop(head[0]));
        assert(!drop(inner.last()));
    }
    assert(is_trimmed(s, inner, from));
}

/// A text without white space at its ends is what it is trimmed to.
pub proof fn trimmed_texts_stay(s: Seq<char>)
    requires
        s.len() > 0 ==> !white_space(s[0]) && !white_space(s.last()),
    ensures
        trimmed(s) == s,
{
}

/// Texts stand in the order of dictionaries: the one ahead is the beginning of the other, or is
/// less at the first place where they differ.
pub proof fn texts_are_ordered_by_their_first_difference(a: Seq<char>, b: Seq<char>)
    ensures
        ordered(a, b) <==> (a.is_prefix_of(b) || exists|i: int|
            {
                &&& 0 <= i < a.len()
                &&& i < b.len()
                &&& #[trigger] a.take(i) == b.take(i)
                &&& (a[i] as int) < (b[i] as int)
            }),
    decreases a.len(),
{
    if a.len() == 0 {
        assert(a.is_prefix_of(b)) by {
            assert(b.take(0) =~= a);
        }
    } else if b.len() > 0 && a[0] == b[0] {
        let x = a.drop_first();
        let y = b.drop_first();
        texts_are_ordered_by_their_first_difference(x, y);
        assert(a =~= seq![a[0]] + x);
        assert(b =~= seq![b[0]] + y);
        if x.is_prefix_of(y) {
            assert(b.take(a.len() as int) =~= seq![b[0]] + y.take(x.len() as int));
        }
        if a.is_prefix_of(b) {
            assert(y.take(x.len() as int) =~= x) by {
                assert forall|k: int| 0 <= k < x.len() implies y[k] == x[k] by {
                    assert(b.take(a.len() as int)[k + 1] == a[k + 1]);
                }
            }
        }
        if exists|i: int|
            {
                &&& 0 <= i < x.len()
                &&& i < y.len()
                &&& #[trigger] x.take(i) == y.take(i)
                &&& (x[i] as int) < (y[i] as int)
            } {
            let i = choose|i: int|
                {
                    &&& 0 <= i < x.len()
                    &&& i < y.len()
                    &&& #[trigger] x.take(i) == y.take(i)
                    &&& (x[i] as int) < (y[i] as int)
                };
            assert(a.take(i + 1) =~= seq![a[0]] + x.take(i));
            assert(b.take(i + 1) =~= seq![b[0]] + y.take(i));
            assert((a[i + 1] as int) < (b[i + 1] as int));
        }
        if exists|i: int|
            {
                &&& 0 <= i < a.len()
                &&& i < b.len()
                &&& #[trigger] a.take(i) == b.take(i)
                &&& (a[i] as int) < (b[i] as int)
            } {
            let i = choose|i: int|
                {
                    &&& 0 <= i < a.len()
                    &&& i < b.len()
                    &&& #[trigger] a.take(i) == b.take(i)
                    &&& (a[i] as int) < (b[i] as int)
                };
            assert(i > 0);
            assert(x.take(i - 1) =~= y.take(i - 1)) by {
                assert forall|k: int| 0 <= k < i - 1 implies x[k] == y[k] by {
                    assert(a.take(i)[k + 1] == b.take(i)[k + 1]);
                }
            }
        }
    } else if b.len() > 0 {
        assert(a.take(0) =~= b.take(0));
        if a.is_prefix_of(b) {
            assert(b.take(a.len() as int)[0] == a[0]);
        }
        if exists|i: int|
            {
                &&& 0 <= i < a.len()
                &&& i < b.len()
                &&& #[trigger] a.take(i) == b.take(i)
                &&& (a[i] as int) < (b[i] as int)
            } {
            let i = choose|i: int|
                {
                    &&& 0 <= i < a.len()
                    &&& i < b.len()
                    &&& #[trigger] a.take(i) == b.take(i)
                    &&& (a[i] as int) < (b[i] as int)
                };
            if i > 0 {
                assert(a.take(i)[0] == b.take(i)[0]);
            }
        }
    } else {
        assert(!a.is_prefix_of(b));
    }
}

/// The letters of ASCII from `A` to `Z` have the lower case `a` to `z`; every other character
/// is its own.
pub proof fn ascii_letters_have_a_lower_case(c: char)
    ensures
        'A' <= c <= 'Z' ==> ascii_lower(c) as int - 'a' as int == c as int - 'A' as int,
        !('A' <= c <= 'Z') ==> ascii_lower(c) == c,
{
}

/// What stands behind an optional sign.
pub open spec fn unsigned(s: Seq<char>) -> Seq<char> {
    if s.len() > 0 && (s[0] == '+' || s[0] == '-') {
        s.skip(1)
    } else {
        s
    }
}

/// Only an optional sign and digits write an integer, and they write the sum of their digits by
/// place.
pub proof fn integers_are_digits(s: Seq<char>)
    ensures
        integer(s) is Some <==> unsigned(s).len() > 0 && forall|i: int|
            0 <= i < unsigned(s).len() ==> '0' <= #[trigger] unsigned(s)[i] <= '9',
        integer(s) is Some && integer(s)->0 < 0 ==> s[0] == '-',
        forall|d: char|
            '0' <= d <= '9' && integer(s) is Some && s[0] != '-' ==> #[trigger] integer(s.push(d))
                == Some(10 * integer(s)->0 + (d as int - '0' as int)),
        natural(s) is Some <==> integer(s) is Some && s[0] != '-',
        natural(s) is Some ==> natural(s)->0 == integer(s)->0,
{
    let body = unsigned(s);
    assert(all_digits(body) <==> body.len() > 0 && forall|i: int|
        0 <= i < body.len() ==> '0' <= #[trigger] body[i] <= '9') by {
        if all_digits(body) {
            assert forall|i: int| 0 <= i < body.len() implies '0' <= #[trigger] body[i] <= '9' by {
                assert(is_digit(body[i]));
            }
        }
    }
    assert forall|d: char|
        '0' <= d <= '9' && integer(s) is Some && s[0] != '-' implies #[trigger] integer(s.push(d))
        == Some(10 * integer(s)->0 + (d as int - '0' as int)) by {
        let more = s.push(d);
        let body = if s[0] == '+' {
            s.skip(1)
        } else {
            s
        };
        let longer = if s[0] == '+' {
            more.skip(1)
        } else {
            more
        };
        assert(longer =~= body.push(d));
        assert(longer.drop_last() =~= body);
        assert forall|i: int| 0 <= i < longer.len() implies is_digit(#[trigger] longer[i]) by {
            if i < body.len() {
                assert(longer[i] == body[i]);
                assert(is_digit(body[i]));
            }
        }
    }
    if s.len() > 0 && s[0] == '-' {
        assert(!all_digits(s)) by {
            assert(!is_digit(s[0]));
        }
    }
}

/// Lines that hold no line feed and do not end with a carriage return are read back from what
/// has a line feed behind each of them.
pub proof fn lines_read_back(lines: Seq<Seq<char>>)
    requires
        forall|i: int|
            0 <= i < lines.len() ==> !(#[trigger] lines[i]).contains('\n') && (lines[i].len() > 0
                ==> lines[i].last() != '\r'),
    ensures
        lines_of(lines.map_values(|line: Seq<char>| line.push('\n')).flatten()) == lines,
        lines_of(
            lines.map_values(|line: Seq<char>| line.push('\r').push('\n')).flatten(),
        ) == lines,
{
    let plain = lines.map_values(|line: Seq<char>| line.push('\n')).flatten();
    let returned = lines.map_values(|line: Seq<char>| line.push('\r').push('\n')).flatten();
    let ended = lines.map_values(|line: Seq<char>| line.push('\r'));
    assert forall|i: int| 0 <= i < ended.len() implies !(#[trigger] ended[i]).contains('\n') by {
        if ended[i].contains('\n') {
            let k = choose|k: int| 0 <= k < ended[i].len() && ended[i][k] == '\n';
            assert(lines[i][k] == '\n');
            assert(lines[i].contains('\n'));
        }
    }
    lemma_lines_split(lines, Seq::empty());
    lemma_lines_split(ended, Seq::empty());
    assert(plain + Seq::<char>::empty() =~= plain);
    assert(returned + Seq::<char>::empty() =~= returned);
    assert(ended.map_values(|line: Seq<char>| line.push('\n')) =~= lines.map_values(
        |line: Seq<char>| line.push('\r').push('\n'),
    ));
    let pieces = split_at(plain, '\n');
    assert(pieces.drop_last() =~= lines);
    assert(pieces.drop_last().map_values(|p: Seq<char>| without_return(p)) =~= lines);
    let others = split_at(returned, '\n');
    assert(others.drop_last() =~= ended);
    assert(ended.map_values(|p: Seq<char>| without_return(p)) =~= lines) by {
        assert forall|i: int| 0 <= i < lines.len() implies #[trigger] without_return(ended[i])
            == lines[i] by {
            assert(ended[i].drop_last() =~= lines[i]);
        }
    }
}

/// The pieces of lines with a line feed behind each are the lines, and what stands behind them.
proof fn lemma_lines_split(lines: Seq<Seq<char>>, tail: Seq<char>)
    requires
        forall|i: int| 0 <= i < lines.len() ==> !(#[trigger] lines[i]).contains('\n'),
        !tail.contains('\n'),
    ensures
        split_at(lines.map_values(|line: Seq<char>| line.push('\n')).flatten() + tail, '\n')
            == lines.push(tail),
    decreases lines.len(),
{
    let put = |line: Seq<char>| line.push('\n');
    let texts = lines.map_values(put);
    let whole = texts.flatten() + tail;
    if lines.len() == 0 {
        assert(whole =~= tail);
        assert forall|j: int| 0 <= j < tail.len() implies tail[j] != '\n' by {
            assert(tail.contains(tail[j]));
        }
        lemma_find_is(tail, '\n', tail.len() as int);
        assert(split_at(whole, '\n') =~= lines.push(tail));
    } else {
        let first = lines[0];
        let rest = lines.drop_first();
        assert(!first.contains('\n'));
        assert forall|i: int| 0 <= i < rest.len() implies !(#[trigger] rest[i]).contains('\n') by {
            assert(rest[i] == lines[i + 1]);
        }
        lemma_lines_split(rest, tail);
        assert(texts.drop_first() =~= rest.map_values(put));
        let behind = rest.map_values(put).flatten() + tail;
        assert(whole =~= first + seq!['\n'] + behind);
        let n = first.len() as int;
        assert forall|j: int| 0 <= j < n implies whole[j] != '\n' by {
            assert(whole[j] == first[j]);
            assert(first.contains(first[j]));
        }
        lemma_find_is(whole, '\n', n);
        assert(whole.take(n) =~= first);
        assert(whole.skip(n + 1) =~= behind);
        assert(split_at(whole, '\n') =~= lines.push(tail));
    }
}

/// The last line needs no line feed: what stands behind the others is a line too, as it is.
pub proof fn the_last_line_needs_no_feed(lines: Seq<Seq<char>>, tail: Seq<char>)
    requires
        forall|i: int|
            0 <= i < lines.len() ==> !(#[trigger] lines[i]).contains('\n') && (lines[i].len() > 0
                ==> lines[i].last() != '\r'),
        tail.len() > 0,
        !tail.contains('\n'),
    ensures
        lines_of(lines.map_values(|line: Seq<char>| line.push('\n')).flatten() + tail)
            == lines.push(tail),
{
    lemma_lines_split(lines, tail);
    let pieces = lines.push(tail);
    assert(pieces.drop_last() =~= lines);
    assert(lines.map_values(|p: Seq<char>| without_return(p)) =~= lines);
}


/// Every part occurs in what the parts are joined to.
pub proof fn lemma_part_occurs(parts: Seq<Seq<char>>, between: Seq<char>, i: int)
    requires
        0 <= i < parts.len(),
    ensures
        occurs(parts[i], joined(parts, between)),
    decreases parts.len(),
{
    let whole = joined(parts, between);
    if parts.len() == 1 {
        reveal_with_fuel(joined, 2);
        assert(whole.subrange(0, 0int + parts[0].len()) =~= parts[0]);
    } else if i == 0 {
        lemma_joined_front(parts, between);
        assert(whole.subrange(0, 0int + parts[0].len()) =~= parts[0]);
    } else {
        lemma_joined_front(parts, between);
        let rest = joined(parts.drop_first(), between);
        lemma_part_occurs(parts.drop_first(), between, i - 1);
        let part = parts[i];
        assert(parts.drop_first()[i - 1] == part);
        let at = choose|at: int|
            0 <= at && at + part.len() <= rest.len() && #[trigger] rest.subrange(
                at,
                at + part.len(),
            ) == part;
        let shift = parts[0].len() + between.len() + at;
        assert(whole.subrange(shift, shift + part.len()) =~= rest.subrange(at, at + part.len()));
    }
}


/// A sign stands ahead of the digits and says whether the integer is negative; it changes nothing
/// else.
pub proof fn signs_stand_ahead_of_digits(digits: Seq<char>)
    requires
        natural(digits) is Some,
        digits[0] != '+',
    ensures
        integer(digits) == Some(natural(digits)->0 as int),
        integer(seq!['+'] + digits) == Some(natural(digits)->0 as int),
        integer(seq!['-'] + digits) == Some(-(natural(digits)->0)),
        natural(seq!['+'] + digits) == natural(digits),
        natural(seq!['-'] + digits) is None,
{
    let plus = seq!['+'] + digits;
    let minus = seq!['-'] + digits;
    assert(plus.skip(1) =~= digits);
    assert(minus.skip(1) =~= digits);
    assert(all_digits(digits) ==> is_digit(digits[0]));
    assert(!is_digit(minus[0]) && !is_digit(plus[0]));
    integers_are_digits(digits);
    integers_are_digits(minus);
}

/// Lines are read back from what has a carriage return and a line feed behind each of them,
/// whatever the lines end with.
pub proof fn one_return_is_taken_off_each_line(lines: Seq<Seq<char>>)
    requires
        forall|i: int| 0 <= i < lines.len() ==> !(#[trigger] lines[i]).contains('\n'),
    ensures
        lines_of(
            lines.map_values(|line: Seq<char>| line.push('\r').push('\n')).flatten(),
        ) == lines,
{
    let returned = lines.map_values(|line: Seq<char>| line.push('\r').push('\n')).flatten();
    let ended = lines.map_values(|line: Seq<char>| line.push('\r'));
    assert forall|i: int| 0 <= i < ended.len() implies !(#[trigger] ended[i]).contains('\n') by {
        if ended[i].contains('\n') {
            let k = choose|k: int| 0 <= k < ended[i].len() && ended[i][k] == '\n';
            assert(lines[i][k] == '\n');
            assert(lines[i].contains('\n'));
        }
    }
    lemma_lines_split(ended, Seq::empty());
    assert(returned + Seq::<char>::empty() =~= returned);
    assert(ended.map_values(|line: Seq<char>| line.push('\n')) =~= lines.map_values(
        |line: Seq<char>| line.push('\r').push('\n'),
    ));
    let others = split_at(returned, '\n');
    assert(others.drop_last() =~= ended);
    assert(ended.map_values(|p: Seq<char>| without_return(p)) =~= lines) by {
        assert forall|i: int| 0 <= i < lines.len() implies #[trigger] without_return(ended[i])
            == lines[i] by {
            assert(ended[i].drop_last() =~= lines[i]);
        }
    }
}

} // verus!
