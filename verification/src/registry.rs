//! The mounted providers, and the paths that reach them.
//!
//! Providers are kept by mount point, so that several instances of one backend can stand
//! side by side. A path names a mount with its first segment; the rest is the provider's.

use vstd::prelude::*;
use vstd::string::*;

use crate::config::ProviderConfig;
use crate::error::{Failure, FailureView};
use crate::json::{self, Json, JsonView, Member};
use crate::provider::{self, Instance, Provider, ProviderObject};
use crate::request;
use crate::router::{self, EndpointInfo, EndpointView};
use crate::text;

verus! {

// === Paths ===

/// The parts that are not empty, in order.
pub open spec fn nonempty(parts: Seq<Seq<char>>) -> Seq<Seq<char>>
    decreases parts.len(),
{
    if parts.len() == 0 {
        Seq::empty()
    } else if parts[0].len() == 0 {
        nonempty(parts.drop_first())
    } else {
        seq![parts[0]] + nonempty(parts.drop_first())
    }
}

/// The segments of a path: what stands between its slashes, where anything does.
pub open spec fn segments(raw: Seq<char>) -> Seq<Seq<char>> {
    nonempty(text::split_at(raw, '/'))
}

/// The mount that a path names and the path within it, with its query; or the message that
/// refuses a path without segments.
pub open spec fn mount_split(path: Seq<char>) -> Result<(Seq<char>, Seq<char>), Seq<char>> {
    let parts = segments(request::base(path));
    let query = request::query(path);
    if parts.len() == 0 {
        Err("`"@ + path + "` names no mount"@)
    } else {
        let rest = "/"@ + text::joined(parts.drop_first(), "/"@);
        if query.len() == 0 {
            Ok((parts[0], rest))
        } else {
            Ok((parts[0], rest + "?"@ + query))
        }
    }
}

/// A leading slash adds no segment.
proof fn lemma_segments_slash(raw: Seq<char>)
    requires
        raw.len() > 0,
        raw[0] == '/',
    ensures
        segments(raw) == segments(raw.skip(1)),
{
    let parts = text::split_at(raw, '/');
    assert(text::find(raw, '/') == 0);
    assert(raw.take(0) =~= Seq::<char>::empty());
    assert(parts[0].len() == 0);
    assert(parts.drop_first() =~= text::split_at(raw.skip(1), '/'));
}

/// The first segment reaches up to the next slash.
proof fn lemma_segments_first(raw: Seq<char>, n: int)
    requires
        0 < n <= raw.len(),
        forall|i: int| 0 <= i < n ==> raw[i] != '/',
        n < raw.len() ==> raw[n] == '/',
    ensures
        segments(raw) == seq![raw.take(n)] + (if n < raw.len() {
            segments(raw.skip(n + 1))
        } else {
            Seq::empty()
        }),
{
    let parts = text::split_at(raw, '/');
    text::lemma_find_is(raw, '/', n);
    if n < raw.len() {
        assert(parts[0] == raw.take(n));
        assert(parts.drop_first() =~= text::split_at(raw.skip(n + 1), '/'));
    } else {
        assert(raw.take(n) =~= raw);
        assert(parts.drop_first() =~= Seq::<Seq<char>>::empty());
        assert(parts[0] == raw);
        reveal_with_fuel(nonempty, 2);
        assert(seq![raw] + Seq::<Seq<char>>::empty() =~= seq![raw]);
    }
}

/// A text without segments has none.
proof fn lemma_segments_none(raw: Seq<char>)
    requires
        raw.len() == 0,
    ensures
        segments(raw) == Seq::<Seq<char>>::empty(),
{
    let parts = text::split_at(raw, '/');
    assert(parts[0].len() == 0);
    assert(parts.drop_first() =~= Seq::<Seq<char>>::empty());
    reveal_with_fuel(nonempty, 2);
}

/// The segments of `raw`.
pub(crate) fn segments_of(raw: &Vec<char>, from: usize, to: usize) -> (r: Vec<String>)
    requires
        from <= to <= raw.len(),
    ensures
        r.deep_view() == segments(raw@.subrange(from as int, to as int)),
{
    let ghost whole = raw@.subrange(from as int, to as int);
    let mut parts: Vec<String> = Vec::new();
    let mut i: usize = from;
    assert(whole =~= raw@.subrange(i as int, to as int));
    assert(parts.deep_view() + segments(whole) =~= segments(whole));
    while i < to
        invariant
            from <= i <= to <= raw.len(),
            whole == raw@.subrange(from as int, to as int),
            segments(whole) == parts.deep_view() + segments(raw@.subrange(i as int, to as int)),
        decreases to - i,
    {
        let ghost left = raw@.subrange(i as int, to as int);
        let ghost before = parts.deep_view();
        if raw[i] == '/' {
            proof {
                lemma_segments_slash(left);
                assert(left.skip(1) =~= raw@.subrange(i + 1, to as int));
            }
            i = i + 1;
        } else {
            let start = i;
            while i < to && raw[i] != '/'
                invariant
                    start <= i <= to <= raw.len(),
                    forall|j: int| start <= j < i ==> raw@[j] != '/',
                decreases to - i,
            {
                i = i + 1;
            }
            proof {
                lemma_segments_first(left, i - start);
                assert(left.take(i - start) =~= raw@.subrange(start as int, i as int));
            }
            let part = text::string_of(raw, start, i);
            parts.push(part);
            assert(parts.deep_view() =~= before.push(part@));
            if i < to {
                assert(left.skip(i - start + 1) =~= raw@.subrange(i + 1, to as int));
                assert(segments(whole) =~= parts.deep_view() + segments(
                    raw@.subrange(i + 1, to as int),
                ));
                i = i + 1;
            } else {
                proof {
                    lemma_segments_none(raw@.subrange(i as int, to as int));
                }
                assert(segments(whole) =~= parts.deep_view() + segments(
                    raw@.subrange(i as int, to as int),
                ));
            }
        }
    }
    proof {
        lemma_segments_none(raw@.subrange(i as int, to as int));
    }
    assert(parts.deep_view() + Seq::<Seq<char>>::empty() =~= parts.deep_view());
    parts
}

/// Splits a path into the mount that it names and the path within it, which keeps the
/// query.
pub fn split_mount(path: &str) -> (r: Result<(&str, String), Failure>)
    ensures
        match r {
            Ok((mount, rest)) => mount_split(path@) is Ok && mount_split(path@)->Ok_0 == (
                mount@,
                rest@,
            ),
            Err(failure) => mount_split(path@) is Err && failure@ == FailureView::Message(
                mount_split(path@)->Err_0,
            ),
        },
{
    let chars = text::chars(path);
    let mut end: usize = 0;
    while end < chars.len() && chars[end] != '?'
        invariant
            end <= chars.len(),
            chars@ == path@,
            forall|j: int| 0 <= j < end ==> path@[j] != '?',
        decreases chars.len() - end,
    {
        end = end + 1;
    }
    let ghost raw = request::base(path@);
    let ghost query = request::query(path@);
    proof {
        text::lemma_find_is(path@, '?', end as int);
        assert(raw =~= path@.subrange(0, end as int));
        if end < chars.len() {
            assert(query =~= path@.subrange(end + 1, chars.len() as int));
        }
    }
    // The mount stands between the leading slashes and the next one.
    let mut start: usize = 0;
    assert(raw.skip(0) =~= raw);
    while start < end && chars[start] == '/'
        invariant
            start <= end <= chars.len(),
            chars@ == path@,
            raw == path@.subrange(0, end as int),
            segments(raw) == segments(raw.skip(start as int)),
        decreases end - start,
    {
        proof {
            lemma_segments_slash(raw.skip(start as int));
            assert(raw.skip(start as int).skip(1) =~= raw.skip(start + 1));
        }
        start = start + 1;
    }
    if start == end {
        proof {
            lemma_segments_none(raw.skip(start as int));
        }
        return Err(Failure::Message(text::cat3("`", path, "` names no mount")));
    }
    let mut stop: usize = start;
    while stop < end && chars[stop] != '/'
        invariant
            start <= stop <= end <= chars.len(),
            chars@ == path@,
            forall|j: int| start <= j < stop ==> path@[j] != '/',
        decreases end - stop,
    {
        stop = stop + 1;
    }
    let mount = path.substring_char(start, stop);
    let after: usize = if stop < end {
        stop + 1
    } else {
        end
    };
    let parts = segments_of(&chars, after, end);
    proof {
        let left = raw.skip(start as int);
        lemma_segments_first(left, stop - start);
        assert(left.take(stop - start) =~= mount@);
        if stop < end {
            assert(left.skip(stop - start + 1) =~= path@.subrange(after as int, end as int));
        } else {
            assert(path@.subrange(after as int, end as int) =~= Seq::<char>::empty());
            lemma_segments_none(path@.subrange(after as int, end as int));
        }
        assert(segments(raw) =~= seq![mount@] + parts.deep_view());
        assert(segments(raw).drop_first() =~= parts.deep_view());
    }
    let inner = text::join(&parts, "/");
    let rest = text::cat2("/", inner.as_str());
    if chars.len() - end > 1 {
        let kept = text::string_of(&chars, end + 1, chars.len());
        Ok((mount, text::cat3(rest.as_str(), "?", kept.as_str())))
    } else {
        Ok((mount, rest))
    }
}

// === Law of mounted paths ===

/// Whether `part` can stand between two slashes of a path.
pub open spec fn is_segment(part: Seq<char>) -> bool {
    &&& part.len() > 0
    &&& forall|i: int| 0 <= i < part.len() ==> part[i] != '/' && part[i] != '?'
}

/// The segments of joined segments are those segments.
proof fn lemma_segments_joined(parts: Seq<Seq<char>>)
    requires
        forall|i: int| 0 <= i < parts.len() ==> is_segment(#[trigger] parts[i]),
    ensures
        segments(text::joined(parts, "/"@)) == parts,
        forall|i: int|
            0 <= i < text::joined(parts, "/"@).len() ==> #[trigger] text::joined(parts, "/"@)[i]
                != '?',
    decreases parts.len(),
{
    reveal_strlit("/");
    let whole = text::joined(parts, "/"@);
    if parts.len() == 0 {
        lemma_segments_none(whole);
        assert(parts =~= Seq::empty());
    } else if parts.len() == 1 {
        assert(is_segment(parts[0]));
        lemma_segments_first(whole, whole.len() as int);
        assert(whole.take(whole.len() as int) =~= parts[0]);
        assert(seq![parts[0]] + Seq::<Seq<char>>::empty() =~= parts);
    } else {
        let fewer = parts.drop_first();
        assert forall|i: int| 0 <= i < fewer.len() implies is_segment(#[trigger] fewer[i]) by {
            assert(fewer[i] == parts[i + 1]);
        }
        lemma_segments_joined(fewer);
        lemma_joined_front(parts, "/"@);
        assert(is_segment(parts[0]));
        let n = parts[0].len() as int;
        let rest = text::joined(fewer, "/"@);
        assert(whole == parts[0] + "/"@ + rest);
        assert forall|i: int| 0 <= i < n implies whole[i] != '/' by {
            assert(whole[i] == parts[0][i]);
        }
        lemma_segments_first(whole, n);
        assert(whole.take(n) =~= parts[0]);
        assert(whole.skip(n + 1) =~= rest);
        assert(seq![parts[0]] + fewer =~= parts);
        assert forall|i: int| 0 <= i < whole.len() implies #[trigger] whole[i] != '?' by {
            if i < n {
                assert(whole[i] == parts[0][i]);
            } else if i > n {
                assert(whole[i] == rest[i - n - 1]);
            }
        }
    }
}

/// Joining works from the front too.
proof fn lemma_joined_front(parts: Seq<Seq<char>>, sep: Seq<char>)
    requires
        parts.len() > 1,
    ensures
        text::joined(parts, sep) == parts[0] + sep + text::joined(parts.drop_first(), sep),
    decreases parts.len(),
{
    let fewer = parts.drop_first();
    if parts.len() == 2 {
        assert(parts.drop_last() =~= seq![parts[0]]);
        assert(fewer =~= seq![parts[1]]);
        reveal_with_fuel(text::joined, 2);
    } else {
        lemma_joined_front(parts.drop_last(), sep);
        assert(parts.drop_last().drop_first() =~= fewer.drop_last());
        assert(text::joined(parts, sep) =~= parts[0] + sep + text::joined(fewer, sep));
    }
}

/// What mounting puts ahead of a path, splitting takes off: a path of a provider, under its
/// mount, splits into the mount and that path.
pub proof fn mounted_paths_split_back(
    mount: Seq<char>,
    parts: Seq<Seq<char>>,
    query: Seq<char>,
)
    requires
        is_segment(mount),
        forall|i: int| 0 <= i < parts.len() ==> is_segment(#[trigger] parts[i]),
    ensures
        ({
            let path = "/"@ + text::joined(parts, "/"@);
            &&& mount_split("/"@ + mount + path) == Ok::<(Seq<char>, Seq<char>), Seq<char>>(
                (mount, path),
            )
            &&& query.len() > 0 ==> mount_split("/"@ + mount + path + "?"@ + query) == Ok::<
                (Seq<char>, Seq<char>),
                Seq<char>,
            >((mount, path + "?"@ + query))
        }),
{
    reveal_strlit("/");
    reveal_strlit("?");
    let inner = text::joined(parts, "/"@);
    let path = "/"@ + inner;
    let whole = "/"@ + mount + path;
    lemma_segments_joined(parts);
    // The whole has no query, and its segments are the mount and the parts.
    assert forall|i: int| 0 <= i < whole.len() implies whole[i] != '?' by {
        let n = mount.len() as int;
        if 1 <= i < 1 + n {
            assert(whole[i] == mount[i - 1]);
        } else if i > 1 + n {
            assert(whole[i] == inner[i - n - 2]);
        }
    }
    lemma_segments_slash(whole);
    let body = whole.skip(1);
    assert(body =~= mount + "/"@ + inner);
    let n = mount.len() as int;
    assert forall|i: int| 0 <= i < n implies body[i] != '/' by {
        assert(body[i] == mount[i]);
    }
    lemma_segments_first(body, n);
    assert(body.take(n) =~= mount);
    assert(body.skip(n + 1) =~= inner);
    let all = segments(whole);
    assert(all == seq![mount] + parts);
    assert(all.drop_first() =~= parts);
    request::lemma_put_together(whole, query);
}

// === The registry ===

/// The mounted providers, by mount point.
pub struct Registry<P> {
    entries: Vec<(String, P)>,
}

/// The mounts of the entries.
pub open spec fn mounts_in<P>(entries: Seq<(String, P)>) -> Seq<Seq<char>> {
    entries.map_values(|entry: (String, P)| entry.0@)
}

/// The providers of the entries, by mount.
pub open spec fn by_mount<P>(entries: Seq<(String, P)>) -> Map<Seq<char>, P>
    decreases entries.len(),
{
    if entries.len() == 0 {
        Map::empty()
    } else {
        by_mount(entries.drop_last()).insert(entries.last().0@, entries.last().1)
    }
}

/// Whether `names` are the mounts, each once and in order.
pub open spec fn is_listing(names: Seq<Seq<char>>, mounts: Set<Seq<char>>) -> bool {
    &&& text::sorted(names)
    &&& names.no_duplicates()
    &&& names.to_set() == mounts
}

/// The message for a mount at which there is nothing.
pub open spec fn nothing_mounted(mount: Seq<char>, names: Seq<Seq<char>>) -> Seq<char> {
    "nothing mounted at `"@ + mount + "`. mounted: "@ + text::joined(names, ", "@)
}

/// An entry at each mount, and no other: what [`by_mount`] holds of entries whose mounts
/// are all different.
proof fn lemma_by_mount<P>(entries: Seq<(String, P)>)
    requires
        mounts_in(entries).no_duplicates(),
    ensures
        by_mount(entries).dom() == mounts_in(entries).to_set(),
        forall|i: int|
            0 <= i < entries.len() ==> by_mount(entries)[(#[trigger] entries[i]).0@]
                == entries[i].1,
    decreases entries.len(),
{
    let mounts = mounts_in(entries);
    if entries.len() == 0 {
        assert(by_mount(entries).dom() =~= mounts.to_set());
    } else {
        let fewer = entries.drop_last();
        let last = entries.len() - 1;
        assert(mounts_in(fewer) =~= mounts.drop_last());
        lemma_by_mount(fewer);
        assert forall|mount: Seq<char>| by_mount(entries).dom().contains(mount)
            == #[trigger] mounts.to_set().contains(mount) by {
            if mounts.contains(mount) {
                let i = choose|i: int| 0 <= i < mounts.len() && mounts[i] == mount;
                if i < last {
                    assert(mounts_in(fewer)[i] == mount);
                    assert(mounts_in(fewer).to_set().contains(mount));
                }
            }
            if by_mount(fewer).dom().contains(mount) {
                assert(mounts_in(fewer).contains(mount));
                let i = choose|i: int| 0 <= i < mounts_in(fewer).len() && mounts_in(fewer)[i]
                    == mount;
                assert(mounts[i] == mount);
            }
            assert(mounts[last] == entries.last().0@);
        }
        assert(by_mount(entries).dom() =~= mounts.to_set());
        assert forall|i: int| 0 <= i < entries.len() implies by_mount(
            entries,
        )[(#[trigger] entries[i]).0@] == entries[i].1 by {
            if i < last {
                assert(fewer[i] == entries[i]);
                assert(mounts[i] != mounts[last]);
            }
        }
    }
}

impl<P> View for Registry<P> {
    type V = Map<Seq<char>, P>;

    closed spec fn view(&self) -> Map<Seq<char>, P> {
        by_mount(self.entries@)
    }
}

impl<P> Registry<P> {
    /// No mount stands twice.
    pub closed spec fn wf(&self) -> bool {
        mounts_in(self.entries@).no_duplicates()
    }

    /// A registry without mounts.
    pub fn new() -> (r: Registry<P>)
        ensures
            r.wf(),
            r@ == Map::<Seq<char>, P>::empty(),
    {
        let entries: Vec<(String, P)> = Vec::new();
        Registry { entries }
    }

    /// The position of a mount, if it is in use.
    fn position(&self, mount: &str) -> (r: Option<usize>)
        requires
            self.wf(),
        ensures
            match r {
                Some(i) => {
                    &&& i < self.entries.len()
                    &&& self.entries@[i as int].0@ == mount@
                    &&& self@.contains_key(mount@)
                    &&& self@[mount@] == self.entries@[i as int].1
                },
                None => !self@.contains_key(mount@),
            },
    {
        let ghost mounts = mounts_in(self.entries@);
        proof {
            lemma_by_mount(self.entries@);
        }
        let mut i: usize = 0;
        while i < self.entries.len()
            invariant
                i <= self.entries.len(),
                mounts == mounts_in(self.entries@),
                self@ == by_mount(self.entries@),
                by_mount(self.entries@).dom() == mounts.to_set(),
                forall|j: int|
                    0 <= j < self.entries@.len() ==> by_mount(
                        self.entries@,
                    )[(#[trigger] self.entries@[j]).0@] == self.entries@[j].1,
                forall|j: int| 0 <= j < i ==> #[trigger] mounts[j] != mount@,
            decreases self.entries.len() - i,
        {
            assert(mounts[i as int] == self.entries@[i as int].0@);
            if text::same(self.entries[i].0.as_str(), mount) {
                assert(mounts.contains(mount@));
                return Some(i);
            }
            i = i + 1;
        }
        assert(!mounts.contains(mount@));
        None
    }

    /// Whether a mount point is in use.
    pub fn in_use(&self, mount: &str) -> (r: bool)
        requires
            self.wf(),
        ensures
            r == self@.contains_key(mount@),
    {
        self.position(mount).is_some()
    }

    /// Mounts a provider. A mount point that is in use is refused.
    pub fn mount_object(&mut self, mount: &str, provider: P) -> (r: Result<(), Failure>)
        requires
            old(self).wf(),
        ensures
            final(self).wf(),
            match r {
                Ok(_) => {
                    &&& !old(self)@.contains_key(mount@)
                    &&& final(self)@ == old(self)@.insert(mount@, provider)
                },
                Err(failure) => {
                    &&& old(self)@.contains_key(mount@)
                    &&& final(self)@ == old(self)@
                    &&& failure@ == FailureView::Message(
                        "mount point `"@ + mount@ + "` is already in use"@,
                    )
                },
            },
    {
        if self.in_use(mount) {
            return Err(
                Failure::Message(text::cat3("mount point `", mount, "` is already in use")),
            );
        }
        let ghost before = self.entries@;
        proof {
            lemma_by_mount(before);
        }
        self.entries.push((mount.to_string(), provider));
        proof {
            let mounts = mounts_in(before);
            assert(self.entries@.drop_last() =~= before);
            assert(mounts_in(self.entries@) =~= mounts.push(mount@));
            assert forall|i: int, j: int|
                0 <= i < mounts.push(mount@).len() && 0 <= j < mounts.push(mount@).len() && i
                    != j implies mounts.push(mount@)[i] != mounts.push(mount@)[j] by {
                if i == mounts.len() {
                    assert(mounts.to_set().contains(mounts[j]));
                } else if j == mounts.len() {
                    assert(mounts.to_set().contains(mounts[i]));
                }
            }
        }
        Ok(())
    }

    /// The mounts, in order.
    pub fn names(&self) -> (r: Vec<String>)
        requires
            self.wf(),
        ensures
            is_listing(r.deep_view(), self@.dom()),
    {
        broadcast use vstd::seq_lib::group_to_multiset_ensures;

        let ghost mounts = mounts_in(self.entries@);
        let mut names: Vec<String> = Vec::new();
        let mut i: usize = 0;
        while i < self.entries.len()
            invariant
                i <= self.entries.len(),
                mounts == mounts_in(self.entries@),
                names.deep_view() == mounts.take(i as int),
            decreases self.entries.len() - i,
        {
            let ghost before = names.deep_view();
            let name = self.entries[i].0.clone();
            names.push(name);
            assert(names.deep_view() =~= before.push(name@));
            assert(names.deep_view() =~= mounts.take(i + 1));
            i = i + 1;
        }
        assert(names.deep_view() =~= mounts);
        let sorted = text::sort(&names);
        proof {
            lemma_by_mount(self.entries@);
            lemma_same_items(sorted.deep_view(), mounts);
        }
        sorted
    }

    /// Every mount, in order.
    pub fn mounts(&self) -> (r: Vec<String>)
        requires
            self.wf(),
        ensures
            is_listing(r.deep_view(), self@.dom()),
    {
        self.names()
    }

    /// The provider that is mounted at `mount`.
    pub fn get(&self, mount: &str) -> (r: Result<&P, Failure>)
        requires
            self.wf(),
        ensures
            match r {
                Ok(provider) => self@.contains_key(mount@) && *provider == self@[mount@],
                Err(failure) => {
                    &&& !self@.contains_key(mount@)
                    &&& exists|names: Seq<Seq<char>>|
                        {
                            &&& #[trigger] is_listing(names, self@.dom())
                            &&& failure@ == FailureView::Message(nothing_mounted(mount@, names))
                        }
                },
            },
    {
        match self.position(mount) {
            Some(i) => Ok(&self.entries[i].1),
            None => {
                let names = self.names();
                let list = text::join(&names, ", ");
                let message = text::cat4(
                    "nothing mounted at `",
                    mount,
                    "`. mounted: ",
                    list.as_str(),
                );
                assert(message@ == nothing_mounted(mount@, names.deep_view()));
                Err(Failure::Message(message))
            },
        }
    }

    /// The provider that a path names with its mount, and the path within it.
    pub fn route(&self, path: &str) -> (r: Result<(&P, String), Failure>)
        requires
            self.wf(),
        ensures
            ({
                let split = mount_split(path@);
                match r {
                    Ok((provider, rest)) => {
                        &&& split is Ok
                        &&& self@.contains_key(split->Ok_0.0)
                        &&& *provider == self@[split->Ok_0.0]
                        &&& rest@ == split->Ok_0.1
                    },
                    Err(failure) => if split is Err {
                        failure@ == FailureView::Message(split->Err_0)
                    } else {
                        &&& !self@.contains_key(split->Ok_0.0)
                        &&& exists|names: Seq<Seq<char>>|
                            {
                                &&& #[trigger] is_listing(names, self@.dom())
                                &&& failure@ == FailureView::Message(
                                    nothing_mounted(split->Ok_0.0, names),
                                )
                            }
                    },
                }
            }),
    {
        match split_mount(path) {
            Ok((mount, rest)) => match self.get(mount) {
                Ok(provider) => Ok((provider, rest)),
                Err(failure) => Err(failure),
            },
            Err(failure) => Err(failure),
        }
    }
}

/// Two lists with the same items, each as often, have the same items once where one of them
/// does.
pub proof fn lemma_same_items(a: Seq<Seq<char>>, b: Seq<Seq<char>>)
    requires
        a.to_multiset() == b.to_multiset(),
    ensures
        b.no_duplicates() ==> a.no_duplicates(),
        a.to_set() == b.to_set(),
{
    broadcast use vstd::seq_lib::group_to_multiset_ensures;

    assert forall|name: Seq<char>| a.to_set().contains(name) == #[trigger] b.to_set().contains(
        name,
    ) by {
        assert(a.contains(name) <==> a.to_multiset().count(name) > 0);
        assert(b.contains(name) <==> b.to_multiset().count(name) > 0);
    }
    assert(a.to_set() =~= b.to_set());
    if b.no_duplicates() {
        b.lemma_multiset_has_no_duplicates();
        a.lemma_multiset_has_no_duplicates_conv();
    }
}

/// There is one listing of the mounts: two lists of the same mounts, each in order and
/// without repeats, are equal.
pub proof fn listings_are_unique(a: Seq<Seq<char>>, b: Seq<Seq<char>>, mounts: Set<Seq<char>>)
    requires
        is_listing(a, mounts),
        is_listing(b, mounts),
    ensures
        a == b,
    decreases a.len(),
{
    a.unique_seq_to_set();
    b.unique_seq_to_set();
    if a.len() == 0 {
        assert(a =~= b);
    } else {
        let last = a.len() - 1;
        // Each list ends with the greatest mount.
        assert(a.to_set().contains(a[last]) && b.to_set().contains(b[last]));
        assert(b.contains(a[last]) && a.contains(b[last]));
        let i = choose|i: int| 0 <= i < b.len() && b[i] == a[last];
        let j = choose|j: int| 0 <= j < a.len() && a[j] == b[last];
        assert(text::ordered(b[i], b[last]));
        assert(text::ordered(a[j], a[last]));
        text::lemma_ordered_total(a[last], b[last]);
        assert(a[last] == b[last]);
        let fewer = mounts.remove(a[last]);
        lemma_listing_shrinks(a, mounts);
        lemma_listing_shrinks(b, mounts);
        listings_are_unique(a.drop_last(), b.drop_last(), fewer);
        assert(a =~= a.drop_last().push(a[last]));
        assert(b =~= b.drop_last().push(b[last]));
    }
}

/// A listing without its last mount lists the others.
proof fn lemma_listing_shrinks(names: Seq<Seq<char>>, mounts: Set<Seq<char>>)
    requires
        is_listing(names, mounts),
        names.len() > 0,
    ensures
        is_listing(names.drop_last(), mounts.remove(names.last())),
{
    let fewer = names.drop_last();
    let last = names.len() - 1;
    assert forall|i: int, j: int| 0 <= i <= j < fewer.len() implies text::ordered(
        #[trigger] fewer[i],
        #[trigger] fewer[j],
    ) by {
        assert(text::ordered(names[i], names[j]));
    }
    assert forall|name: Seq<char>| #[trigger] fewer.to_set().contains(name) == mounts.remove(
        names.last(),
    ).contains(name) by {
        if fewer.contains(name) {
            let i = choose|i: int| 0 <= i < fewer.len() && fewer[i] == name;
            assert(names[i] == name);
            assert(names.to_set().contains(name));
        }
        if mounts.remove(names.last()).contains(name) {
            assert(names.to_set().contains(name));
            let i = choose|i: int| 0 <= i < names.len() && names[i] == name;
            assert(i != last);
            assert(fewer[i] == name);
        }
    }
    assert(fewer.to_set() =~= mounts.remove(names.last()));
}

// === What is mounted ===

/// The endpoint under its mount.
pub open spec fn under_mount(mount: Seq<char>, endpoint: EndpointView) -> EndpointView {
    EndpointView { path: "/"@ + mount + endpoint.path, ..endpoint }
}

/// The endpoints of the providers at the mounts, one mount after the other, each under its
/// mount.
pub open spec fn mounted_endpoints<P: ProviderObject>(
    mounted: Map<Seq<char>, P>,
    names: Seq<Seq<char>>,
) -> Seq<EndpointView>
    decreases names.len(),
{
    if names.len() == 0 {
        Seq::empty()
    } else {
        let mount = names.last();
        mounted_endpoints(mounted, names.drop_last()) + mounted[mount].endpoint_models().map_values(
            |endpoint: EndpointView| under_mount(mount, endpoint),
        )
    }
}

/// The description of a provider: its endpoints, as an object.
pub open spec fn described<P: ProviderObject>(provider: P) -> JsonView {
    JsonView::Object(seq![("endpoints"@, provider.description_model())])
}

/// The descriptions of the providers at the mounts, as an object.
pub open spec fn all_described<P: ProviderObject>(
    mounted: Map<Seq<char>, P>,
    names: Seq<Seq<char>>,
) -> JsonView {
    JsonView::Object(
        names.map_values(|name: Seq<char>| (name, described(mounted[name]))),
    )
}

/// The description of a provider.
fn describe_one<P: ProviderObject>(provider: &P) -> (r: Json)
    ensures
        r@ == described(*provider),
{
    let members = vec![
        Member { key: "endpoints".to_string(), value: provider.description() },
    ];
    let r = Json::Object(members);
    proof {
        json::lemma_json_view(r);
        assert(json::member_views(members@) =~= described(*provider)->Object_0);
    }
    r
}

/// The endpoint that a provider resolved a path to, under the mount of the provider.
pub fn at_mount(mount: &str, endpoint: &EndpointInfo) -> (r: EndpointInfo)
    ensures
        r@ == under_mount(mount@, endpoint@),
{
    endpoint.at(text::cat3("/", mount, endpoint.path.as_str()))
}

impl<P: ProviderObject> Registry<P> {
    /// Every endpoint of every mount, each under its mount, so that one listing addresses
    /// them all.
    pub fn endpoints(&self) -> (r: Vec<EndpointInfo>)
        requires
            self.wf(),
        ensures
            exists|names: Seq<Seq<char>>|
                {
                    &&& #[trigger] is_listing(names, self@.dom())
                    &&& router::endpoint_views(r@) == mounted_endpoints(self@, names)
                },
    {
        let names = self.names();
        let ghost listing = names.deep_view();
        let mut all: Vec<EndpointInfo> = Vec::new();
        let mut i: usize = 0;
        assert(listing.take(0) =~= Seq::empty());
        assert(router::endpoint_views(all@) =~= Seq::empty());
        while i < names.len()
            invariant
                i <= names.len(),
                self.wf(),
                listing == names.deep_view(),
                is_listing(listing, self@.dom()),
                router::endpoint_views(all@) == mounted_endpoints(self@, listing.take(i as int)),
            decreases names.len() - i,
        {
            let ghost before = router::endpoint_views(all@);
            assert(listing[i as int] == names@[i as int]@);
            assert(listing.take(i + 1).drop_last() =~= listing.take(i as int));
            assert(listing.to_set().contains(listing[i as int]));
            match self.get(names[i].as_str()) {
                Ok(provider) => {
                    let endpoints = provider.endpoints();
                    let ghost mount = names@[i as int]@;
                    let ghost added = provider.endpoint_models().map_values(
                        |endpoint: EndpointView| under_mount(mount, endpoint),
                    );
                    let mut k: usize = 0;
                    assert(before + added.take(0) =~= before);
                    while k < endpoints.len()
                        invariant
                            k <= endpoints.len(),
                            i < names.len(),
                            mount == names@[i as int]@,
                            router::endpoint_views(endpoints@) == provider.endpoint_models(),
                            added == provider.endpoint_models().map_values(
                                |endpoint: EndpointView| under_mount(mount, endpoint),
                            ),
                            router::endpoint_views(all@) == before + added.take(k as int),
                        decreases endpoints.len() - k,
                    {
                        let ghost held = router::endpoint_views(all@);
                        assert(router::endpoint_views(endpoints@)[k as int]
                            == endpoints@[k as int]@);
                        let endpoint = at_mount(names[i].as_str(), &endpoints[k]);
                        all.push(endpoint);
                        assert(router::endpoint_views(all@) =~= held.push(endpoint@));
                        assert(router::endpoint_views(all@) =~= before + added.take(k + 1));
                        k = k + 1;
                    }
                    assert(added.take(k as int) =~= added);
                },
                Err(_) => {},
            }
            i = i + 1;
        }
        assert(listing.take(i as int) =~= listing);
        all
    }

    /// The routes of one provider: the paths of its endpoints.
    pub fn routes(&self, name: &str) -> (r: Result<Vec<String>, Failure>)
        requires
            self.wf(),
        ensures
            match r {
                Ok(paths) => {
                    &&& self@.contains_key(name@)
                    &&& paths.deep_view() == self@[name@].endpoint_models().map_values(
                        |endpoint: EndpointView| endpoint.path,
                    )
                },
                Err(failure) => {
                    &&& !self@.contains_key(name@)
                    &&& exists|names: Seq<Seq<char>>|
                        {
                            &&& #[trigger] is_listing(names, self@.dom())
                            &&& failure@ == FailureView::Message(nothing_mounted(name@, names))
                        }
                },
            },
    {
        match self.get(name) {
            Ok(provider) => {
                let endpoints = provider.endpoints();
                let ghost model = router::endpoint_views(endpoints@).map_values(
                    |endpoint: EndpointView| endpoint.path,
                );
                let mut paths: Vec<String> = Vec::new();
                let mut i: usize = 0;
                while i < endpoints.len()
                    invariant
                        i <= endpoints.len(),
                        model == router::endpoint_views(endpoints@).map_values(
                            |endpoint: EndpointView| endpoint.path,
                        ),
                        paths.deep_view() == model.take(i as int),
                    decreases endpoints.len() - i,
                {
                    let ghost before = paths.deep_view();
                    assert(router::endpoint_views(endpoints@)[i as int] == endpoints@[i as int]@);
                    let path = endpoints[i].path.clone();
                    paths.push(path);
                    assert(paths.deep_view() =~= before.push(path@));
                    assert(paths.deep_view() =~= model.take(i + 1));
                    i = i + 1;
                }
                assert(paths.deep_view() =~= model);
                Ok(paths)
            },
            Err(failure) => Err(failure),
        }
    }

    /// Describes the endpoints of one provider.
    pub fn describe(&self, name: &str) -> (r: Result<Json, Failure>)
        requires
            self.wf(),
        ensures
            match r {
                Ok(json) => self@.contains_key(name@) && json@ == described(self@[name@]),
                Err(failure) => {
                    &&& !self@.contains_key(name@)
                    &&& exists|names: Seq<Seq<char>>|
                        {
                            &&& #[trigger] is_listing(names, self@.dom())
                            &&& failure@ == FailureView::Message(nothing_mounted(name@, names))
                        }
                },
            },
    {
        match self.get(name) {
            Ok(provider) => Ok(describe_one(provider)),
            Err(failure) => Err(failure),
        }
    }

    /// Describes every provider, by name.
    pub fn describe_all(&self) -> (r: Json)
        requires
            self.wf(),
        ensures
            exists|names: Seq<Seq<char>>|
                {
                    &&& #[trigger] is_listing(names, self@.dom())
                    &&& r@ == all_described(self@, names)
                },
    {
        let names = self.names();
        let ghost listing = names.deep_view();
        let ghost model = all_described(self@, listing)->Object_0;
        let mut members: Vec<Member> = Vec::new();
        let mut i: usize = 0;
        while i < names.len()
            invariant
                i <= names.len(),
                self.wf(),
                listing == names.deep_view(),
                is_listing(listing, self@.dom()),
                model == all_described(self@, listing)->Object_0,
                json::member_views(members@) == model.take(i as int),
            decreases names.len() - i,
        {
            let ghost before = json::member_views(members@);
            assert(listing[i as int] == names@[i as int]@);
            assert(listing.to_set().contains(listing[i as int]));
            match self.describe(names[i].as_str()) {
                Ok(value) => {
                    let member = Member { key: names[i].clone(), value };
                    members.push(member);
                    assert(json::member_views(members@) =~= before.push(member@));
                    assert(json::member_views(members@) =~= model.take(i + 1));
                },
                Err(_) => {},
            }
            i = i + 1;
        }
        assert(json::member_views(members@) =~= model);
        let r = Json::Object(members);
        proof {
            json::lemma_json_view(r);
        }
        r
    }
}

impl<S> Registry<Instance<S>> {
    /// Makes a provider of the settings and mounts it, with its state in the form that `keep`
    /// gives it. A mount point that is in use is refused before anything is made.
    pub fn mount<Q: Provider, F: Fn(Q) -> S>(
        &mut self,
        mount: &str,
        config: &ProviderConfig,
        keep: &F,
    ) -> (r: Result<(), Failure>)
        requires
            old(self).wf(),
            forall|state: Q| #[trigger] call_requires(*keep, (state,)),
        ensures
            final(self).wf(),
            old(self)@.contains_key(mount@) ==> r is Err && final(self)@ == old(self)@
                && r->Err_0@ == FailureView::Message(
                "mount point `"@ + mount@ + "` is already in use"@,
            ),
            r is Ok ==> {
                &&& final(self)@.contains_key(mount@)
                &&& final(self)@ == old(self)@.insert(mount@, final(self)@[mount@])
                &&& final(self)@[mount@].backend@ == Q::backend()
                &&& final(self)@[mount@].endpoint_models() == Q::routes()
                &&& provider::made::<Q, S, F>(config, *keep, final(self)@[mount@].state)
            },
            r is Err ==> final(self)@ == old(self)@,
            r is Err && !old(self)@.contains_key(mount@) ==> call_ensures(
                Q::new,
                (config,),
                Err::<Q, Failure>(r->Err_0),
            ),
    {
        if self.in_use(mount) {
            return Err(
                Failure::Message(text::cat3("mount point `", mount, "` is already in use")),
            );
        }
        match Instance::of::<Q, F>(config, keep) {
            Ok(instance) => self.mount_object(mount, instance),
            Err(failure) => Err(failure),
        }
    }
}

// === Laws ===

/// The segments of a path are what stands between its slashes, without what is empty.
pub proof fn segments_stand_between_slashes(raw: Seq<char>)
    ensures
        segments(raw) == text::split_at(raw, '/').filter(|part: Seq<char>| part.len() > 0),
{
    lemma_nonempty(text::split_at(raw, '/'));
}

/// What is left is what is not empty.
proof fn lemma_nonempty(parts: Seq<Seq<char>>)
    ensures
        nonempty(parts) == parts.filter(|part: Seq<char>| part.len() > 0),
    decreases parts.len(),
{
    let wanted = |part: Seq<char>| part.len() > 0;
    if parts.len() == 0 {
        reveal(Seq::filter);
    } else {
        let rest = parts.drop_first();
        lemma_nonempty(rest);
        rest.lemma_filter_prepend(parts[0], wanted);
        assert(parts =~= seq![parts[0]] + rest);
        assert(Seq::<Seq<char>>::empty() + rest.filter(wanted) =~= rest.filter(wanted));
    }
}

/// A path names the mount of its first segment, however many slashes stand around it, and is
/// refused exactly where it has none. The path within the mount is the other segments, all of
/// them and in order, with the query of the path.
pub proof fn paths_name_their_first_segment(path: Seq<char>)
    ensures
        ({
            let parts = text::split_at(request::base(path), '/').filter(
                |part: Seq<char>| part.len() > 0,
            );
            match mount_split(path) {
                Err(message) => parts.len() == 0 && message == "`"@ + path + "` names no mount"@,
                Ok((mount, rest)) => {
                    &&& parts.len() > 0
                    &&& mount == parts[0]
                    &&& rest == "/"@ + text::joined(parts.skip(1), "/"@) + if request::query(
                        path,
                    ).len() > 0 {
                        "?"@ + request::query(path)
                    } else {
                        Seq::empty()
                    }
                },
            }
        }),
{
    segments_stand_between_slashes(request::base(path));
    let parts = segments(request::base(path));
    if parts.len() > 0 {
        assert(parts.drop_first() =~= parts.skip(1));
        let rest = "/"@ + text::joined(parts.skip(1), "/"@);
        assert(rest + Seq::<char>::empty() =~= rest);
        assert(rest + "?"@ + request::query(path) =~= rest + ("?"@ + request::query(path)));
    }
}

/// An endpoint under its mount has the mount ahead of its path, and is otherwise the same.
pub proof fn mounts_stand_ahead_of_paths(mount: Seq<char>, endpoint: EndpointView)
    ensures
        ({
            let mounted = under_mount(mount, endpoint);
            &&& mounted.path == "/"@ + mount + endpoint.path
            &&& mounted.method == endpoint.method
            &&& mounted.params == endpoint.params
            &&& mounted.body == endpoint.body
            &&& mounted.response == endpoint.response
            &&& mounted.metadata == endpoint.metadata
        }),
{
}

/// The endpoints of all mounts are those of each, all of them, one mount after the other.
pub proof fn every_mount_shows_its_endpoints<P: ProviderObject>(
    mounted: Map<Seq<char>, P>,
    names: Seq<Seq<char>>,
)
    ensures
        mounted_endpoints(mounted, names) == names.map_values(
            |mount: Seq<char>|
                mounted[mount].endpoint_models().map_values(
                    |endpoint: EndpointView| under_mount(mount, endpoint),
                ),
        ).flatten(),
    decreases names.len(),
{
    let shown = |mount: Seq<char>|
        mounted[mount].endpoint_models().map_values(
            |endpoint: EndpointView| under_mount(mount, endpoint),
        );
    if names.len() == 0 {
        assert(names.map_values(shown).flatten() =~= Seq::empty());
    } else {
        let fewer = names.drop_last();
        every_mount_shows_its_endpoints(mounted, fewer);
        let before = fewer.map_values(shown);
        assert(names.map_values(shown) =~= before.push(shown(names.last())));
        before.lemma_flatten_push(shown(names.last()));
    }
}

/// Every mount is described by its name, with the endpoints of its provider.
pub proof fn every_mount_is_described<P: ProviderObject>(
    mounted: Map<Seq<char>, P>,
    names: Seq<Seq<char>>,
    i: int,
)
    requires
        names.no_duplicates(),
        0 <= i < names.len(),
    ensures
        all_described(mounted, names).member(names[i]) == Some(described(mounted[names[i]])),
        described(mounted[names[i]]).member("endpoints"@) == Some(
            mounted[names[i]].description_model(),
        ),
        all_described(mounted, names)->Object_0.len() == names.len(),
{
    json::lemma_member_at_is(all_described(mounted, names)->Object_0, names[i], i);
    json::lemma_member_at_is(described(mounted[names[i]])->Object_0, "endpoints"@, 0);
}


/// A mount that is not there is named, and so is every one that is.
pub proof fn absent_mounts_are_told_the_others(mount: Seq<char>, names: Seq<Seq<char>>, i: int)
    ensures
        ("nothing mounted at `"@ + mount + "`"@).is_prefix_of(nothing_mounted(mount, names)),
        0 <= i < names.len() ==> text::occurs(names[i], nothing_mounted(mount, names)),
{
    reveal_strlit("`");
    reveal_strlit("`. mounted: ");
    let message = nothing_mounted(mount, names);
    let head = "nothing mounted at `"@ + mount + "`"@;
    assert(message.subrange(0, head.len() as int) =~= head);
    if 0 <= i < names.len() {
        let list = text::joined(names, ", "@);
        text::lemma_part_occurs(names, ", "@, i);
        let at = choose|at: int|
            0 <= at && at + names[i].len() <= list.len() && #[trigger] list.subrange(
                at,
                at + names[i].len(),
            ) == names[i];
        let shift = ("nothing mounted at `"@ + mount + "`. mounted: "@).len() as int + at;
        assert(message.subrange(shift, shift + names[i].len()) =~= names[i]);
    }
}

} // verus!
