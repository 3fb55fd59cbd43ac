//! What a provider's endpoints are.

use vstd::prelude::*;
use vstd::string::*;

use crate::dataset::Disposition;
use crate::error::{Failure, FailureView};
use crate::page::ListStrategy;
use crate::registry;
use crate::request;
use crate::schema::{self, FieldView, Schema};
use crate::text;

verus! {

/// The verb of an endpoint.
#[derive(Debug, Clone, Copy, PartialEq, Eq, Structural)]
pub enum Method {
    /// One entity.
    Get,
    /// A list of rows, page by page.
    List,
    /// A new entity, from a JSON body.
    Create,
    /// Rows, written into a sink.
    Put,
}

/// What is declared of an endpoint beside its path and its rows.
#[derive(Debug)]
pub struct Metadata {
    /// How the sync layer walks the endpoint; only a list has one.
    pub strategy: Option<ListStrategy>,
    /// How a sink should apply the rows of the endpoint.
    pub disposition: Disposition,
    /// Whether the endpoint takes filters.
    pub queryable: bool,
    pub description: Option<String>,
}

/// The model of a [`Metadata`].
pub struct MetadataView {
    pub strategy: Option<ListStrategy>,
    pub disposition: Disposition,
    pub queryable: bool,
    pub description: Option<Seq<char>>,
}

impl View for Metadata {
    type V = MetadataView;

    open spec fn view(&self) -> MetadataView {
        MetadataView {
            strategy: self.strategy,
            disposition: self.disposition,
            queryable: self.queryable,
            description: self.description.deep_view(),
        }
    }
}

/// An endpoint of a provider.
#[derive(Debug)]
pub struct EndpointInfo {
    pub method: Method,
    pub path: String,
    /// The names of the params in the path.
    pub params: Vec<String>,
    /// The body of the request, where the endpoint takes one.
    pub body: Option<Schema>,
    /// The rows of the response.
    pub response: Schema,
    pub metadata: Metadata,
}

/// The model of an [`EndpointInfo`].
pub struct EndpointView {
    pub method: Method,
    pub path: Seq<char>,
    pub params: Seq<Seq<char>>,
    pub body: Option<Seq<FieldView>>,
    pub response: Seq<FieldView>,
    pub metadata: MetadataView,
}

impl View for EndpointInfo {
    type V = EndpointView;

    open spec fn view(&self) -> EndpointView {
        EndpointView {
            method: self.method,
            path: self.path@,
            params: self.params.deep_view(),
            body: match self.body {
                Some(body) => Some(body@),
                None => None,
            },
            response: self.response@,
            metadata: self.metadata@,
        }
    }
}

/// The models of a list of endpoints.
pub open spec fn endpoint_views(endpoints: Seq<EndpointInfo>) -> Seq<EndpointView> {
    endpoints.map_values(|endpoint: EndpointInfo| endpoint@)
}

/// The names of the params among the segments of a path: those behind a colon.
pub open spec fn param_names(segments: Seq<Seq<char>>) -> Seq<Seq<char>>
    decreases segments.len(),
{
    if segments.len() == 0 {
        Seq::empty()
    } else {
        let before = param_names(segments.drop_last());
        let last = segments.last();
        if last.len() > 0 && last[0] == ':' {
            before.push(last.skip(1))
        } else {
            before
        }
    }
}

/// An endpoint of which nothing is declared beside its verb and its path.
pub open spec fn bare(method: Method, path: Seq<char>) -> EndpointView {
    EndpointView {
        method,
        path,
        params: param_names(text::split_at(path, '/')),
        body: None,
        response: Seq::empty(),
        metadata: MetadataView {
            strategy: None,
            disposition: Disposition::Append,
            queryable: false,
            description: None,
        },
    }
}

/// A list that is walked by offset.
pub open spec fn offset_list(path: Seq<char>) -> EndpointView {
    let list = bare(Method::List, path);
    EndpointView {
        metadata: MetadataView { strategy: Some(ListStrategy::Offset), ..list.metadata },
        ..list
    }
}

/// The names of the params of a path.
fn params_of(path: &str) -> (r: Vec<String>)
    ensures
        r.deep_view() == param_names(text::split_at(path@, '/')),
{
    let segments = text::split(path, '/');
    let ghost all = segments.deep_view();
    let mut names: Vec<String> = Vec::new();
    let mut i: usize = 0;
    assert(all.take(0) =~= Seq::empty());
    assert(names.deep_view() =~= Seq::empty());
    while i < segments.len()
        invariant
            i <= segments.len(),
            all == segments.deep_view(),
            names.deep_view() == param_names(all.take(i as int)),
        decreases segments.len() - i,
    {
        let ghost before = names.deep_view();
        assert(all.take(i + 1).drop_last() =~= all.take(i as int));
        assert(all[i as int] == segments@[i as int]@);
        let chars = text::chars(segments[i].as_str());
        if chars.len() > 0 && chars[0] == ':' {
            let name = text::string_of(&chars, 1, chars.len());
            assert(name@ =~= chars@.skip(1));
            names.push(name);
            assert(names.deep_view() =~= before.push(name@));
        }
        i = i + 1;
    }
    assert(all.take(i as int) =~= all);
    names
}

impl EndpointInfo {
    /// An endpoint of which nothing is declared yet.
    pub fn new(method: Method, path: &str) -> (r: EndpointInfo)
        ensures
            r@ == bare(method, path@),
    {
        let fields: Vec<crate::schema::Field> = Vec::new();
        let response = Schema::new(fields);
        assert(response@ =~= Seq::empty());
        EndpointInfo {
            method,
            path: path.to_string(),
            params: params_of(path),
            body: None,
            response,
            metadata: Metadata {
                strategy: None,
                disposition: Disposition::Append,
                queryable: false,
                description: None,
            },
        }
    }

    /// Declares how the endpoint is walked.
    pub fn strategy(self, strategy: ListStrategy) -> (r: EndpointInfo)
        ensures
            r@ == (EndpointView {
                metadata: MetadataView { strategy: Some(strategy), ..self@.metadata },
                ..self@
            }),
    {
        let mut r = self;
        r.metadata.strategy = Some(strategy);
        r
    }

    /// Declares the body that the endpoint takes.
    pub fn body(self, body: Schema) -> (r: EndpointInfo)
        ensures
            r@ == (EndpointView { body: Some(body@), ..self@ }),
    {
        let mut r = self;
        r.body = Some(body);
        r
    }

    /// Declares that the endpoint takes filters.
    pub fn queryable(self) -> (r: EndpointInfo)
        ensures
            r@ == (EndpointView {
                metadata: MetadataView { queryable: true, ..self@.metadata },
                ..self@
            }),
    {
        let mut r = self;
        r.metadata.queryable = true;
        r
    }

    /// Describes the endpoint.
    pub fn description(self, description: &str) -> (r: EndpointInfo)
        ensures
            r@ == (EndpointView {
                metadata: MetadataView { description: Some(description@), ..self@.metadata },
                ..self@
            }),
    {
        let mut r = self;
        r.metadata.description = Some(description.to_string());
        r
    }

    /// The endpoint at another path.
    pub fn at(&self, path: String) -> (r: EndpointInfo)
        ensures
            r@ == (EndpointView { path: path@, ..self@ }),
    {
        let mut params: Vec<String> = Vec::new();
        let mut i: usize = 0;
        while i < self.params.len()
            invariant
                i <= self.params.len(),
                params.deep_view() == self.params.deep_view().take(i as int),
            decreases self.params.len() - i,
        {
            let ghost before = params.deep_view();
            let name = self.params[i].clone();
            params.push(name);
            assert(params.deep_view() =~= before.push(name@));
            assert(params.deep_view() =~= self.params.deep_view().take(i + 1));
            i = i + 1;
        }
        assert(params.deep_view() =~= self.params.deep_view());
        EndpointInfo {
            method: self.method,
            path,
            params,
            body: match &self.body {
                Some(body) => Some(body.clone()),
                None => None,
            },
            response: self.response.clone(),
            metadata: Metadata {
                strategy: self.metadata.strategy,
                disposition: self.metadata.disposition,
                queryable: self.metadata.queryable,
                description: match &self.metadata.description {
                    Some(text) => Some(text.clone()),
                    None => None,
                },
            },
        }
    }
}

/// What the segments of a pattern bind of the segments of a path: a segment behind a colon
/// binds any segment, and every other is itself.
pub open spec fn bound(pattern: Seq<Seq<char>>, parts: Seq<Seq<char>>) -> Option<
    Seq<(Seq<char>, Seq<char>)>,
>
    decreases pattern.len(),
{
    if pattern.len() != parts.len() {
        None
    } else if pattern.len() == 0 {
        Some(Seq::empty())
    } else {
        let last = pattern.last();
        match bound(pattern.drop_last(), parts.drop_last()) {
            None => None,
            Some(pairs) => if last.len() > 0 && last[0] == ':' {
                Some(pairs.push((last.skip(1), parts.last())))
            } else if last == parts.last() {
                Some(pairs)
            } else {
                None
            },
        }
    }
}

/// The params that a pattern binds on a path, whatever its query; none where the path is not
/// of the pattern.
pub fn bind(pattern: &str, path: &str) -> (r: Option<Vec<(String, String)>>)
    ensures
        r.deep_view() == bound(
            registry::segments(pattern@),
            registry::segments(request::base(path@)),
        ),
{
    let whole = text::chars(pattern);
    let names = registry::segments_of(&whole, 0, whole.len());
    assert(whole@.subrange(0, whole.len() as int) =~= pattern@);
    let (base, _) = request::split_query(path);
    let raw = text::chars(base.as_str());
    let parts = registry::segments_of(&raw, 0, raw.len());
    assert(raw@.subrange(0, raw.len() as int) =~= base@);
    let ghost wanted = names.deep_view();
    let ghost given = parts.deep_view();
    if names.len() != parts.len() {
        return None;
    }
    let mut pairs: Vec<(String, String)> = Vec::new();
    let mut i: usize = 0;
    assert(pairs.deep_view() =~= Seq::empty());
    while i < names.len()
        invariant
            i <= names.len(),
            names.len() == parts.len(),
            wanted == names.deep_view(),
            given == parts.deep_view(),
            wanted == registry::segments(pattern@),
            given == registry::segments(request::base(path@)),
            bound(wanted.take(i as int), given.take(i as int)) == Some(pairs.deep_view()),
        decreases names.len() - i,
    {
        let ghost before = pairs.deep_view();
        let name = names[i].as_str();
        let part = parts[i].as_str();
        proof {
            assert(wanted[i as int] == name@ && given[i as int] == part@);
            assert(wanted.take(i + 1).drop_last() =~= wanted.take(i as int));
            assert(given.take(i + 1).drop_last() =~= given.take(i as int));
            assert(wanted.take(i + 1).last() == name@ && given.take(i + 1).last() == part@);
            reveal_strlit(":");
            if name@.len() > 0 && name@[0] == ':' {
                assert(":"@ =~= name@.take(1));
            }
        }
        if text::starts_with(name, ":") {
            assert(name@[0] == ":"@[0]);
            let key = name.substring_char(1, name.unicode_len());
            assert(key@ =~= name@.skip(1));
            pairs.push((key.to_string(), part.to_string()));
            assert(pairs.deep_view() =~= before.push((key@, part@)));
        } else if !text::same(name, part) {
            proof {
                lemma_unbound(wanted, given, i + 1);
            }
            return None;
        }
        i = i + 1;
    }
    assert(wanted.take(i as int) =~= wanted);
    assert(given.take(i as int) =~= given);
    Some(pairs)
}

/// What is not bound by its beginning is not bound.
proof fn lemma_unbound(pattern: Seq<Seq<char>>, parts: Seq<Seq<char>>, n: int)
    requires
        0 <= n <= pattern.len(),
        pattern.len() == parts.len(),
        bound(pattern.take(n), parts.take(n)) is None,
    ensures
        bound(pattern, parts) is None,
    decreases pattern.len() - n,
{
    if n == pattern.len() {
        assert(pattern.take(n) =~= pattern);
        assert(parts.take(n) =~= parts);
    } else {
        assert(pattern.take(n + 1).drop_last() =~= pattern.take(n));
        assert(parts.take(n + 1).drop_last() =~= parts.take(n));
        lemma_unbound(pattern, parts, n + 1);
    }
}

/// Whether the endpoint answers the verb on the path.
pub open spec fn answers(endpoint: EndpointView, method: Method, path: Seq<char>) -> bool {
    &&& endpoint.method == method
    &&& bound(registry::segments(endpoint.path), registry::segments(request::base(path))) is Some
}

/// The place of the first endpoint that answers the verb on the path; behind the last where
/// none does.
pub open spec fn answering(endpoints: Seq<EndpointView>, method: Method, path: Seq<char>) -> nat
    decreases endpoints.len(),
{
    if endpoints.len() == 0 || answers(endpoints[0], method, path) {
        0
    } else {
        1 + answering(endpoints.drop_first(), method, path)
    }
}

/// The metadata of the list that answers on the path.
pub open spec fn list_metadata(endpoints: Seq<EndpointView>, path: Seq<char>) -> Option<
    MetadataView,
> {
    let i = answering(endpoints, Method::List, path) as int;
    if i < endpoints.len() {
        Some(endpoints[i].metadata)
    } else {
        None
    }
}

/// How the list that answers on the path is walked; nothing where none does.
pub open spec fn list_strategy(endpoints: Seq<EndpointView>, path: Seq<char>) -> Option<
    ListStrategy,
> {
    match list_metadata(endpoints, path) {
        Some(metadata) => metadata.strategy,
        None => None,
    }
}

/// How a sink should apply the rows of the list that answers on the path; appended where none
/// does.
pub open spec fn list_disposition(endpoints: Seq<EndpointView>, path: Seq<char>) -> Disposition {
    match list_metadata(endpoints, path) {
        Some(metadata) => metadata.disposition,
        None => Disposition::Append,
    }
}

/// Whether a list that takes filters answers on the path.
pub open spec fn list_queryable(endpoints: Seq<EndpointView>, path: Seq<char>) -> bool {
    match list_metadata(endpoints, path) {
        Some(metadata) => metadata.queryable,
        None => false,
    }
}

/// What is behind endpoints that do not answer is behind them in the whole.
proof fn lemma_answering(endpoints: Seq<EndpointView>, method: Method, path: Seq<char>, n: int)
    requires
        0 <= n <= endpoints.len(),
        forall|i: int| 0 <= i < n ==> !answers(#[trigger] endpoints[i], method, path),
    ensures
        answering(endpoints, method, path) == n + answering(endpoints.skip(n), method, path),
    decreases n,
{
    if n == 0 {
        assert(endpoints.skip(0) =~= endpoints);
    } else {
        assert(!answers(endpoints[0], method, path));
        let rest = endpoints.drop_first();
        assert forall|i: int| 0 <= i < n - 1 implies !answers(#[trigger] rest[i], method, path) by {
            assert(rest[i] == endpoints[i + 1]);
        }
        lemma_answering(rest, method, path, n - 1);
        assert(rest.skip(n - 1) =~= endpoints.skip(n));
    }
}

/// The first endpoint that answers the verb on the path, and what its pattern binds.
pub fn find(endpoints: &Vec<EndpointInfo>, method: Method, path: &str) -> (r: Option<
    (usize, Vec<(String, String)>),
>)
    ensures
        ({
            let all = endpoint_views(endpoints@);
            let i = answering(all, method, path@) as int;
            match r {
                Some((k, params)) => {
                    &&& k == i < all.len()
                    &&& bound(
                        registry::segments(all[i].path),
                        registry::segments(request::base(path@)),
                    ) == Some(params.deep_view())
                },
                None => i == all.len(),
            }
        }),
{
    let ghost all = endpoint_views(endpoints@);
    let mut i: usize = 0;
    while i < endpoints.len()
        invariant
            i <= endpoints.len(),
            all == endpoint_views(endpoints@),
            forall|k: int| 0 <= k < i ==> !answers(#[trigger] all[k], method, path@),
        decreases endpoints.len() - i,
    {
        assert(all[i as int] == endpoints@[i as int]@);
        if endpoints[i].method == method {
            match bind(endpoints[i].path.as_str(), path) {
                Some(params) => {
                    proof {
                        lemma_answering(all, method, path@, i as int);
                        assert(all.skip(i as int)[0] == all[i as int]);
                    }
                    return Some((i, params));
                },
                None => {},
            }
        }
        i = i + 1;
    }
    proof {
        lemma_answering(all, method, path@, i as int);
    }
    None
}

/// The first endpoint that answers the verb on the path, and what its pattern binds, or the
/// failure that no endpoint does.
pub fn dispatch(endpoints: &Vec<EndpointInfo>, method: Method, path: &str) -> (r: Result<
    (EndpointInfo, Vec<(String, String)>),
    Failure,
>)
    ensures
        ({
            let all = endpoint_views(endpoints@);
            let i = answering(all, method, path@) as int;
            match r {
                Ok((endpoint, params)) => {
                    &&& i < all.len()
                    &&& endpoint@ == all[i]
                    &&& bound(
                        registry::segments(all[i].path),
                        registry::segments(request::base(path@)),
                    ) == Some(params.deep_view())
                },
                Err(failure) => {
                    &&& i == all.len()
                    &&& failure@ == FailureView::Message(
                        "no endpoint matches `"@ + path@ + "`"@,
                    )
                },
            }
        }),
{
    match find(endpoints, method, path) {
        Some((i, params)) => Ok((endpoints[i].at(endpoints[i].path.clone()), params)),
        None => Err(Failure::Message(text::cat3("no endpoint matches `", path, "`"))),
    }
}

/// How the list that answers on the path is walked.
pub fn strategy_at(endpoints: &Vec<EndpointInfo>, path: &str) -> (r: Option<ListStrategy>)
    ensures
        r == list_strategy(endpoint_views(endpoints@), path@),
{
    match find(endpoints, Method::List, path) {
        Some((i, _)) => endpoints[i].metadata.strategy,
        None => None,
    }
}

/// How a sink should apply the rows of the list that answers on the path.
pub fn disposition_at(endpoints: &Vec<EndpointInfo>, path: &str) -> (r: Disposition)
    ensures
        r == list_disposition(endpoint_views(endpoints@), path@),
{
    match find(endpoints, Method::List, path) {
        Some((i, _)) => endpoints[i].metadata.disposition,
        None => Disposition::Append,
    }
}

/// Whether a list that takes filters answers on the path.
pub fn queryable_at(endpoints: &Vec<EndpointInfo>, path: &str) -> (r: bool)
    ensures
        r == list_queryable(endpoint_views(endpoints@), path@),
{
    match find(endpoints, Method::List, path) {
        Some((i, _)) => endpoints[i].metadata.queryable,
        None => false,
    }
}

/// The endpoints that a provider registers.
#[derive(Debug)]
pub struct Router {
    pub endpoints: Vec<EndpointInfo>,
}

impl View for Router {
    type V = Seq<EndpointView>;

    open spec fn view(&self) -> Seq<EndpointView> {
        endpoint_views(self.endpoints@)
    }
}

impl Router {
    /// A router without endpoints.
    pub fn new() -> (r: Router)
        ensures
            r@ == Seq::<EndpointView>::empty(),
    {
        let endpoints: Vec<EndpointInfo> = Vec::new();
        assert(endpoint_views(endpoints@) =~= Seq::<EndpointView>::empty());
        Router { endpoints }
    }

    /// Registers an endpoint.
    pub fn add(&mut self, endpoint: EndpointInfo)
        ensures
            final(self)@ == old(self)@.push(endpoint@),
    {
        let ghost before = self@;
        self.endpoints.push(endpoint);
        assert(self@ =~= before.push(endpoint@));
    }
}

// === Laws ===

/// Whether a segment of a pattern stands for any segment.
pub open spec fn is_param(segment: Seq<char>) -> bool {
    segment.len() > 0 && segment[0] == ':'
}

/// The params of a path are its segments behind a colon, in order and without it.
pub proof fn params_stand_behind_colons(segments: Seq<Seq<char>>)
    ensures
        param_names(segments) == segments.filter(|s: Seq<char>| is_param(s)).map_values(
            |s: Seq<char>| s.skip(1),
        ),
    decreases segments.len(),
{
    reveal(Seq::filter);
    let wanted = |s: Seq<char>| is_param(s);
    let name = |s: Seq<char>| s.skip(1);
    if segments.len() == 0 {
        assert(segments.filter(wanted).map_values(name) =~= Seq::empty());
    } else {
        let fewer = segments.drop_last();
        params_stand_behind_colons(fewer);
        let before = fewer.filter(wanted);
        if wanted(segments.last()) {
            assert(segments.filter(wanted).map_values(name) =~= before.map_values(name).push(
                name(segments.last()),
            ));
        }
    }
}

/// A path is of a pattern where it has as many segments and each is that of the pattern, unless
/// the pattern has a param there. It then binds each param to the segment in its place, in order.
pub proof fn patterns_bind_segment_by_segment(pattern: Seq<Seq<char>>, parts: Seq<Seq<char>>)
    ensures
        bound(pattern, parts) is Some <==> pattern.len() == parts.len() && forall|i: int|
            0 <= i < pattern.len() ==> is_param(#[trigger] pattern[i]) || pattern[i] == parts[i],
        bound(pattern, parts) is Some ==> bound(pattern, parts)->0 == Seq::new(
            pattern.len(),
            |i: int| (pattern[i], parts[i]),
        ).filter(|pair: (Seq<char>, Seq<char>)| is_param(pair.0)).map_values(
            |pair: (Seq<char>, Seq<char>)| (pair.0.skip(1), pair.1),
        ),
    decreases pattern.len(),
{
    reveal(Seq::filter);
    let wanted = |pair: (Seq<char>, Seq<char>)| is_param(pair.0);
    let named = |pair: (Seq<char>, Seq<char>)| (pair.0.skip(1), pair.1);
    let pairs = Seq::new(pattern.len(), |i: int| (pattern[i], parts[i]));
    if pattern.len() == parts.len() {
        if pattern.len() == 0 {
            assert(pairs.filter(wanted).map_values(named) =~= Seq::empty());
        } else {
            let fewer = pattern.drop_last();
            let given = parts.drop_last();
            patterns_bind_segment_by_segment(fewer, given);
            let before = Seq::new(fewer.len(), |i: int| (fewer[i], given[i]));
            assert(pairs.drop_last() =~= before);
            let n = pattern.len() - 1;
            if forall|i: int|
                0 <= i < pattern.len() ==> is_param(#[trigger] pattern[i]) || pattern[i]
                    == parts[i] {
                assert forall|i: int| 0 <= i < fewer.len() implies is_param(#[trigger] fewer[i])
                    || fewer[i] == given[i] by {
                    assert(is_param(pattern[i]) || pattern[i] == parts[i]);
                }
                assert(is_param(pattern[n]) || pattern[n] == parts[n]);
            }
            if bound(pattern, parts) is Some {
                assert forall|i: int| 0 <= i < pattern.len() implies is_param(
                    #[trigger] pattern[i],
                ) || pattern[i] == parts[i] by {
                    if i < fewer.len() {
                        assert(is_param(fewer[i]) || fewer[i] == given[i]);
                    }
                }
                if wanted(pairs.last()) {
                    assert(pairs.filter(wanted).map_values(named) =~= before.filter(
                        wanted,
                    ).map_values(named).push(named(pairs.last())));
                }
            }
        }
    }
}

/// The endpoint that answers is the first of its verb whose pattern the path is of, whatever the
/// query of the path.
pub proof fn the_first_matching_endpoint_answers(
    endpoints: Seq<EndpointView>,
    method: Method,
    path: Seq<char>,
)
    ensures
        ({
            let i = answering(endpoints, method, path) as int;
            let matches = |e: EndpointView|
                e.method == method && bound(
                    registry::segments(e.path),
                    registry::segments(request::base(path)),
                ) is Some;
            &&& i <= endpoints.len()
            &&& i < endpoints.len() ==> matches(endpoints[i])
            &&& forall|k: int| 0 <= k < i ==> !matches(#[trigger] endpoints[k])
        }),
    decreases endpoints.len(),
{
    if endpoints.len() > 0 && !answers(endpoints[0], method, path) {
        let rest = endpoints.drop_first();
        the_first_matching_endpoint_answers(rest, method, path);
        let i = answering(endpoints, method, path) as int;
        assert forall|k: int| 0 <= k < i implies !answers(
            #[trigger] endpoints[k],
            method,
            path,
        ) by {
            if k > 0 {
                assert(endpoints[k] == rest[k - 1]);
                assert(!answers(rest[k - 1], method, path));
            }
        }
    }
}

/// What is declared of a list counts where it is the first list that the path is of; where none
/// is, the path is not walked, its rows are appended, and it takes no filters.
pub proof fn lists_are_known_by_their_path(
    endpoints: Seq<EndpointView>,
    path: Seq<char>,
    i: int,
)
    ensures
        0 <= i < endpoints.len() && answers(endpoints[i], Method::List, path) && (forall|k: int|
            0 <= k < i ==> !answers(#[trigger] endpoints[k], Method::List, path)) ==> {
            &&& list_strategy(endpoints, path) == endpoints[i].metadata.strategy
            &&& list_disposition(endpoints, path) == endpoints[i].metadata.disposition
            &&& list_queryable(endpoints, path) == endpoints[i].metadata.queryable
        },
        (forall|k: int|
            0 <= k < endpoints.len() ==> !answers(#[trigger] endpoints[k], Method::List, path))
            ==> {
            &&& list_strategy(endpoints, path) is None
            &&& list_disposition(endpoints, path) == Disposition::Append
            &&& !list_queryable(endpoints, path)
        },
{
    if 0 <= i < endpoints.len() && answers(endpoints[i], Method::List, path) && (forall|k: int|
        0 <= k < i ==> !answers(#[trigger] endpoints[k], Method::List, path)) {
        lemma_answering(endpoints, Method::List, path, i);
        assert(endpoints.skip(i)[0] == endpoints[i]);
    }
    if forall|k: int|
        0 <= k < endpoints.len() ==> !answers(#[trigger] endpoints[k], Method::List, path) {
        lemma_answering(endpoints, Method::List, path, endpoints.len() as int);
    }
}

/// An endpoint has its verb and its path; nothing else is declared of it at first. A list that is
/// walked by offset is a list of which that is declared.
pub proof fn nothing_is_declared_of_a_bare_endpoint(method: Method, path: Seq<char>)
    ensures
        ({
            let e = bare(method, path);
            &&& e.method == method && e.path == path
            &&& e.params == text::split_at(path, '/').filter(
                |s: Seq<char>| is_param(s),
            ).map_values(|s: Seq<char>| s.skip(1))
            &&& e.body is None && e.response.len() == 0
            &&& e.metadata.strategy is None && e.metadata.description is None
            &&& e.metadata.disposition == Disposition::Append && !e.metadata.queryable
        }),
        ({
            let e = offset_list(path);
            &&& e.method == Method::List && e.path == path
            &&& e.params == bare(Method::List, path).params
            &&& e.body is None && e.response.len() == 0
            &&& e.metadata.strategy == Some(ListStrategy::Offset)
            &&& e.metadata.description is None
            &&& e.metadata.disposition == Disposition::Append && !e.metadata.queryable
        }),
{
    params_stand_behind_colons(text::split_at(path, '/'));
}

} // verus!
