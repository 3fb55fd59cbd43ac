//! The endpoints as flights of Arrow Flight.
//!
//! A flight is named by a descriptor `[provider, "/endpoint/path"]`, or by the same two with
//! a line feed between them. A ticket is the latter. What a descriptor or a ticket names,
//! and which status refuses it, is decided here.

use vstd::prelude::*;
use vstd::string::*;

use crate::json;
use crate::page::{self, Cursor};
use crate::provider::ProviderObject;
use crate::record::{self, ArrowFieldView, ArrowSchema};
use crate::registry::{self, Registry};
use crate::router::{self, EndpointInfo, EndpointView};
use crate::schema::Schema;
use crate::text;

verus! {

/// The codes of a status.
#[derive(Debug, Clone, Copy, PartialEq, Eq, Structural)]
pub enum Code {
    InvalidArgument,
    NotFound,
    Internal,
    Unimplemented,
}

/// Why a call was refused.
#[derive(Debug)]
pub struct Status {
    pub code: Code,
    pub message: String,
}

/// The model of a [`Status`].
pub struct StatusView {
    pub code: Code,
    pub message: Seq<char>,
}

impl View for Status {
    type V = StatusView;

    open spec fn view(&self) -> StatusView {
        StatusView { code: self.code, message: self.message@ }
    }
}

impl Status {
    /// The call makes no sense.
    pub fn invalid_argument(message: String) -> (r: Status)
        ensures
            r@ == (StatusView { code: Code::InvalidArgument, message: message@ }),
    {
        Status { code: Code::InvalidArgument, message }
    }

    /// Something is not there.
    pub fn not_found(message: String) -> (r: Status)
        ensures
            r@ == (StatusView { code: Code::NotFound, message: message@ }),
    {
        Status { code: Code::NotFound, message }
    }

    /// Something failed.
    pub fn internal(message: String) -> (r: Status)
        ensures
            r@ == (StatusView { code: Code::Internal, message: message@ }),
    {
        Status { code: Code::Internal, message }
    }

    /// The call is not supported.
    pub fn unimplemented(call: &str) -> (r: Status)
        ensures
            r@ == (StatusView { code: Code::Unimplemented, message: call@ + " is not supported"@ }),
    {
        Status { code: Code::Unimplemented, message: text::cat2(call, " is not supported") }
    }
}

/// What a flight is: a provider, by its mount, and an endpoint path.
#[derive(Debug)]
pub struct Target {
    pub provider: String,
    pub path: String,
}

/// The model of a [`Target`].
pub struct TargetView {
    pub provider: Seq<char>,
    pub path: Seq<char>,
}

impl View for Target {
    type V = TargetView;

    open spec fn view(&self) -> TargetView {
        TargetView { provider: self.provider@, path: self.path@ }
    }
}

/// A descriptor of a flight.
#[derive(Debug)]
pub enum Descriptor {
    Path(Vec<String>),
    Cmd(Vec<u8>),
    /// Any other descriptor.
    Other,
}

/// Whether `r` is `expected`.
pub open spec fn replies<T: View>(r: Result<T, Status>, expected: Result<T::V, StatusView>) -> bool {
    match r {
        Ok(value) => expected is Ok && value@ == expected->Ok_0,
        Err(status) => expected is Err && status@ == expected->Err_0,
    }
}

/// The status that refuses an argument.
pub open spec fn refused(message: Seq<char>) -> StatusView {
    StatusView { code: Code::InvalidArgument, message }
}

// === Bytes as text ===

/// The text of the bytes as UTF-8, with replacement characters for what is none.
pub uninterp spec fn lossy_text(bytes: Seq<u8>) -> Seq<char>;

/// `String::from_utf8_lossy` reads bytes as UTF-8. Bytes that are valid UTF-8 are read as
/// the text that they encode; others are replaced, in a way that depends on the bytes alone.
#[verifier::external_body]
fn utf8_lossy(bytes: &Vec<u8>) -> (r: String)
    ensures
        r@ == lossy_text(bytes@),
        vstd::utf8::valid_utf8(bytes@) ==> r@ == vstd::utf8::decode_utf8(bytes@),
{
    String::from_utf8_lossy(bytes).into_owned()
}

/// The text that bytes are read as: what they encode where they are valid UTF-8, else what
/// the standard library makes of them.
pub open spec fn read_text(bytes: Seq<u8>) -> Seq<char> {
    if vstd::utf8::valid_utf8(bytes) {
        vstd::utf8::decode_utf8(bytes)
    } else {
        lossy_text(bytes)
    }
}

/// The text that bytes are read as.
fn text_of(bytes: &Vec<u8>) -> (r: String)
    ensures
        r@ == read_text(bytes@),
{
    utf8_lossy(bytes)
}

// === Descriptors ===

/// What the parts of a descriptor name: the first part the provider, the others the path,
/// with a slash ahead of it.
pub open spec fn parts_target(parts: Seq<Seq<char>>) -> Result<TargetView, StatusView> {
    if parts.len() < 2 {
        Err(refused("descriptor path must be [provider, /endpoint/path]"@))
    } else {
        let joined = text::joined(parts.drop_first(), "/"@);
        Ok(
            TargetView {
                provider: parts[0],
                path: if joined.len() > 0 && joined[0] == '/' {
                    joined
                } else {
                    "/"@ + joined
                },
            },
        )
    }
}

/// The parts of a text at its first line feed.
pub open spec fn line_parts(text: Seq<char>) -> Seq<Seq<char>> {
    match text::split_once_at(text, '\n') {
        Some((head, rest)) => seq![head, rest],
        None => seq![text],
    }
}

/// What a descriptor names.
pub open spec fn described_target(descriptor: Descriptor) -> Result<TargetView, StatusView> {
    match descriptor {
        Descriptor::Path(parts) => parts_target(parts.deep_view()),
        Descriptor::Cmd(bytes) => parts_target(line_parts(read_text(bytes@))),
        Descriptor::Other => Err(refused("unsupported descriptor type"@)),
    }
}

/// What the parts of a descriptor name.
fn target_from_path(parts: &Vec<String>) -> (r: Result<Target, Status>)
    ensures
        replies(r, parts_target(parts.deep_view())),
{
    if parts.len() < 2 {
        return Err(
            Status::invalid_argument(
                "descriptor path must be [provider, /endpoint/path]".to_string(),
            ),
        );
    }
    let ghost all = parts.deep_view();
    let mut rest: Vec<String> = Vec::new();
    let mut i: usize = 1;
    while i < parts.len()
        invariant
            1 <= i <= parts.len(),
            all == parts.deep_view(),
            rest.deep_view() == all.subrange(1, i as int),
        decreases parts.len() - i,
    {
        let ghost before = rest.deep_view();
        let part = parts[i].clone();
        rest.push(part);
        assert(rest.deep_view() =~= before.push(part@));
        assert(rest.deep_view() =~= all.subrange(1, i + 1));
        i = i + 1;
    }
    assert(rest.deep_view() =~= all.drop_first());
    let joined = text::join(&rest, "/");
    let chars = text::chars(joined.as_str());
    let path = if chars.len() > 0 && chars[0] == '/' {
        joined
    } else {
        text::cat2("/", joined.as_str())
    };
    assert(all[0] == parts@[0]@);
    Ok(Target { provider: parts[0].clone(), path })
}

/// What a descriptor names.
pub fn descriptor_target(descriptor: &Descriptor) -> (r: Result<Target, Status>)
    ensures
        replies(r, described_target(*descriptor)),
{
    match descriptor {
        Descriptor::Path(parts) => target_from_path(parts),
        Descriptor::Cmd(bytes) => {
            let cmd = text_of(bytes);
            let parts = match text::split_once(cmd.as_str(), '\n') {
                Some((head, rest)) => {
                    let parts = vec![head, rest];
                    assert(parts.deep_view() =~= line_parts(cmd@));
                    parts
                },
                None => {
                    let parts = vec![cmd.clone()];
                    assert(parts.deep_view() =~= line_parts(cmd@));
                    parts
                },
            };
            target_from_path(&parts)
        },
        Descriptor::Other => Err(
            Status::invalid_argument("unsupported descriptor type".to_string()),
        ),
    }
}

// === Tickets ===

/// The text of a ticket.
pub open spec fn ticket_text(target: TargetView) -> Seq<char> {
    target.provider + "\n"@ + target.path
}

/// What the text of a ticket names.
pub open spec fn text_target(raw: Seq<char>) -> Result<TargetView, StatusView> {
    match text::split_once_at(raw, '\n') {
        Some((provider, path)) => Ok(TargetView { provider, path }),
        None => Err(refused("ticket must be `provider\\n/path`"@)),
    }
}

/// The ticket of a flight, as bytes.
pub fn make_ticket(target: &Target) -> (r: Vec<u8>)
    ensures
        r@ == vstd::utf8::encode_utf8(ticket_text(target@)),
{
    let text = text::cat3(target.provider.as_str(), "\n", target.path.as_str());
    text.as_str().as_bytes_vec()
}

/// What a ticket names.
pub fn ticket_target(ticket: &Vec<u8>) -> (r: Result<Target, Status>)
    ensures
        replies(r, text_target(read_text(ticket@))),
{
    let raw = text_of(ticket);
    match text::split_once(raw.as_str(), '\n') {
        Some((provider, path)) => Ok(Target { provider, path }),
        None => Err(Status::invalid_argument("ticket must be `provider\\n/path`".to_string())),
    }
}

/// A ticket names the flight that it was made for: its bytes are read as the text that they
/// were made of, which is parted into the provider and the path, for every mount without a
/// line feed.
pub proof fn tickets_read_back(target: TargetView)
    requires
        !target.provider.contains('\n'),
    ensures
        ({
            let bytes = vstd::utf8::encode_utf8(ticket_text(target));
            text_target(read_text(bytes)) == Ok::<TargetView, StatusView>(target)
        }),
{
    broadcast use vstd::utf8::encode_utf8_valid_utf8, vstd::utf8::encode_utf8_decode_utf8;

    reveal_strlit("\n");
    let raw = ticket_text(target);
    let n = target.provider.len() as int;
    assert(raw[n] == '\n');
    assert forall|i: int| 0 <= i < n implies raw[i] != '\n' by {
        assert(raw[i] == target.provider[i]);
        assert(target.provider.contains(target.provider[i]));
    }
    text::lemma_find_is(raw, '\n', n);
    assert(raw.take(n) =~= target.provider);
    assert(raw.skip(n + 1) =~= target.path);
}

/// A command names the flight whose ticket has its bytes, where the path is absolute.
pub proof fn commands_read_back(target: TargetView)
    requires
        !target.provider.contains('\n'),
        target.path.len() > 0,
        target.path[0] == '/',
    ensures
        parts_target(
            line_parts(read_text(vstd::utf8::encode_utf8(ticket_text(target)))),
        ) == Ok::<TargetView, StatusView>(target),
{
    let bytes = vstd::utf8::encode_utf8(ticket_text(target));
    tickets_read_back(target);
    let parts = line_parts(read_text(bytes));
    assert(parts =~= seq![target.provider, target.path]);
    assert(parts.drop_first() =~= seq![target.path]);
    assert(text::joined(parts.drop_first(), "/"@) =~= target.path) by {
        reveal_with_fuel(text::joined, 2);
    }
}

// === Calls ===

/// The provider of a flight, or the status that says that nothing is mounted there.
pub fn provider_of<'a, P>(registry: &'a Registry<P>, provider: &str) -> (r: Result<&'a P, Status>)
    requires
        registry.wf(),
    ensures
        match r {
            Ok(found) => registry@.contains_key(provider@) && *found == registry@[provider@],
            Err(status) => {
                &&& !registry@.contains_key(provider@)
                &&& exists|names: Seq<Seq<char>>|
                    {
                        &&& #[trigger] registry::is_listing(names, registry@.dom())
                        &&& status@ == (StatusView {
                            code: Code::NotFound,
                            message: registry::nothing_mounted(provider@, names),
                        })
                    }
            },
        },
{
    match registry.get(provider) {
        Ok(found) => Ok(found),
        Err(failure) => Err(Status::not_found(failure.text())),
    }
}

/// Whether `r` is the provider that `target` names, and the path within it; or the status
/// that refuses the target, or says that nothing is mounted there.
pub open spec fn locates<P>(
    r: Result<(&P, String), Status>,
    mounted: Map<Seq<char>, P>,
    target: Result<TargetView, StatusView>,
) -> bool {
    match r {
        Ok((provider, path)) => {
            &&& target is Ok
            &&& mounted.contains_key(target->Ok_0.provider)
            &&& *provider == mounted[target->Ok_0.provider]
            &&& path@ == target->Ok_0.path
        },
        Err(status) => if target is Err {
            status@ == target->Err_0
        } else {
            &&& !mounted.contains_key(target->Ok_0.provider)
            &&& exists|names: Seq<Seq<char>>|
                {
                    &&& #[trigger] registry::is_listing(names, mounted.dom())
                    &&& status@ == (StatusView {
                        code: Code::NotFound,
                        message: registry::nothing_mounted(target->Ok_0.provider, names),
                    })
                }
        },
    }
}

/// The provider that a target names, and the path within it.
fn locate<P>(registry: &Registry<P>, target: Result<Target, Status>) -> (r: Result<
    (&P, String),
    Status,
>)
    requires
        registry.wf(),
    ensures
        locates(
            r,
            registry@,
            match target {
                Ok(target) => Ok(target@),
                Err(status) => Err(status@),
            },
        ),
{
    match target {
        Ok(target) => match provider_of(registry, target.provider.as_str()) {
            Ok(provider) => Ok((provider, target.path)),
            Err(status) => Err(status),
        },
        Err(status) => Err(status),
    }
}

/// What a descriptor names: the provider whose endpoint it describes, and the path within it.
pub fn described<'a, P>(registry: &'a Registry<P>, descriptor: &Descriptor) -> (r: Result<
    (&'a P, String),
    Status,
>)
    requires
        registry.wf(),
    ensures
        locates(r, registry@, described_target(*descriptor)),
{
    locate(registry, descriptor_target(descriptor))
}

/// What a read asks: the provider that its ticket names, and the path within it.
pub fn do_get<'a, P>(registry: &'a Registry<P>, ticket: &Vec<u8>) -> (r: Result<
    (&'a P, String),
    Status,
>)
    requires
        registry.wf(),
    ensures
        locates(r, registry@, text_target(read_text(ticket@))),
{
    locate(registry, ticket_target(ticket))
}

/// What a put asks: the provider that its first message names, and the path within it.
pub fn do_put<P>(registry: &Registry<P>, first: Option<Option<Descriptor>>) -> (r: Result<
    (&P, String),
    Status,
>)
    requires
        registry.wf(),
    ensures
        locates(r, registry@, first_target(first)),
{
    locate(registry, put_target(first))
}

/// What the first message of a put names, or the status that refuses a stream without a
/// message or without a descriptor.
pub open spec fn first_target(first: Option<Option<Descriptor>>) -> Result<TargetView, StatusView> {
    match first {
        None => Err(refused("DoPut stream was empty"@)),
        Some(None) => Err(refused("DoPut stream carried no FlightDescriptor"@)),
        Some(Some(descriptor)) => described_target(descriptor),
    }
}

/// What the first message of a put names. A stream without a message, or whose first message
/// has no descriptor, is refused.
pub fn put_target(first: Option<Option<Descriptor>>) -> (r: Result<Target, Status>)
    ensures
        replies(r, first_target(first)),
{
    match first {
        None => Err(Status::invalid_argument("DoPut stream was empty".to_string())),
        Some(None) => Err(
            Status::invalid_argument("DoPut stream carried no FlightDescriptor".to_string()),
        ),
        Some(Some(descriptor)) => descriptor_target(&descriptor),
    }
}

/// The schema of the rows of a put, once its stream has told it. A stream that tells none is
/// refused.
pub fn put_schema(told: Option<&ArrowSchema>) -> (r: Result<Schema, Status>)
    ensures
        replies(
            r,
            match told {
                Some(schema) => Ok(record::from_arrow_fields(schema@)),
                None => Err(refused("DoPut stream carried no schema"@)),
            },
        ),
{
    match told {
        Some(schema) => Ok(record::arrow_schema_to_strata(schema)),
        None => Err(Status::invalid_argument("DoPut stream carried no schema".to_string())),
    }
}

/// The metadata behind a chunk of a read: its cursor as JSON text, where it has one.
pub fn chunk_trailer(cursor: Option<&Cursor>) -> (r: Option<String>)
    ensures
        r.deep_view() == match cursor {
            Some(cursor) => Some(json::json_rendered(page::cursor_json(cursor@))),
            None => None,
        },
{
    match cursor {
        Some(cursor) => Some(json::render(&cursor.to_json())),
        None => None,
    }
}

/// A flight that is advertised: the parts of its descriptor, and the columns of its rows.
#[derive(Debug)]
pub struct Flight {
    pub provider: String,
    pub path: String,
    pub schema: ArrowSchema,
}

/// The model of a [`Flight`].
pub struct FlightView {
    pub provider: Seq<char>,
    pub path: Seq<char>,
    pub schema: Seq<ArrowFieldView>,
}

impl View for Flight {
    type V = FlightView;

    open spec fn view(&self) -> FlightView {
        FlightView { provider: self.provider@, path: self.path@, schema: self.schema@ }
    }
}

/// The models of a list of flights.
pub open spec fn flight_views(flights: Seq<Flight>) -> Seq<FlightView> {
    flights.map_values(|flight: Flight| flight@)
}

/// The flight of an endpoint.
pub open spec fn flight_of(mount: Seq<char>, endpoint: EndpointView) -> FlightView {
    FlightView {
        provider: mount,
        path: endpoint.path,
        schema: record::to_arrow_fields(endpoint.response),
    }
}

/// The flights of a provider: one for each of its endpoints.
pub fn flights_of(mount: &str, endpoints: &Vec<EndpointInfo>) -> (r: Vec<Flight>)
    ensures
        flight_views(r@) == router::endpoint_views(endpoints@).map_values(
            |endpoint: EndpointView| flight_of(mount@, endpoint),
        ),
{
    let ghost model = router::endpoint_views(endpoints@).map_values(
        |endpoint: EndpointView| flight_of(mount@, endpoint),
    );
    let mut flights: Vec<Flight> = Vec::new();
    let mut i: usize = 0;
    while i < endpoints.len()
        invariant
            i <= endpoints.len(),
            model == router::endpoint_views(endpoints@).map_values(
                |endpoint: EndpointView| flight_of(mount@, endpoint),
            ),
            flight_views(flights@) == model.take(i as int),
        decreases endpoints.len() - i,
    {
        let ghost before = flight_views(flights@);
        assert(router::endpoint_views(endpoints@)[i as int] == endpoints@[i as int]@);
        let flight = Flight {
            provider: mount.to_string(),
            path: endpoints[i].path.clone(),
            schema: record::strata_schema_to_arrow_schema(&endpoints[i].response),
        };
        flights.push(flight);
        assert(flight_views(flights@) =~= before.push(flight@));
        assert(flight_views(flights@) =~= model.take(i + 1));
        i = i + 1;
    }
    assert(flight_views(flights@) =~= model);
    flights
}

/// The flights of the providers at the mounts, one mount after the other.
pub open spec fn mounted_flights<P: ProviderObject>(
    mounted: Map<Seq<char>, P>,
    names: Seq<Seq<char>>,
) -> Seq<FlightView>
    decreases names.len(),
{
    if names.len() == 0 {
        Seq::empty()
    } else {
        let mount = names.last();
        mounted_flights(mounted, names.drop_last()) + mounted[mount].endpoint_models().map_values(
            |endpoint: EndpointView| flight_of(mount, endpoint),
        )
    }
}

/// The flights of everything that is mounted.
pub fn list_flights<P: ProviderObject>(registry: &Registry<P>) -> (r: Vec<Flight>)
    requires
        registry.wf(),
    ensures
        exists|names: Seq<Seq<char>>|
            {
                &&& #[trigger] registry::is_listing(names, registry@.dom())
                &&& flight_views(r@) == mounted_flights(registry@, names)
            },
{
    let names = registry.names();
    let ghost listing = names.deep_view();
    let mut all: Vec<Flight> = Vec::new();
    let mut i: usize = 0;
    assert(listing.take(0) =~= Seq::empty());
    assert(flight_views(all@) =~= Seq::empty());
    while i < names.len()
        invariant
            i <= names.len(),
            registry.wf(),
            listing == names.deep_view(),
            registry::is_listing(listing, registry@.dom()),
            flight_views(all@) == mounted_flights(registry@, listing.take(i as int)),
        decreases names.len() - i,
    {
        let ghost before = flight_views(all@);
        assert(listing[i as int] == names@[i as int]@);
        assert(listing.take(i + 1).drop_last() =~= listing.take(i as int));
        assert(listing.to_set().contains(listing[i as int]));
        match registry.get(names[i].as_str()) {
            Ok(provider) => {
                let endpoints = provider.endpoints();
                let mut flights = flights_of(names[i].as_str(), &endpoints);
                let ghost added = flight_views(flights@);
                all.append(&mut flights);
                assert(flight_views(all@) =~= before + added);
                let ghost mount = names@[i as int]@;
                assert(added =~= provider.endpoint_models().map_values(
                    |endpoint: EndpointView| flight_of(mount, endpoint),
                ));
            },
            Err(_) => {},
        }
        i = i + 1;
    }
    assert(listing.take(i as int) =~= listing);
    all
}


// === Laws of descriptors ===

/// The first part of a descriptor is the provider, and the others, between slashes, are the path,
/// which is absolute: a single part that is absolute is the path itself, and parts without
/// slashes are the segments of it. Fewer than two parts are refused.
pub proof fn descriptors_name_a_provider_and_a_path(parts: Seq<Seq<char>>)
    ensures
        parts_target(parts) is Ok <==> parts.len() >= 2,
        parts_target(parts) is Err ==> parts_target(parts)->Err_0.code == Code::InvalidArgument
            && parts_target(parts)->Err_0.message
            == "descriptor path must be [provider, /endpoint/path]"@,
        parts.len() >= 2 ==> {
            let target = parts_target(parts)->Ok_0;
            &&& target.provider == parts[0]
            &&& target.path.len() > 0
            &&& target.path[0] == '/'
            &&& parts[1].len() > 0 && parts[1][0] == '/' ==> target.path == text::joined(
                parts.drop_first(),
                seq!['/'],
            )
            &&& parts[1].len() > 0 && parts[1][0] != '/' ==> target.path == seq!['/']
                + text::joined(parts.drop_first(), seq!['/'])
            &&& parts.len() == 2 && parts[1].len() > 0 && parts[1][0] == '/' ==> target.path
                == parts[1]
            &&& parts.len() == 2 && !(parts[1].len() > 0 && parts[1][0] == '/') ==> target.path
                == seq!['/'] + parts[1]
            &&& parts[1].len() > 0 && (forall|i: int|
                0 < i < parts.len() ==> !(#[trigger] parts[i]).contains('/')) ==> text::split_at(
                target.path.skip(1),
                '/',
            ) == parts.drop_first()
        },
{
    reveal_strlit("/");
    assert("/"@ =~= seq!['/']);
    if parts.len() >= 2 {
        let rest = parts.drop_first();
        let joined = text::joined(rest, "/"@);
        let target = parts_target(parts)->Ok_0;
        if parts.len() == 2 {
            reveal_with_fuel(text::joined, 2);
            assert(rest =~= seq![parts[1]]);
            assert(joined =~= parts[1]);
        } else {
            text::lemma_joined_front(rest, "/"@);
            assert(parts[1].len() > 0 ==> joined[0] == parts[1][0]);
        }
        if parts[1].len() > 0 && (forall|i: int|
            0 < i < parts.len() ==> !(#[trigger] parts[i]).contains('/')) {
            assert(!parts[1].contains('/'));
            assert(joined[0] == parts[1][0]);
            assert(parts[1].contains(parts[1][0]));
            assert(target.path.skip(1) =~= joined);
            assert forall|i: int| 0 <= i < rest.len() implies !(#[trigger] rest[i]).contains(
                '/',
            ) by {
                assert(rest[i] == parts[i + 1]);
            }
            text::joined_parts_split_back(rest, '/');
        }
    }
}

/// A command has the provider ahead of its first line feed and the path behind it; a ticket too.
/// One without a line feed is refused.
pub proof fn line_feeds_part_provider_and_path(head: Seq<char>, rest: Seq<char>)
    requires
        !head.contains('\n'),
    ensures
        line_parts(head + seq!['\n'] + rest) == seq![head, rest],
        line_parts(head) == seq![head],
        text_target(head + seq!['\n'] + rest) == Ok::<TargetView, StatusView>(
            TargetView { provider: head, path: rest },
        ),
        text_target(head) is Err,
        text_target(head)->Err_0.code == Code::InvalidArgument,
{
    let whole = head + seq!['\n'] + rest;
    let n = head.len() as int;
    assert(whole[n] == '\n');
    assert forall|i: int| 0 <= i < n implies whole[i] != '\n' by {
        assert(whole[i] == head[i]);
        assert(head.contains(head[i]));
    }
    text::lemma_find_is(whole, '\n', n);
    assert(whole.take(n) =~= head);
    assert(whole.skip(n + 1) =~= rest);
    text::texts_split_at_the_first(head, '\n');
    match text::split_once_at(head, '\n') {
        Some((before, behind)) => {
            assert(head[before.len() as int] == '\n');
            assert(head.contains('\n'));
        },
        None => {},
    }
}

/// A descriptor of parts is read by its parts and one of bytes by its text; any other, and a put
/// without a message or without a descriptor, is refused as an argument, each in its own words.
pub proof fn other_descriptors_are_refused(parts: Vec<String>, bytes: Vec<u8>)
    ensures
        described_target(Descriptor::Path(parts)) == parts_target(parts.deep_view()),
        described_target(Descriptor::Cmd(bytes)) == parts_target(line_parts(read_text(bytes@))),
        first_target(Some(Some(Descriptor::Path(parts)))) == parts_target(parts.deep_view()),
        first_target(Some(Some(Descriptor::Cmd(bytes)))) == parts_target(
            line_parts(read_text(bytes@)),
        ),
        described_target(Descriptor::Other) == Err::<TargetView, StatusView>(
            StatusView {
                code: Code::InvalidArgument,
                message: "unsupported descriptor type"@,
            },
        ),
        first_target(None) == Err::<TargetView, StatusView>(
            StatusView { code: Code::InvalidArgument, message: "DoPut stream was empty"@ },
        ),
        first_target(Some(None)) == Err::<TargetView, StatusView>(
            StatusView {
                code: Code::InvalidArgument,
                message: "DoPut stream carried no FlightDescriptor"@,
            },
        ),
{
}

/// A flight is advertised for each endpoint of each mount, in the order of the mounts and of
/// their endpoints.
pub proof fn every_endpoint_is_a_flight<P: ProviderObject>(
    mounted: Map<Seq<char>, P>,
    names: Seq<Seq<char>>,
)
    ensures
        mounted_flights(mounted, names) == names.map_values(
            |mount: Seq<char>|
                mounted[mount].endpoint_models().map_values(
                    |endpoint: EndpointView| flight_of(mount, endpoint),
                ),
        ).flatten(),
    decreases names.len(),
{
    let each = |mount: Seq<char>|
        mounted[mount].endpoint_models().map_values(
            |endpoint: EndpointView| flight_of(mount, endpoint),
        );
    if names.len() > 0 {
        every_endpoint_is_a_flight(mounted, names.drop_last());
        let before = names.drop_last().map_values(each);
        before.lemma_flatten_push(each(names.last()));
        assert(names.map_values(each) =~= before.push(each(names.last())));
    } else {
        assert(names.map_values(each) =~= Seq::empty());
    }
}

/// A flight names its mount and the path of its endpoint, and has the columns of its rows.
pub proof fn flights_name_their_endpoint(mount: Seq<char>, endpoint: EndpointView, i: int)
    ensures
        ({
            let flight = flight_of(mount, endpoint);
            &&& flight.provider == mount
            &&& flight.path == endpoint.path
            &&& flight.schema.len() == endpoint.response.len()
            &&& 0 <= i < endpoint.response.len() ==> flight.schema[i].name
                == endpoint.response[i].name
        }),
{
}


/// A flight that is named and mounted is located at its provider and its path; one that is not
/// mounted is not found; and what names none is refused as it was.
pub proof fn named_flights_are_located<P>(
    r: Result<(&P, String), Status>,
    mounted: Map<Seq<char>, P>,
    target: Result<TargetView, StatusView>,
)
    requires
        locates(r, mounted, target),
    ensures
        r is Ok <==> target is Ok && mounted.contains_key(target->Ok_0.provider),
        r is Ok ==> *(r->Ok_0).0 == mounted[target->Ok_0.provider] && (r->Ok_0).1@
            == target->Ok_0.path,
        target is Err ==> r is Err && r->Err_0@ == target->Err_0,
        target is Ok && !mounted.contains_key(target->Ok_0.provider) ==> r is Err
            && r->Err_0@.code == Code::NotFound,
{
}

} // verus!
