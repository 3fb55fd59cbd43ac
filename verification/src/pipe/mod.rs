//! Pipes: a source endpoint, written into a destination endpoint, again and again.
//!
//! One pass over a pipe is a machine: it says what to do next, and is told how that went.
//! The driver performs each action and hands back the event.

use vstd::prelude::*;
use vstd::string::*;

use crate::dataset::{self, Disposition};
use crate::error::{Failure, FailureView};
use crate::page::ListStrategy;
use crate::registry::{self, Registry};
use crate::request::{self, ReadRequest, WriteRequest};
use crate::text;

pub mod store;
pub mod sync;

use sync::{BatchPage, Progress, ProgressView};

verus! {

/// How long to wait between two passes, in seconds.
pub const POLL_INTERVAL: u64 = 5;

/// An endpoint of a mounted provider.
#[derive(Debug)]
pub struct Endpoint {
    pub mount: String,
    pub path: String,
}

/// The model of an [`Endpoint`].
pub struct EndpointView {
    pub mount: Seq<char>,
    pub path: Seq<char>,
}

impl View for Endpoint {
    type V = EndpointView;

    open spec fn view(&self) -> EndpointView {
        EndpointView { mount: self.mount@, path: self.path@ }
    }
}

impl Endpoint {
    /// The endpoint at `path` under `mount`.
    pub fn new(mount: &str, path: &str) -> (r: Endpoint)
        ensures
            r@ == (EndpointView { mount: mount@, path: path@ }),
    {
        Endpoint { mount: mount.to_string(), path: path.to_string() }
    }
}

impl Clone for Endpoint {
    fn clone(&self) -> (r: Self)
        ensures
            r@ == self@,
    {
        Endpoint { mount: self.mount.clone(), path: self.path.clone() }
    }
}

/// A pipe, and where its next pass resumes.
#[derive(Debug)]
pub struct Pipe {
    pub id: u128,
    pub source: Endpoint,
    pub destination: Endpoint,
    pub cursor: Option<String>,
}

/// The model of a [`Pipe`].
pub struct PipeView {
    pub id: u128,
    pub source: EndpointView,
    pub destination: EndpointView,
    pub cursor: Option<Seq<char>>,
}

impl View for Pipe {
    type V = PipeView;

    open spec fn view(&self) -> PipeView {
        PipeView {
            id: self.id,
            source: self.source@,
            destination: self.destination@,
            cursor: self.cursor.deep_view(),
        }
    }
}

/// What a pipe is called in messages.
pub open spec fn label_text(pipe: PipeView) -> Seq<char> {
    pipe.source.mount + pipe.source.path + " -> "@ + pipe.destination.mount
        + pipe.destination.path
}

/// What a pipe is called in messages.
pub fn label(pipe: &Pipe) -> (r: String)
    ensures
        r@ == label_text(pipe@),
{
    text::cat5(
        pipe.source.mount.as_str(),
        pipe.source.path.as_str(),
        " -> ",
        pipe.destination.mount.as_str(),
        pipe.destination.path.as_str(),
    )
}

// === One pass ===

/// What the driver of a pass does next.
#[derive(Debug)]
pub enum Action {
    /// Resolve the source endpoint.
    Resolve,
    /// Open the stream of rows at this path of the source.
    Read(String),
    /// Pull the next chunk.
    Pull,
    /// Write the chunk to this path of the destination.
    Write(String),
    /// Persist where the pipe resumes.
    Checkpoint(Option<String>),
    /// The pass is over.
    Done,
}

/// The model of an [`Action`].
pub enum ActionView {
    Resolve,
    Read(Seq<char>),
    Pull,
    Write(Seq<char>),
    Checkpoint(Option<Seq<char>>),
    Done,
}

impl View for Action {
    type V = ActionView;

    open spec fn view(&self) -> ActionView {
        match self {
            Action::Resolve => ActionView::Resolve,
            Action::Read(path) => ActionView::Read(path@),
            Action::Pull => ActionView::Pull,
            Action::Write(path) => ActionView::Write(path@),
            Action::Checkpoint(cursor) => ActionView::Checkpoint(cursor.deep_view()),
            Action::Done => ActionView::Done,
        }
    }
}

/// How an action went. An action that failed ends the pass.
#[derive(Debug)]
pub enum Event {
    /// The source endpoint was resolved to these.
    Resolved(Option<ListStrategy>, Disposition),
    /// The stream was opened.
    Opened,
    /// A chunk came.
    Pulled(BatchPage),
    /// The stream ended.
    Ended,
    /// The chunk was written.
    Written,
    /// Where the pipe resumes was persisted.
    Checkpointed,
}

/// The model of an [`Event`].
pub enum EventView {
    Resolved(Option<ListStrategy>, Disposition),
    Opened,
    Pulled(nat, Option<Seq<char>>),
    Ended,
    Written,
    Checkpointed,
}

impl View for Event {
    type V = EventView;

    open spec fn view(&self) -> EventView {
        match self {
            Event::Resolved(strategy, disposition) => EventView::Resolved(*strategy, *disposition),
            Event::Opened => EventView::Opened,
            Event::Pulled(page) => EventView::Pulled(page.rows as nat, sync::next_token(*page)),
            Event::Ended => EventView::Ended,
            Event::Written => EventView::Written,
            Event::Checkpointed => EventView::Checkpointed,
        }
    }
}

/// What a pass is waiting for.
#[derive(Debug)]
pub enum Phase {
    Resolving,
    /// The stream is being opened.
    Opening { strategy: ListStrategy, sink: String },
    /// A chunk is being pulled.
    Pulling { strategy: ListStrategy, sink: String },
    /// A chunk of `rows` rows is being written.
    Writing { strategy: ListStrategy, sink: String, rows: u64, progress: Progress },
    /// Where the pipe resumes is being persisted.
    Persisting { strategy: ListStrategy, sink: String, caught_up: bool },
    Finished,
}

/// The model of a [`Phase`].
pub enum PhaseView {
    Resolving,
    Opening { strategy: ListStrategy, sink: Seq<char> },
    Pulling { strategy: ListStrategy, sink: Seq<char> },
    Writing { strategy: ListStrategy, sink: Seq<char>, rows: nat, progress: ProgressView },
    Persisting { strategy: ListStrategy, sink: Seq<char>, caught_up: bool },
    Finished,
}

impl View for Phase {
    type V = PhaseView;

    open spec fn view(&self) -> PhaseView {
        match self {
            Phase::Resolving => PhaseView::Resolving,
            Phase::Opening { strategy, sink } => PhaseView::Opening {
                strategy: *strategy,
                sink: sink@,
            },
            Phase::Pulling { strategy, sink } => PhaseView::Pulling {
                strategy: *strategy,
                sink: sink@,
            },
            Phase::Writing { strategy, sink, rows, progress } => PhaseView::Writing {
                strategy: *strategy,
                sink: sink@,
                rows: *rows as nat,
                progress: progress@,
            },
            Phase::Persisting { strategy, sink, caught_up } => PhaseView::Persisting {
                strategy: *strategy,
                sink: sink@,
                caught_up: *caught_up,
            },
            Phase::Finished => PhaseView::Finished,
        }
    }
}

/// One pass over a pipe.
#[derive(Debug)]
pub struct Pass {
    pub pipe: Pipe,
    pub phase: Phase,
    /// The rows written in this pass.
    pub total: u64,
}

/// The model of a [`Pass`].
pub struct PassView {
    pub pipe: PipeView,
    pub phase: PhaseView,
    pub total: nat,
}

impl View for Pass {
    type V = PassView;

    open spec fn view(&self) -> PassView {
        PassView { pipe: self.pipe@, phase: self.phase@, total: self.total as nat }
    }
}

/// Whether the pass is waiting for such an event.
pub open spec fn awaits(phase: PhaseView, event: EventView) -> bool {
    match phase {
        PhaseView::Resolving => event is Resolved,
        PhaseView::Opening { .. } => event is Opened,
        PhaseView::Pulling { .. } => event is Pulled || event is Ended,
        PhaseView::Writing { .. } => event is Written,
        PhaseView::Persisting { .. } => event is Checkpointed,
        PhaseView::Finished => false,
    }
}

/// The pass once the chunk at hand is dealt with: the pipe resumes behind it, and that is
/// to be persisted.
pub open spec fn settled(
    pass: PassView,
    strategy: ListStrategy,
    sink: Seq<char>,
    progress: ProgressView,
    rows: nat,
) -> (PassView, ActionView) {
    (
        PassView {
            pipe: PipeView { cursor: progress.resume(), ..pass.pipe },
            phase: PhaseView::Persisting { strategy, sink, caught_up: progress is CaughtUp },
            total: pass.total + rows,
        },
        ActionView::Checkpoint(progress.resume()),
    )
}

/// The message that refuses a source that cannot be walked.
pub open spec fn not_a_list(source: EndpointView) -> Seq<char> {
    "source `"@ + source.mount + source.path + "` is not a list endpoint (no sync strategy)"@
}

/// What a pass becomes with an event, and what to do then; or the message that ends it.
pub open spec fn stepped(pass: PassView, event: EventView) -> Result<
    (PassView, ActionView),
    Seq<char>,
> {
    match (pass.phase, event) {
        (PhaseView::Resolving, EventView::Resolved(strategy, disposition)) => match strategy {
            None => Err(not_a_list(pass.pipe.source)),
            Some(strategy) => Ok(
                (
                    PassView {
                        phase: PhaseView::Opening {
                            strategy,
                            sink: request::with_param(
                                pass.pipe.destination.path,
                                Disposition::PARAM@,
                                Some(disposition.word()),
                            ),
                        },
                        ..pass
                    },
                    ActionView::Read(
                        request::read_path(pass.pipe.source.path, pass.pipe.cursor, None),
                    ),
                ),
            ),
        },
        (PhaseView::Opening { strategy, sink }, EventView::Opened) => Ok(
            (
                PassView { phase: PhaseView::Pulling { strategy, sink }, ..pass },
                ActionView::Pull,
            ),
        ),
        (PhaseView::Pulling { strategy, sink }, EventView::Pulled(rows, next)) => {
            let progress = sync::advanced(strategy, rows, next);
            if rows > 0 {
                Ok(
                    (
                        PassView {
                            phase: PhaseView::Writing { strategy, sink, rows, progress },
                            ..pass
                        },
                        ActionView::Write(sink),
                    ),
                )
            } else {
                Ok(settled(pass, strategy, sink, progress, 0))
            }
        },
        (PhaseView::Pulling { .. }, EventView::Ended) => Ok(
            (PassView { phase: PhaseView::Finished, ..pass }, ActionView::Done),
        ),
        (PhaseView::Writing { strategy, sink, rows, progress }, EventView::Written) => Ok(
            settled(pass, strategy, sink, progress, rows),
        ),
        (
            PhaseView::Persisting { strategy, sink, caught_up },
            EventView::Checkpointed,
        ) => if caught_up {
            Ok((PassView { phase: PhaseView::Finished, ..pass }, ActionView::Done))
        } else {
            Ok(
                (
                    PassView { phase: PhaseView::Pulling { strategy, sink }, ..pass },
                    ActionView::Pull,
                ),
            )
        },
        _ => Err(Seq::empty()),
    }
}

/// Where the pipe resumes, of what was decided.
fn resume_of(progress: &Progress) -> (r: (Option<String>, bool))
    ensures
        r.0.deep_view() == progress@.resume(),
        r.1 == (progress@ is CaughtUp),
{
    match progress {
        Progress::Continue(token) => (Some(token.clone()), false),
        Progress::CaughtUp(Some(token)) => (Some(token.clone()), true),
        Progress::CaughtUp(None) => (None, true),
    }
}

/// The providers at the ends of a pipe: the source, and the destination.
pub fn ends<'a, P>(registry: &'a Registry<P>, pipe: &Pipe) -> (r: Result<(&'a P, &'a P), Failure>)
    requires
        registry.wf(),
    ensures
        ({
            let (source, destination) = (pipe@.source.mount, pipe@.destination.mount);
            match r {
                Ok((from, to)) => {
                    &&& registry@.contains_key(source) && *from == registry@[source]
                    &&& registry@.contains_key(destination) && *to == registry@[destination]
                },
                Err(failure) => exists|absent: Seq<char>, names: Seq<Seq<char>>|
                    {
                        &&& absent == if registry@.contains_key(source) {
                            destination
                        } else {
                            source
                        }
                        &&& !registry@.contains_key(absent)
                        &&& registry::is_listing(names, registry@.dom())
                        &&& failure@ == FailureView::Message(
                            #[trigger] registry::nothing_mounted(absent, names),
                        )
                    },
            }
        }),
{
    match registry.get(pipe.source.mount.as_str()) {
        Ok(source) => match registry.get(pipe.destination.mount.as_str()) {
            Ok(destination) => Ok((source, destination)),
            Err(failure) => Err(failure),
        },
        Err(failure) => Err(failure),
    }
}

impl Pass {
    /// A pass over `pipe`, whose source is to be resolved.
    pub fn new(pipe: Pipe) -> (r: (Pass, Action))
        ensures
            r.0@ == (PassView { pipe: pipe@, phase: PhaseView::Resolving, total: 0 }),
            r.1@ == ActionView::Resolve,
    {
        (Pass { pipe, phase: Phase::Resolving, total: 0 }, Action::Resolve)
    }

    /// Moves on behind the chunk at hand.
    fn settle(
        &mut self,
        strategy: ListStrategy,
        sink: String,
        progress: &Progress,
        rows: u64,
    ) -> (r: Action)
        requires
            old(self).total + rows <= u64::MAX,
        ensures
            (final(self)@, r@) == settled(old(self)@, strategy, sink@, progress@, rows as nat),
    {
        let (resume, caught_up) = resume_of(progress);
        let (again, _) = resume_of(progress);
        self.pipe.cursor = resume;
        self.total = self.total + rows;
        self.phase = Phase::Persisting { strategy, sink, caught_up };
        Action::Checkpoint(again)
    }

    /// Takes in how the last action went, and says what to do next.
    pub fn step(&mut self, event: Event) -> (r: Result<Action, Failure>)
        requires
            awaits(old(self)@.phase, event@),
            match old(self).phase {
                Phase::Writing { strategy, sink, rows, progress } => old(self).total + rows
                    <= u64::MAX,
                _ => true,
            },
        ensures
            match r {
                Ok(action) => stepped(old(self)@, event@) is Ok && stepped(
                    old(self)@,
                    event@,
                )->Ok_0 == (final(self)@, action@),
                Err(failure) => {
                    &&& stepped(old(self)@, event@) is Err
                    &&& failure@ == FailureView::Message(stepped(old(self)@, event@)->Err_0)
                    &&& final(self)@ == (PassView {
                        phase: PhaseView::Finished,
                        ..old(self)@
                    })
                },
            },
    {
        let mut phase = Phase::Finished;
        std::mem::swap(&mut self.phase, &mut phase);
        match (phase, event) {
            (Phase::Resolving, Event::Resolved(strategy, disposition)) => match strategy {
                None => {
                    let source = text::cat2(
                        self.pipe.source.mount.as_str(),
                        self.pipe.source.path.as_str(),
                    );
                    let message = text::cat3(
                        "source `",
                        source.as_str(),
                        "` is not a list endpoint (no sync strategy)",
                    );
                    assert(message@ =~= not_a_list(self.pipe@.source));
                    Err(Failure::Message(message))
                },
                Some(strategy) => {
                    let cursor = match &self.pipe.cursor {
                        Some(token) => Some(token.clone()),
                        None => None,
                    };
                    let read = ReadRequest::new(self.pipe.source.path.as_str()).with_cursor(
                        cursor,
                    ).path();
                    let sink = WriteRequest::new(
                        self.pipe.destination.path.as_str(),
                    ).with_disposition(disposition).path();
                    self.phase = Phase::Opening { strategy, sink };
                    Ok(Action::Read(read))
                },
            },
            (Phase::Opening { strategy, sink }, Event::Opened) => {
                self.phase = Phase::Pulling { strategy, sink };
                Ok(Action::Pull)
            },
            (Phase::Pulling { strategy, sink }, Event::Pulled(page)) => {
                let progress = sync::advance(strategy, &page);
                if page.rows > 0 {
                    let path = sink.clone();
                    self.phase = Phase::Writing {
                        strategy,
                        sink,
                        rows: page.rows as u64,
                        progress,
                    };
                    Ok(Action::Write(path))
                } else {
                    Ok(self.settle(strategy, sink, &progress, 0))
                }
            },
            (Phase::Pulling { strategy, sink }, Event::Ended) => Ok(Action::Done),
            (Phase::Writing { strategy, sink, rows, progress }, Event::Written) => Ok(
                self.settle(strategy, sink, &progress, rows),
            ),
            (Phase::Persisting { strategy, sink, caught_up }, Event::Checkpointed) => {
                if caught_up {
                    Ok(Action::Done)
                } else {
                    self.phase = Phase::Pulling { strategy, sink };
                    Ok(Action::Pull)
                }
            },
            _ => Ok(Action::Done),
        }
    }
}

// === Laws ===

/// Where a pipe resumes changes only once the chunk at hand is written or found empty, and
/// what is persisted is what changed: a crash never skips rows that were not written.
pub proof fn resume_moves_behind_written_rows(pass: PassView, event: EventView)
    requires
        awaits(pass.phase, event),
        stepped(pass, event) is Ok,
    ensures
        ({
            let (next, action) = stepped(pass, event)->Ok_0;
            &&& next.pipe.cursor != pass.pipe.cursor ==> event is Written || event is Pulled
                && event->Pulled_0 == 0
            &&& action is Checkpoint <==> event is Written || event is Pulled
                && event->Pulled_0 == 0
            &&& action is Checkpoint ==> action->Checkpoint_0 == next.pipe.cursor
            &&& action is Write <==> event is Pulled && event->Pulled_0 > 0
        }),
{
}

/// The source, the destination and the identity of a pipe stay what they are.
pub proof fn pipe_keeps_its_ends(pass: PassView, event: EventView)
    requires
        stepped(pass, event) is Ok,
    ensures
        ({
            let (next, action) = stepped(pass, event)->Ok_0;
            &&& next.pipe.id == pass.pipe.id
            &&& next.pipe.source == pass.pipe.source
            &&& next.pipe.destination == pass.pipe.destination
        }),
{
}

/// The pass that deals with the chunks one after another, each given by its rows and its
/// token, and how many of them it pulls: until it is caught up or the stream ends.
pub open spec fn drained(pass: PassView, chunks: Seq<(nat, Option<Seq<char>>)>) -> (PassView, nat)
    decreases chunks.len(),
{
    match pass.phase {
        PhaseView::Pulling { strategy, sink } => if chunks.len() == 0 {
            (PassView { phase: PhaseView::Finished, ..pass }, 0)
        } else {
            let (rows, next) = chunks[0];
            let progress = sync::advanced(strategy, rows, next);
            let (dealt, _) = settled(pass, strategy, sink, progress, rows);
            if progress is CaughtUp {
                (PassView { phase: PhaseView::Finished, ..dealt }, 1)
            } else {
                let (last, pulled) = drained(
                    PassView { phase: PhaseView::Pulling { strategy, sink }, ..dealt },
                    chunks.drop_first(),
                );
                (last, 1 + pulled)
            }
        },
        _ => (pass, 0),
    }
}

/// The rows in the first `n` chunks.
pub open spec fn rows_in(chunks: Seq<(nat, Option<Seq<char>>)>, n: nat) -> nat
    decreases n,
{
    if n == 0 || n > chunks.len() {
        0
    } else {
        rows_in(chunks, (n - 1) as nat) + chunks[n - 1].0
    }
}

/// A pass writes the rows of every chunk that it pulls, and no others; it resumes at the
/// token of the last chunk that it pulled; and it stops before the stream ends only where
/// the strategy says that it is caught up.
pub proof fn pass_writes_what_it_pulls(pass: PassView, chunks: Seq<(nat, Option<Seq<char>>)>)
    requires
        pass.phase is Pulling,
    ensures
        ({
            let (last, pulled) = drained(pass, chunks);
            &&& pulled <= chunks.len()
            &&& last.phase is Finished
            &&& last.total == pass.total + rows_in(chunks, pulled)
            &&& last.pipe.cursor == if pulled == 0 {
                pass.pipe.cursor
            } else {
                chunks[pulled - 1].1
            }
            &&& pulled < chunks.len() ==> pulled > 0 && sync::advanced(
                pass.phase->Pulling_strategy,
                chunks[pulled - 1].0,
                chunks[pulled - 1].1,
            ) is CaughtUp
        }),
    decreases chunks.len(),
{
    if chunks.len() > 0 {
        let strategy = pass.phase->Pulling_strategy;
        let sink = pass.phase->Pulling_sink;
        let (rows, next) = chunks[0];
        let progress = sync::advanced(strategy, rows, next);
        sync::walk_resumes_at_the_token(strategy, rows, next);
        let (dealt, _) = settled(pass, strategy, sink, progress, rows);
        reveal_with_fuel(rows_in, 2);
        if progress is Continue {
            let pulling = PassView { phase: PhaseView::Pulling { strategy, sink }, ..dealt };
            let rest = chunks.drop_first();
            pass_writes_what_it_pulls(pulling, rest);
            let (last, pulled) = drained(pulling, rest);
            lemma_rows_in_front(chunks, pulled + 1);
        }
    }
}

/// The rows in the first chunks are those of the first, and of the others.
proof fn lemma_rows_in_front(chunks: Seq<(nat, Option<Seq<char>>)>, n: nat)
    requires
        0 < n <= chunks.len(),
    ensures
        rows_in(chunks, n) == chunks[0].0 + rows_in(chunks.drop_first(), (n - 1) as nat),
    decreases n,
{
    if n > 1 {
        lemma_rows_in_front(chunks, (n - 1) as nat);
        assert(chunks.drop_first()[n - 2] == chunks[n - 1]);
    } else {
        reveal_with_fuel(rows_in, 2);
    }
}

/// Dealing with a chunk is what the steps of the machine do: pulled, written where it has
/// rows, and persisted.
pub proof fn draining_follows_the_steps(
    pass: PassView,
    chunks: Seq<(nat, Option<Seq<char>>)>,
)
    requires
        pass.phase is Pulling,
        chunks.len() > 0,
    ensures
        ({
            let pulled = stepped(pass, EventView::Pulled(chunks[0].0, chunks[0].1))->Ok_0.0;
            let written = if chunks[0].0 > 0 {
                stepped(pulled, EventView::Written)->Ok_0.0
            } else {
                pulled
            };
            let persisted = stepped(written, EventView::Checkpointed)->Ok_0.0;
            let rest = drained(persisted, chunks.drop_first());
            drained(pass, chunks) == (rest.0, 1 + rest.1)
        }),
{
}

/// A chunk of keyed rows, with the token behind it, as a pass sees it.
pub open spec fn counted<K, R>(chunks: Seq<(Seq<(K, R)>, Option<Seq<char>>)>) -> Seq<
    (nat, Option<Seq<char>>),
> {
    chunks.map_values(|chunk: (Seq<(K, R)>, Option<Seq<char>>)| (chunk.0.len(), chunk.1))
}

/// A keyed table once each of the first `n` chunks is written into it.
pub open spec fn filled<K, R>(
    disposition: Disposition,
    table: Map<K, R>,
    chunks: Seq<(Seq<(K, R)>, Option<Seq<char>>)>,
    n: nat,
) -> Map<K, R>
    decreases n,
{
    if n == 0 || n > chunks.len() {
        table
    } else {
        dataset::applied(
            disposition,
            filled(disposition, table, chunks, (n - 1) as nat),
            chunks[n - 1].0,
        )
    }
}

/// The rows of the first `n` chunks.
pub open spec fn rows_through<K, R>(chunks: Seq<(Seq<(K, R)>, Option<Seq<char>>)>, n: nat) -> Seq<
    (K, R),
>
    decreases n,
{
    if n == 0 || n > chunks.len() {
        Seq::empty()
    } else {
        rows_through(chunks, (n - 1) as nat) + chunks[n - 1].0
    }
}

/// Chunks written one after the other are their rows written together.
proof fn lemma_filled<K, R>(
    disposition: Disposition,
    table: Map<K, R>,
    chunks: Seq<(Seq<(K, R)>, Option<Seq<char>>)>,
    n: nat,
)
    ensures
        filled(disposition, table, chunks, n) == dataset::applied(
            disposition,
            table,
            rows_through(chunks, n),
        ),
    decreases n,
{
    if n > 0 && n <= chunks.len() {
        lemma_filled(disposition, table, chunks, (n - 1) as nat);
        dataset::keyed_writes_add_up(
            disposition,
            table,
            rows_through(chunks, (n - 1) as nat),
            chunks[n - 1].0,
        );
    }
}

/// Piping the same keyed rows again adds none. A pass writes to one path, with the disposition
/// that its source resolved to. Another pass from the same place over the same chunks pulls as
/// many of them, and leaves a keyed table as the first pass left it.
pub proof fn piping_again_adds_nothing<K, R>(
    pipe: PipeView,
    strategy: ListStrategy,
    disposition: Disposition,
    chunks: Seq<(Seq<(K, R)>, Option<Seq<char>>)>,
    table: Map<K, R>,
)
    ensures
        ({
            let fresh = PassView { pipe, phase: PhaseView::Resolving, total: 0 };
            let opening = stepped(
                fresh,
                EventView::Resolved(Some(strategy), disposition),
            )->Ok_0.0;
            let pass = stepped(opening, EventView::Opened)->Ok_0.0;
            let pairs = request::with_pair(
                request::params(pipe.destination.path),
                Disposition::PARAM@,
                Some(disposition.word()),
            );
            let pulled = drained(pass, counted(chunks)).1;
            let once = filled(disposition, table, chunks, pulled);
            &&& pass.phase is Pulling
            &&& pass.phase->Pulling_sink == request::with_params(
                request::base(pipe.destination.path),
                pairs,
            )
            &&& Disposition::of_word(request::value_of(pairs, Disposition::PARAM@)) == Ok::<
                Disposition,
                Seq<char>,
            >(disposition)
            &&& filled(disposition, once, chunks, pulled) == once
        }),
{
    let fresh = PassView { pipe, phase: PhaseView::Resolving, total: 0 };
    let opening = stepped(fresh, EventView::Resolved(Some(strategy), disposition))->Ok_0.0;
    let pass = stepped(opening, EventView::Opened)->Ok_0.0;
    let pulled = drained(pass, counted(chunks)).1;
    let once = filled(disposition, table, chunks, pulled);
    request::set_param_reads_back(
        request::params(pipe.destination.path),
        Disposition::PARAM@,
        Some(disposition.word()),
        Disposition::PARAM@,
    );
    dataset::disposition_reads_back(disposition);
    lemma_filled(disposition, table, chunks, pulled);
    lemma_filled(disposition, once, chunks, pulled);
    dataset::keyed_writes_are_idempotent(disposition, table, rows_through(chunks, pulled));
}

/// A pass over an offset walk that pulls the last page leaves the pipe at the start: the next
/// pass reads the walk from its beginning.
pub proof fn drained_offset_walks_start_over(
    pass: PassView,
    chunks: Seq<(nat, Option<Seq<char>>)>,
)
    requires
        pass.phase is Pulling,
        pass.phase->Pulling_strategy == ListStrategy::Offset,
        chunks.len() > 0,
        chunks.last().1 is None,
    ensures
        drained(pass, chunks).0.pipe.cursor is None,
{
    pass_writes_what_it_pulls(pass, chunks);
}


/// A pass begins at its source, where the pipe resumes: it reads the source's path with the
/// pipe's token as its `cursor` and every other param as it was. It then writes to the path of
/// the destination, with the disposition of the source. A source without a strategy is refused
/// by name.
pub proof fn passes_read_where_the_pipe_resumes(
    pass: PassView,
    strategy: ListStrategy,
    disposition: Disposition,
    other: Seq<char>,
)
    requires
        pass.phase is Resolving,
        other != "cursor"@,
        other != "disposition"@,
    ensures
        ({
            let from = pass.pipe.source.path;
            let to = pass.pipe.destination.path;
            let (next, action) = stepped(
                pass,
                EventView::Resolved(Some(strategy), disposition),
            )->Ok_0;
            let read = request::with_pair(request::params(from), "cursor"@, pass.pipe.cursor);
            let written = request::with_pair(
                request::params(to),
                "disposition"@,
                Some(disposition.word()),
            );
            &&& stepped(pass, EventView::Resolved(Some(strategy), disposition)) is Ok
            &&& action == ActionView::Read(request::with_params(request::base(from), read))
            &&& request::value_of(read, "cursor"@) == pass.pipe.cursor
            &&& request::value_of(read, other) == request::value_of(request::params(from), other)
            &&& next.phase == (PhaseView::Opening {
                strategy,
                sink: request::with_params(request::base(to), written),
            })
            &&& request::value_of(written, "disposition"@) == Some(
                if disposition == Disposition::Merge {
                    "merge"@
                } else {
                    "append"@
                },
            )
            &&& request::value_of(written, other) == request::value_of(request::params(to), other)
            &&& next.pipe == pass.pipe
            &&& next.total == pass.total
        }),
        stepped(pass, EventView::Resolved(None, disposition)) == Err::<
            (PassView, ActionView),
            Seq<char>,
        >(
            "source `"@ + pass.pipe.source.mount + pass.pipe.source.path
                + "` is not a list endpoint (no sync strategy)"@,
        ),
{
    request::set_param_reads_back(
        request::params(pass.pipe.source.path),
        "cursor"@,
        pass.pipe.cursor,
        other,
    );
    request::set_param_reads_back(
        request::params(pass.pipe.destination.path),
        "disposition"@,
        Some(disposition.word()),
        other,
    );
}

/// A pass that pulls a chunk with rows writes it to its sink, counts its rows once they are
/// written, and persists the token behind it; a chunk without rows is not written. It then pulls
/// again, unless the walk is caught up; at the end of the stream it is done.
pub proof fn chunks_are_written_to_the_sink(
    pass: PassView,
    strategy: ListStrategy,
    sink: Seq<char>,
    rows: nat,
    token: Option<Seq<char>>,
)
    requires
        pass.phase == (PhaseView::Pulling { strategy, sink }),
    ensures
        ({
            let (pulled, first) = stepped(pass, EventView::Pulled(rows, token))->Ok_0;
            let (dealt, persist) = if rows > 0 {
                stepped(pulled, EventView::Written)->Ok_0
            } else {
                (pulled, first)
            };
            let (after, again) = stepped(dealt, EventView::Checkpointed)->Ok_0;
            let stops = token is None || strategy == ListStrategy::NextLink && rows == 0;
            &&& rows > 0 ==> first == ActionView::Write(sink) && pulled.total == pass.total
            &&& persist == ActionView::Checkpoint(token)
            &&& dealt.total == pass.total + rows
            &&& dealt.pipe.cursor == token
            &&& after.total == dealt.total
            &&& after.pipe == dealt.pipe
            &&& stops ==> again is Done && after.phase is Finished
            &&& !stops ==> again is Pull && after.phase == pass.phase
        }),
        ({
            let (ended, done) = stepped(pass, EventView::Ended)->Ok_0;
            &&& done is Done
            &&& ended.phase is Finished
            &&& ended.total == pass.total
            &&& ended.pipe == pass.pipe
        }),
{
    sync::walk_resumes_at_the_token(strategy, rows, token);
}

/// A pipe is called by both of its ends, the source ahead of the destination.
pub proof fn pipes_are_called_by_their_ends(pipe: PipeView)
    ensures
        (pipe.source.mount + pipe.source.path).is_prefix_of(label_text(pipe)),
        (pipe.destination.mount + pipe.destination.path).is_suffix_of(label_text(pipe)),
        label_text(pipe).len() == pipe.source.mount.len() + pipe.source.path.len()
            + pipe.destination.mount.len() + pipe.destination.path.len() + 4,
{
    reveal_strlit(" -> ");
    let label = label_text(pipe);
    let head = pipe.source.mount + pipe.source.path;
    let tail = pipe.destination.mount + pipe.destination.path;
    assert(label.subrange(0, head.len() as int) =~= head);
    assert(label.subrange(label.len() - tail.len(), label.len() as int) =~= tail);
}

} // verus!
