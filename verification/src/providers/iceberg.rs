//! Iceberg tables in a local warehouse.
//!
//! The catalog, the scan and the writer are the Iceberg library's. What to ask of them,
//! and what to make of what comes back, is decided here: where the warehouse is, how the
//! tables are listed, where a scan resumes, and whether and how a dataset is written.

use vstd::prelude::*;
use vstd::string::*;

use crate::config::ProviderConfig;
use crate::dataset::Disposition;
use crate::error::{self, Failure, FailureView};
use crate::page::{self, Cursor, CursorView, ListStrategy, Page};
use crate::paging;
use crate::provider::Provider;
use crate::providers::sql::table::{self, TableName, WriteResult};
use crate::router::{self, EndpointInfo, EndpointView, Method, Router};
use crate::schema::{FieldView, Schema};
use crate::text;

verus! {

/// The namespace that holds all tables.
pub const NAMESPACE: &'static str = "strata";

/// The warehouse where none is configured.
pub const DEFAULT_WAREHOUSE: &'static str = "./warehouse";

/// The page size of the table listing where none is asked for.
pub const DEFAULT_LIMIT: u32 = 20;

/// The largest page size of the table listing.
pub const MAX_LIMIT: u32 = 1000;

/// Where a warehouse and its catalog are.
#[derive(Debug)]
pub struct Iceberg {
    /// The warehouse, as a `file://` URI.
    pub warehouse: String,
    /// The catalog's database, as a `sqlite://` URI.
    pub db_uri: String,
    /// The directory of the warehouse.
    pub dir: String,
}

/// The directory that a configured warehouse names: the default one where it is empty.
pub fn warehouse_dir(configured: &str) -> (r: String)
    ensures
        r@ == if configured@.len() == 0 {
            DEFAULT_WAREHOUSE@
        } else {
            configured@
        },
{
    if configured.is_empty() {
        DEFAULT_WAREHOUSE.to_string()
    } else {
        configured.to_string()
    }
}

/// The setting that holds the directory from which a relative warehouse starts. The driver
/// fills it in with the directory it runs in.
pub const CURRENT_DIR: &'static str = "current_dir";

/// A path as it is reached from the directory `dir`: the path itself where it is absolute.
pub open spec fn reached(dir: Seq<char>, path: Seq<char>) -> Seq<char> {
    if path.len() > 0 && path[0] == '/' {
        path
    } else if dir.len() == 0 || dir.last() == '/' {
        dir + path
    } else {
        dir + "/"@ + path
    }
}

/// A path as it is reached from the directory `dir`.
fn reach(dir: &str, path: &str) -> (r: String)
    ensures
        r@ == reached(dir@, path@),
{
    let rest = text::chars(path);
    let lead = text::chars(dir);
    if rest.len() > 0 && rest[0] == '/' {
        path.to_string()
    } else if lead.len() == 0 || lead[lead.len() - 1] == '/' {
        text::cat2(dir, path)
    } else {
        text::cat3(dir, "/", path)
    }
}

impl Iceberg {
    /// The warehouse in the directory `dir`, which is absolute.
    pub fn at(dir: &str) -> (r: Iceberg)
        ensures
            r.warehouse@ == "file://"@ + dir@,
            r.db_uri@ == "sqlite://"@ + dir@ + "/catalog.db?mode=rwc"@,
            r.dir@ == dir@,
    {
        Iceberg {
            warehouse: text::cat2("file://", dir),
            db_uri: text::cat3("sqlite://", dir, "/catalog.db?mode=rwc"),
            dir: dir.to_string(),
        }
    }

    /// The warehouse that is configured, reached from the directory `current` where it is not
    /// absolute.
    pub fn located(configured: &str, current: &str) -> (r: Iceberg)
        ensures
            r.dir@ == reached(
                current@,
                if configured@.len() == 0 {
                    DEFAULT_WAREHOUSE@
                } else {
                    configured@
                },
            ),
            r.warehouse@ == "file://"@ + r.dir@,
            r.db_uri@ == "sqlite://"@ + r.dir@ + "/catalog.db?mode=rwc"@,
    {
        let named = warehouse_dir(configured);
        let dir = reach(current, named.as_str());
        Iceberg::at(dir.as_str())
    }
}

/// Where the current directory is absolute, so is every warehouse.
pub proof fn warehouses_are_absolute(current: Seq<char>, path: Seq<char>)
    requires
        current.len() > 0,
        current[0] == '/',
    ensures
        reached(current, path).len() > 0,
        reached(current, path)[0] == '/',
{
}

// === The listing ===

/// The page size of the listing.
pub open spec fn listing_limit(asked: Option<u32>) -> u32 {
    if asked is None {
        DEFAULT_LIMIT
    } else if asked->0 <= MAX_LIMIT {
        asked->0
    } else {
        MAX_LIMIT
    }
}

/// Whether `items` are the names from `offset` on, as many as a page holds, of `names` in
/// order; and whether `cursor` leads to the rest.
pub open spec fn lists(
    items: Seq<TableName>,
    cursor: CursorView,
    names: Seq<Seq<char>>,
    offset: u32,
    limit: u32,
) -> bool {
    exists|ordered: Seq<Seq<char>>|
        {
            &&& text::sorted(ordered)
            &&& ordered.to_multiset() == names.to_multiset()
            &&& table::listed(items) == #[trigger] paging::window(
                ordered,
                offset as nat,
                limit as nat,
            )
            &&& cursor == if offset + items.len() < names.len() {
                page::cursor_to(page::offset_state((offset + limit) as u32))
            } else {
                page::no_cursor()
            }
        }
}

/// Whether names follow a page that no offset can name.
pub open spec fn beyond_reach(names: nat, offset: u32, limit: u32) -> bool {
    offset + limit > u32::MAX && offset + limit < names
}

/// One page of the tables, in the order of their names, as a token asks for it. A page whose
/// successor no offset can name is refused.
pub fn list_tables(names: &Vec<String>, token: Option<&str>, limit: Option<u32>) -> (r: Result<
    Page<TableName>,
    Failure,
>)
    ensures
        ({
            let start = page::token_offset(table::param(token));
            match r {
                Ok(page) => {
                    &&& start is Ok
                    &&& !beyond_reach(names.len() as nat, start->Ok_0, listing_limit(limit))
                    &&& lists(
                        page.items@,
                        page.cursor@,
                        names.deep_view(),
                        start->Ok_0,
                        listing_limit(limit),
                    )
                },
                Err(failure) => match start {
                    Err(message) => failure@ == FailureView::Message(message),
                    Ok(start) => {
                        &&& beyond_reach(names.len() as nat, start, listing_limit(limit))
                        &&& failure@ == FailureView::Message("the next offset is out of range"@)
                    },
                },
            }
        }),
{
    let start = match page::resume_offset(token) {
        Ok(start) => start,
        Err(failure) => {
            return Err(failure);
        },
    };
    let limit = page::page_limit(limit, DEFAULT_LIMIT, MAX_LIMIT);
    let next: u64 = start as u64 + limit as u64;
    if next > u32::MAX as u64 && next < names.len() as u64 {
        return Err(Failure::Message("the next offset is out of range".to_string()));
    }
    Ok(tables_page(names, start, limit))
}

/// One page of the tables from an offset on, in the order of their names.
pub fn tables_page(names: &Vec<String>, start: u32, limit: u32) -> (r: Page<TableName>)
    requires
        !beyond_reach(names.len() as nat, start, limit),
    ensures
        lists(r.items@, r.cursor@, names.deep_view(), start, limit),
{
    broadcast use vstd::seq_lib::group_to_multiset_ensures;

    let sorted = text::sort(names);
    let ghost ordered = sorted.deep_view();
    let ghost shown = paging::window(ordered, start as nat, limit as nat);
    let total: usize = sorted.len();
    assert(total == ordered.len());
    assert(ordered.len() == names.deep_view().len()) by {
        assert(ordered.to_multiset().len() == ordered.len());
        assert(names.deep_view().to_multiset().len() == names.deep_view().len());
    }
    let from: usize = if (start as usize) < total {
        start as usize
    } else {
        total
    };
    let mut items: Vec<TableName> = Vec::new();
    let mut i: usize = from;
    while i < total && i - from < limit as usize
        invariant
            from <= i <= total,
            i - from <= limit,
            total == sorted.len(),
            ordered == sorted.deep_view(),
            table::listed(items@) == ordered.subrange(from as int, i as int),
        decreases total - i,
    {
        let ghost before = table::listed(items@);
        let item = TableName { name: sorted[i].clone() };
        assert(ordered[i as int] == sorted@[i as int]@);
        items.push(item);
        assert(table::listed(items@) =~= before.push(item@));
        assert(table::listed(items@) =~= ordered.subrange(from as int, i + 1));
        i = i + 1;
    }
    assert(table::listed(items@) =~= shown);
    assert(items.len() == table::listed(items@).len());
    let reached: u64 = start as u64 + items.len() as u64;
    let cursor = if reached < total as u64 {
        assert(items.len() == limit);
        Cursor::at(start + limit)
    } else {
        Cursor::empty()
    };
    let page = Page::new(items, cursor);
    assert(lists(page.items@, page.cursor@, names.deep_view(), start, limit));
    page
}

// === The scan ===

/// What a scan was given for its pull.
#[derive(Debug, Clone, Copy, PartialEq, Eq, Structural)]
pub enum Pulled {
    /// A batch of this many rows.
    Batch(u32),
    /// The table ended.
    End,
    /// The pull failed.
    Failed,
}

/// What a scan does with what it pulled. It pulls again behind all but the last two.
#[derive(Debug)]
pub enum ScanAction {
    /// The batch ends ahead of the row to resume at: drop it.
    Skip,
    /// The row to resume at is in the batch, behind this many rows: hold the batch from there
    /// on.
    Begin(u32),
    /// Yield the batch that is held, with this cursor behind it, and hold the one that was
    /// pulled, where one was.
    Yield(Cursor),
    /// Hand the failure on.
    Fail,
    /// Nothing is left.
    Done,
}

/// The model of a [`ScanAction`]. A cursor is known by the row that it resumes at.
pub enum ScanActionView {
    Skip,
    Begin(nat),
    Yield(Option<nat>),
    Fail,
    Done,
}

/// What a scan is at.
#[derive(Debug, Clone, Copy, PartialEq, Eq, Structural)]
pub enum ScanPhase {
    /// It looks for the row to resume at, and dropped this many rows so far.
    Seeking(u32),
    /// It holds a batch of this many rows, one ahead, so that the last page can be told
    /// apart.
    Holding(u32),
    Finished,
}

/// The model of a [`ScanPhase`].
pub enum ScanPhaseView {
    Seeking(nat),
    Holding(nat),
    Finished,
}

impl View for ScanPhase {
    type V = ScanPhaseView;

    open spec fn view(&self) -> ScanPhaseView {
        match *self {
            ScanPhase::Seeking(scanned) => ScanPhaseView::Seeking(scanned as nat),
            ScanPhase::Holding(rows) => ScanPhaseView::Holding(rows as nat),
            ScanPhase::Finished => ScanPhaseView::Finished,
        }
    }
}

/// A scan that resumes at a row and yields its batches as pages.
#[derive(Debug)]
pub struct Scan {
    /// The row behind the pages that were yielded so far.
    pub offset: u32,
    pub phase: ScanPhase,
}

/// The model of a [`Scan`].
pub struct ScanView {
    pub offset: nat,
    pub phase: ScanPhaseView,
}

impl View for Scan {
    type V = ScanView;

    open spec fn view(&self) -> ScanView {
        ScanView { offset: self.offset as nat, phase: self.phase@ }
    }
}

/// Whether the action is the one modelled.
pub open spec fn is_action(action: ScanAction, model: ScanActionView) -> bool {
    match (action, model) {
        (ScanAction::Skip, ScanActionView::Skip) => true,
        (ScanAction::Begin(skip), ScanActionView::Begin(n)) => skip == n,
        (ScanAction::Yield(cursor), ScanActionView::Yield(resume)) => cursor@ == match resume {
            Some(row) => page::cursor_to(page::offset_state(row as u32)),
            None => page::no_cursor(),
        },
        (ScanAction::Fail, ScanActionView::Fail) => true,
        (ScanAction::Done, ScanActionView::Done) => true,
        _ => false,
    }
}

/// What a scan becomes with what it pulled, and what it does then.
pub open spec fn scan_step(scan: ScanView, pulled: Pulled) -> (ScanView, ScanActionView) {
    match (scan.phase, pulled) {
        (ScanPhaseView::Seeking(scanned), Pulled::Batch(rows)) => if scanned + rows
            <= scan.offset {
            (
                ScanView { phase: ScanPhaseView::Seeking(scanned + rows as nat), ..scan },
                ScanActionView::Skip,
            )
        } else {
            let skip = (scan.offset - scanned) as nat;
            (
                ScanView { phase: ScanPhaseView::Holding((rows - skip) as nat), ..scan },
                ScanActionView::Begin(skip),
            )
        },
        (ScanPhaseView::Seeking(_), Pulled::End) => (
            ScanView { phase: ScanPhaseView::Finished, ..scan },
            ScanActionView::Done,
        ),
        (ScanPhaseView::Seeking(_), Pulled::Failed) => (
            ScanView { phase: ScanPhaseView::Finished, ..scan },
            ScanActionView::Fail,
        ),
        (ScanPhaseView::Holding(held), _) => {
            let offset = scan.offset + held;
            match pulled {
                Pulled::Batch(rows) => (
                    ScanView { offset, phase: ScanPhaseView::Holding(rows as nat) },
                    ScanActionView::Yield(Some(offset)),
                ),
                Pulled::End => (
                    ScanView { offset, phase: ScanPhaseView::Finished },
                    ScanActionView::Yield(None),
                ),
                Pulled::Failed => (
                    ScanView { offset, phase: ScanPhaseView::Finished },
                    ScanActionView::Fail,
                ),
            }
        },
        (ScanPhaseView::Finished, _) => (scan, ScanActionView::Done),
    }
}

impl Scan {
    /// Whether the scan dropped no row that it is to yield.
    pub open spec fn wf(&self) -> bool {
        match self.phase {
            ScanPhase::Seeking(scanned) => scanned <= self.offset,
            _ => true,
        }
    }

    /// A scan that resumes at `offset`.
    pub fn new(offset: u32) -> (r: Scan)
        ensures
            r.wf(),
            r@ == (ScanView { offset: offset as nat, phase: ScanPhaseView::Seeking(0) }),
    {
        Scan { offset, phase: ScanPhase::Seeking(0) }
    }

    /// Takes in what was pulled, and says what to do with it.
    pub fn step(&mut self, pulled: Pulled) -> (r: ScanAction)
        requires
            old(self).wf(),
            match old(self).phase {
                ScanPhase::Seeking(scanned) => pulled is Batch ==> scanned + pulled->Batch_0
                    <= u32::MAX,
                ScanPhase::Holding(held) => old(self).offset + held <= u32::MAX,
                ScanPhase::Finished => true,
            },
        ensures
            final(self).wf(),
            final(self)@ == scan_step(old(self)@, pulled).0,
            is_action(r, scan_step(old(self)@, pulled).1),
    {
        match self.phase {
            ScanPhase::Seeking(scanned) => match pulled {
                Pulled::Batch(rows) => if scanned + rows <= self.offset {
                    self.phase = ScanPhase::Seeking(scanned + rows);
                    ScanAction::Skip
                } else {
                    let skip: u32 = self.offset - scanned;
                    self.phase = ScanPhase::Holding(rows - skip);
                    ScanAction::Begin(skip)
                },
                Pulled::End => {
                    self.phase = ScanPhase::Finished;
                    ScanAction::Done
                },
                Pulled::Failed => {
                    self.phase = ScanPhase::Finished;
                    ScanAction::Fail
                },
            },
            ScanPhase::Holding(held) => {
                self.offset = self.offset + held;
                match pulled {
                    Pulled::Batch(rows) => {
                        self.phase = ScanPhase::Holding(rows);
                        ScanAction::Yield(Cursor::at(self.offset))
                    },
                    Pulled::End => {
                        self.phase = ScanPhase::Finished;
                        ScanAction::Yield(Cursor::empty())
                    },
                    Pulled::Failed => {
                        self.phase = ScanPhase::Finished;
                        ScanAction::Fail
                    },
                }
            },
            ScanPhase::Finished => ScanAction::Done,
        }
    }
}

/// The batches from the row at `offset` on: whole batches ahead of it dropped, the one it
/// is in sliced.
pub open spec fn resumed<T>(batches: Seq<Seq<T>>, offset: nat, scanned: nat) -> Seq<Seq<T>>
    decreases batches.len(),
{
    if batches.len() == 0 {
        Seq::empty()
    } else if scanned + batches[0].len() <= offset {
        resumed(batches.drop_first(), offset, scanned + batches[0].len())
    } else {
        seq![batches[0].skip(offset - scanned)] + batches.drop_first()
    }
}

/// A resumed scan yields exactly the rows from its offset on.
pub proof fn resumed_scan_yields_the_rest<T>(batches: Seq<Seq<T>>, offset: nat, scanned: nat)
    requires
        scanned <= offset,
    ensures
        resumed(batches, offset, scanned).flatten() == (if offset - scanned
            <= batches.flatten().len() {
            batches.flatten().skip(offset - scanned)
        } else {
            Seq::empty()
        }),
    decreases batches.len(),
{
    let all = batches.flatten();
    if batches.len() == 0 {
        assert(all =~= Seq::<T>::empty());
        assert(resumed(batches, offset, scanned).flatten() =~= Seq::<T>::empty());
    } else {
        let first = batches[0];
        let rest = batches.drop_first();
        assert(all == first + rest.flatten());
        if scanned + first.len() <= offset {
            resumed_scan_yields_the_rest(rest, offset, scanned + first.len());
            if offset - scanned <= all.len() {
                assert(all.skip(offset - scanned) =~= rest.flatten().skip(
                    offset - scanned - first.len(),
                ));
            }
        } else {
            let left = resumed(batches, offset, scanned);
            assert(left.first() == first.skip(offset - scanned));
            assert(left.drop_first() =~= rest);
            assert(left.flatten() == first.skip(offset - scanned) + rest.flatten());
            assert(left.flatten() =~= all.skip(offset - scanned));
        }
    }
}

/// The pages of a scan that holds `held` and pulls the batches one after the other, each with
/// the row that its cursor resumes at.
pub open spec fn scan_run<T>(scan: ScanView, held: Seq<T>, batches: Seq<Seq<T>>) -> Seq<
    (Seq<T>, Option<nat>),
>
    decreases batches.len(),
{
    if batches.len() == 0 {
        match scan_step(scan, Pulled::End).1 {
            ScanActionView::Yield(resume) => seq![(held, resume)],
            _ => Seq::empty(),
        }
    } else {
        let batch = batches[0];
        let rest = batches.drop_first();
        let (next, action) = scan_step(scan, Pulled::Batch(batch.len() as u32));
        match action {
            ScanActionView::Skip => scan_run(next, held, rest),
            ScanActionView::Begin(skip) => scan_run(next, batch.skip(skip as int), rest),
            ScanActionView::Yield(resume) => seq![(held, resume)] + scan_run(next, batch, rest),
            _ => Seq::empty(),
        }
    }
}

/// Whether `run` is the pages, each but the last with a cursor that resumes behind it, where
/// the first page begins at `offset`.
pub open spec fn is_run<T>(
    run: Seq<(Seq<T>, Option<nat>)>,
    pages: Seq<Seq<T>>,
    offset: nat,
) -> bool {
    &&& run.len() == pages.len()
    &&& forall|i: int|
        0 <= i < pages.len() ==> {
            &&& (#[trigger] run[i]).0 == pages[i]
            &&& run[i].1 == if i + 1 < pages.len() {
                Some(offset + pages.take(i + 1).flatten().len())
            } else {
                None
            }
        }
}

/// Whether every batch has a number of rows that can be counted.
pub open spec fn countable<T>(batches: Seq<Seq<T>>) -> bool {
    forall|i: int| 0 <= i < batches.len() ==> (#[trigger] batches[i]).len() <= u32::MAX
}

/// A scan yields the batches from its offset on as pages: whole batches ahead of it dropped,
/// the one it is in sliced. Each cursor resumes behind its page, and the last page closes the
/// cursor.
pub proof fn scan_yields_what_is_resumed<T>(
    batches: Seq<Seq<T>>,
    offset: nat,
    scanned: nat,
    held: Seq<T>,
)
    requires
        scanned <= offset,
        countable(batches),
    ensures
        is_run(
            scan_run(ScanView { offset, phase: ScanPhaseView::Seeking(scanned) }, held, batches),
            resumed(batches, offset, scanned),
            offset,
        ),
    decreases batches.len(),
{
    if batches.len() > 0 {
        let first = batches[0];
        let rest = batches.drop_first();
        assert forall|i: int| 0 <= i < rest.len() implies (#[trigger] rest[i]).len()
            <= u32::MAX by {
            assert(rest[i] == batches[i + 1]);
        }
        if scanned + first.len() <= offset {
            scan_yields_what_is_resumed(rest, offset, scanned + first.len(), held);
        } else {
            let skip = offset - scanned;
            lemma_held_run(first.skip(skip), rest, offset);
        }
    }
}

/// A scan that holds a batch yields it, and the others behind it.
proof fn lemma_held_run<T>(held: Seq<T>, batches: Seq<Seq<T>>, offset: nat)
    requires
        countable(batches),
    ensures
        is_run(
            scan_run(
                ScanView { offset, phase: ScanPhaseView::Holding(held.len()) },
                held,
                batches,
            ),
            seq![held] + batches,
            offset,
        ),
    decreases batches.len(),
{
    let scan = ScanView { offset, phase: ScanPhaseView::Holding(held.len()) };
    let pages = seq![held] + batches;
    let run = scan_run(scan, held, batches);
    if batches.len() == 0 {
        assert(pages.len() == 1 && pages[0] == held);
    } else {
        let batch = batches[0];
        let rest = batches.drop_first();
        let next = offset + held.len();
        assert forall|i: int| 0 <= i < rest.len() implies (#[trigger] rest[i]).len()
            <= u32::MAX by {
            assert(rest[i] == batches[i + 1]);
        }
        lemma_held_run(batch, rest, next);
        let behind = seq![batch] + rest;
        assert(behind =~= batches);
        let others = scan_run(
            ScanView { offset: next, phase: ScanPhaseView::Holding(batch.len()) },
            batch,
            rest,
        );
        assert(run == seq![(held, Some(next))] + others);
        assert forall|i: int| 0 <= i < pages.len() implies {
            &&& (#[trigger] run[i]).0 == pages[i]
            &&& run[i].1 == if i + 1 < pages.len() {
                Some(offset + pages.take(i + 1).flatten().len())
            } else {
                None
            }
        } by {
            let taken = pages.take(i + 1);
            assert(taken.first() == held);
            assert(taken.drop_first() =~= behind.take(i));
            assert(taken.flatten() == held + behind.take(i).flatten());
            if i == 0 {
                assert(behind.take(0) =~= Seq::empty());
                assert(behind.take(0).flatten() =~= Seq::<T>::empty());
            } else {
                assert(run[i] == others[i - 1]);
                assert(pages[i] == behind[i - 1]);
            }
        }
    }
}

/// A scan that resumes behind the first `n` pages of another yields the pages that the other
/// had left.
pub proof fn scans_resume_behind_their_pages<T>(batches: Seq<Seq<T>>, offset: nat, n: nat)
    requires
        offset <= batches.flatten().len(),
        n <= resumed(batches, offset, 0).len(),
    ensures
        ({
            let pages = resumed(batches, offset, 0);
            let next = offset + pages.take(n as int).flatten().len();
            resumed(batches, next, 0).flatten() == pages.skip(n as int).flatten()
        }),
{
    let all = batches.flatten();
    let pages = resumed(batches, offset, 0);
    let seen = pages.take(n as int);
    let left = pages.skip(n as int);
    let next = offset + seen.flatten().len();
    resumed_scan_yields_the_rest(batches, offset, 0);
    vstd::seq_lib::lemma_flatten_concat(seen, left);
    assert(pages =~= seen + left);
    assert(all.skip(offset as int) == seen.flatten() + left.flatten());
    assert(next <= all.len());
    resumed_scan_yields_the_rest(batches, next, 0);
    assert(all.skip(next as int) =~= all.skip(offset as int).skip(seen.flatten().len() as int));
    assert((seen.flatten() + left.flatten()).skip(seen.flatten().len() as int)
        =~= left.flatten());
}

// === The sink ===

/// Whether a dataset can be written, or the message that refuses it. Only appending is
/// there: merging would need deletes on the row key.
pub open spec fn admitted(disposition: Option<Seq<char>>, fields: Seq<FieldView>) -> Result<
    (),
    Seq<char>,
> {
    match Disposition::of_word(disposition) {
        Err(message) => Err(message),
        Ok(Disposition::Merge) => Err(
            "iceberg sink supports only `append` (merge is not yet implemented)"@,
        ),
        Ok(Disposition::Append) => if fields.len() == 0 {
            Err("dataset schema has no columns"@)
        } else {
            Ok(())
        },
    }
}

/// What a write asks of the catalog and of the writer.
#[derive(Debug, Clone, Copy, PartialEq, Eq, Structural)]
pub enum PutAction {
    /// Ask whether the namespace exists.
    FindNamespace,
    CreateNamespace,
    /// Ask whether the table exists.
    FindTable,
    /// Create the table from the schema of the dataset, and open a writer on it.
    CreateTable,
    /// Load the table, and open a writer on it.
    LoadTable,
    /// Pull the next chunk.
    Pull,
    /// Write the chunk at hand.
    Write,
    /// Close the writer.
    Close,
    /// Append the written files as one snapshot.
    Commit,
    Done,
}

/// How an action of a write went.
#[derive(Debug, Clone, Copy, PartialEq, Eq, Structural)]
pub enum PutEvent {
    /// Whether the namespace exists.
    Namespace(bool),
    NamespaceCreated,
    /// Whether the table exists.
    Table(bool),
    /// The table is there, with a writer on it.
    Opened,
    /// A chunk of this many rows.
    Pulled(u64),
    /// The dataset ended.
    Ended,
    Written,
    Closed,
    Committed,
}

/// What a write is waiting for.
#[derive(Debug, Clone, Copy, PartialEq, Eq, Structural)]
pub enum PutPhase {
    FindingNamespace,
    CreatingNamespace,
    FindingTable,
    Opening,
    Pulling,
    /// A chunk of this many rows is being written.
    Writing(u64),
    Closing,
    Committing,
    Finished,
}

/// A write into a table: what it is waiting for, and what it wrote so far.
#[derive(Debug)]
pub struct PutTable {
    pub result: WriteResult,
    pub phase: PutPhase,
}

/// The model of a [`PutTable`].
pub struct PutTableView {
    pub table: Seq<char>,
    /// Whether the write creates the table.
    pub created: bool,
    pub rows_written: nat,
    pub phase: PutPhase,
}

impl View for PutTable {
    type V = PutTableView;

    open spec fn view(&self) -> PutTableView {
        PutTableView {
            table: self.result.table@,
            created: self.result.created,
            rows_written: self.result.rows_written as nat,
            phase: self.phase,
        }
    }
}

/// Whether a write is waiting for such an event.
pub open spec fn put_awaits(phase: PutPhase, event: PutEvent) -> bool {
    match phase {
        PutPhase::FindingNamespace => event is Namespace,
        PutPhase::CreatingNamespace => event is NamespaceCreated,
        PutPhase::FindingTable => event is Table,
        PutPhase::Opening => event is Opened,
        PutPhase::Pulling => event is Pulled || event is Ended,
        PutPhase::Writing(_) => event is Written,
        PutPhase::Closing => event is Closed,
        PutPhase::Committing => event is Committed,
        PutPhase::Finished => false,
    }
}

/// What a write becomes with an event, and what it does then. The namespace and the table are
/// created where they are absent; an empty chunk is passed over; what was written is committed
/// at once, behind the last chunk.
pub open spec fn put_step(put: PutTableView, event: PutEvent) -> (PutTableView, PutAction) {
    match (put.phase, event) {
        (PutPhase::FindingNamespace, PutEvent::Namespace(there)) => if there {
            (PutTableView { phase: PutPhase::FindingTable, ..put }, PutAction::FindTable)
        } else {
            (PutTableView { phase: PutPhase::CreatingNamespace, ..put }, PutAction::CreateNamespace)
        },
        (PutPhase::CreatingNamespace, PutEvent::NamespaceCreated) => (
            PutTableView { phase: PutPhase::FindingTable, ..put },
            PutAction::FindTable,
        ),
        (PutPhase::FindingTable, PutEvent::Table(there)) => (
            PutTableView { phase: PutPhase::Opening, created: !there, ..put },
            if there {
                PutAction::LoadTable
            } else {
                PutAction::CreateTable
            },
        ),
        (PutPhase::Opening, PutEvent::Opened) => (
            PutTableView { phase: PutPhase::Pulling, ..put },
            PutAction::Pull,
        ),
        (PutPhase::Pulling, PutEvent::Pulled(rows)) => if rows == 0 {
            (put, PutAction::Pull)
        } else {
            (PutTableView { phase: PutPhase::Writing(rows), ..put }, PutAction::Write)
        },
        (PutPhase::Pulling, PutEvent::Ended) => (
            PutTableView { phase: PutPhase::Closing, ..put },
            PutAction::Close,
        ),
        (PutPhase::Writing(rows), PutEvent::Written) => (
            PutTableView {
                phase: PutPhase::Pulling,
                rows_written: put.rows_written + rows as nat,
                ..put
            },
            PutAction::Pull,
        ),
        (PutPhase::Closing, PutEvent::Closed) => (
            PutTableView { phase: PutPhase::Committing, ..put },
            PutAction::Commit,
        ),
        (PutPhase::Committing, PutEvent::Committed) => (
            PutTableView { phase: PutPhase::Finished, ..put },
            PutAction::Done,
        ),
        _ => (put, PutAction::Done),
    }
}

/// Checks whether a dataset can be written.
pub fn check_put(disposition: Option<&str>, schema: &Schema) -> (r: Result<(), Failure>)
    ensures
        error::gives_plain(r, admitted(table::param(disposition), schema@)),
{
    match Disposition::from_param(disposition) {
        Err(failure) => Err(failure),
        Ok(Disposition::Merge) => Err(
            Failure::Message(
                "iceberg sink supports only `append` (merge is not yet implemented)".to_string(),
            ),
        ),
        Ok(Disposition::Append) => if schema.fields.len() == 0 {
            Err(Failure::Message("dataset schema has no columns".to_string()))
        } else {
            Ok(())
        },
    }
}

/// The prefix of the files of one write. It differs from write to write, since files of
/// the same name would collide.
pub fn file_prefix(nanos: u128) -> (r: String)
    ensures
        r@ == "strata-"@ + text::decimal(nanos as nat),
{
    let unique = text::decimal_u128(nanos);
    text::cat2("strata-", unique.as_str())
}

impl PutTable {
    /// A write of a dataset of the given schema into a table, or the failure that refuses it.
    pub fn new(table: &str, disposition: Option<&str>, schema: &Schema) -> (r: Result<
        (PutTable, PutAction),
        Failure,
    >)
        ensures
            ({
                let expected = admitted(table::param(disposition), schema@);
                match r {
                    Ok((put, action)) => {
                        &&& expected is Ok
                        &&& put@ == (PutTableView {
                            table: table@,
                            created: false,
                            rows_written: 0,
                            phase: PutPhase::FindingNamespace,
                        })
                        &&& action == PutAction::FindNamespace
                    },
                    Err(failure) => expected is Err && failure@ == FailureView::Message(
                        expected->Err_0,
                    ),
                }
            }),
    {
        match check_put(disposition, schema) {
            Ok(_) => {
                let result = WriteResult::new(table, false);
                Ok(
                    (
                        PutTable { result, phase: PutPhase::FindingNamespace },
                        PutAction::FindNamespace,
                    ),
                )
            },
            Err(failure) => Err(failure),
        }
    }

    /// Takes in how the last action went, and says what to do next.
    pub fn step(&mut self, event: PutEvent) -> (r: PutAction)
        requires
            put_awaits(old(self).phase, event),
            match old(self).phase {
                PutPhase::Writing(rows) => old(self).result.rows_written + rows <= u64::MAX,
                _ => true,
            },
        ensures
            (final(self)@, r) == put_step(old(self)@, event),
    {
        match (self.phase, event) {
            (PutPhase::FindingNamespace, PutEvent::Namespace(there)) => if there {
                self.phase = PutPhase::FindingTable;
                PutAction::FindTable
            } else {
                self.phase = PutPhase::CreatingNamespace;
                PutAction::CreateNamespace
            },
            (PutPhase::CreatingNamespace, PutEvent::NamespaceCreated) => {
                self.phase = PutPhase::FindingTable;
                PutAction::FindTable
            },
            (PutPhase::FindingTable, PutEvent::Table(there)) => {
                self.phase = PutPhase::Opening;
                self.result.created = !there;
                if there {
                    PutAction::LoadTable
                } else {
                    PutAction::CreateTable
                }
            },
            (PutPhase::Opening, PutEvent::Opened) => {
                self.phase = PutPhase::Pulling;
                PutAction::Pull
            },
            (PutPhase::Pulling, PutEvent::Pulled(rows)) => if rows == 0 {
                PutAction::Pull
            } else {
                self.phase = PutPhase::Writing(rows);
                PutAction::Write
            },
            (PutPhase::Pulling, PutEvent::Ended) => {
                self.phase = PutPhase::Closing;
                PutAction::Close
            },
            (PutPhase::Writing(rows), PutEvent::Written) => {
                self.result.record(rows);
                self.phase = PutPhase::Pulling;
                PutAction::Pull
            },
            (PutPhase::Closing, PutEvent::Closed) => {
                self.phase = PutPhase::Committing;
                PutAction::Commit
            },
            (PutPhase::Committing, PutEvent::Committed) => {
                self.phase = PutPhase::Finished;
                PutAction::Done
            },
            _ => PutAction::Done,
        }
    }
}

/// A namespace or a table is created where it is found absent, and only there; a write says
/// of a table that it created it where it did.
pub proof fn absent_tables_are_created(put: PutTableView, event: PutEvent)
    requires
        put_awaits(put.phase, event),
    ensures
        ({
            let (next, action) = put_step(put, event);
            &&& action is CreateNamespace <==> event == PutEvent::Namespace(false)
            &&& action is CreateTable <==> event == PutEvent::Table(false)
            &&& next.created != put.created ==> event is Table
            &&& event is Table ==> next.created == (action is CreateTable)
            &&& next.table == put.table
        }),
{
}

/// A write that pulls the chunks one after the other, each given by its rows: what it becomes,
/// and what it does, from its first pull on.
pub open spec fn put_run(put: PutTableView, chunks: Seq<u64>) -> (PutTableView, Seq<PutAction>)
    decreases chunks.len(),
{
    if chunks.len() == 0 {
        let (closing, close) = put_step(put, PutEvent::Ended);
        let (committing, commit) = put_step(closing, PutEvent::Closed);
        let (last, done) = put_step(committing, PutEvent::Committed);
        (last, seq![close, commit, done])
    } else {
        let (pulled, first) = put_step(put, PutEvent::Pulled(chunks[0]));
        if first is Write {
            let (written, again) = put_step(pulled, PutEvent::Written);
            let (last, actions) = put_run(written, chunks.drop_first());
            (last, seq![first, again] + actions)
        } else {
            let (last, actions) = put_run(pulled, chunks.drop_first());
            (last, seq![first] + actions)
        }
    }
}

/// The rows of the chunks.
pub open spec fn rows_of(chunks: Seq<u64>) -> nat
    decreases chunks.len(),
{
    if chunks.len() == 0 {
        0
    } else {
        chunks[0] as nat + rows_of(chunks.drop_first())
    }
}

/// The chunks that have rows.
pub open spec fn filled(chunks: Seq<u64>) -> nat
    decreases chunks.len(),
{
    if chunks.len() == 0 {
        0
    } else if chunks[0] == 0 {
        filled(chunks.drop_first())
    } else {
        1 + filled(chunks.drop_first())
    }
}

/// How often an action is taken.
pub open spec fn times(actions: Seq<PutAction>, action: PutAction) -> nat
    decreases actions.len(),
{
    if actions.len() == 0 {
        0
    } else if actions[0] == action {
        1 + times(actions.drop_first(), action)
    } else {
        times(actions.drop_first(), action)
    }
}

/// A write writes every chunk that has rows, each once, counts the rows of all of them, and
/// ends with a single commit of what it wrote.
pub proof fn put_commits_every_chunk_once(put: PutTableView, chunks: Seq<u64>)
    requires
        put.phase is Pulling,
    ensures
        ({
            let (last, actions) = put_run(put, chunks);
            &&& last == (PutTableView {
                phase: PutPhase::Finished,
                rows_written: put.rows_written + rows_of(chunks),
                ..put
            })
            &&& times(actions, PutAction::Write) == filled(chunks)
            &&& times(actions, PutAction::Commit) == 1
            &&& actions.len() >= 3
            &&& actions.skip(actions.len() - 3) == seq![
                PutAction::Close,
                PutAction::Commit,
                PutAction::Done,
            ]
        }),
    decreases chunks.len(),
{
    let (last, actions) = put_run(put, chunks);
    reveal_with_fuel(times, 4);
    if chunks.len() == 0 {
        assert(actions.drop_first().drop_first().drop_first().len() == 0);
        assert(actions.skip(0) =~= actions);
    } else {
        let rest = chunks.drop_first();
        let (pulled, first) = put_step(put, PutEvent::Pulled(chunks[0]));
        if chunks[0] == 0 {
            put_commits_every_chunk_once(pulled, rest);
            let (_, others) = put_run(pulled, rest);
            assert(actions == seq![first] + others);
            assert(actions.drop_first() =~= others);
            assert(actions.skip(actions.len() - 3) =~= others.skip(others.len() - 3));
        } else {
            let (written, again) = put_step(pulled, PutEvent::Written);
            put_commits_every_chunk_once(written, rest);
            let (_, others) = put_run(written, rest);
            assert(actions == seq![first, again] + others);
            assert(actions.drop_first().drop_first() =~= others);
            assert(actions.drop_first()[0] == again);
            assert(actions.skip(actions.len() - 3) =~= others.skip(others.len() - 3));
        }
    }
}

/// The chunks that a write writes, of those that it pulls one after the other.
pub open spec fn put_written<T>(put: PutTableView, chunks: Seq<Seq<T>>) -> Seq<Seq<T>>
    decreases chunks.len(),
{
    if chunks.len() == 0 {
        Seq::empty()
    } else {
        let (pulled, action) = put_step(put, PutEvent::Pulled(chunks[0].len() as u64));
        if action is Write {
            let (written, _) = put_step(pulled, PutEvent::Written);
            seq![chunks[0]] + put_written(written, chunks.drop_first())
        } else {
            put_written(pulled, chunks.drop_first())
        }
    }
}

/// A write writes the rows of its chunks, in order, each once.
pub proof fn put_writes_every_row_once<T>(put: PutTableView, chunks: Seq<Seq<T>>)
    requires
        put.phase is Pulling,
        forall|i: int| 0 <= i < chunks.len() ==> (#[trigger] chunks[i]).len() <= u64::MAX,
    ensures
        put_written(put, chunks).flatten() == chunks.flatten(),
    decreases chunks.len(),
{
    if chunks.len() > 0 {
        let first = chunks[0];
        let rest = chunks.drop_first();
        assert forall|i: int| 0 <= i < rest.len() implies (#[trigger] rest[i]).len()
            <= u64::MAX by {
            assert(rest[i] == chunks[i + 1]);
        }
        let (pulled, action) = put_step(put, PutEvent::Pulled(first.len() as u64));
        assert(chunks.flatten() == first + rest.flatten());
        if action is Write {
            let (written, _) = put_step(pulled, PutEvent::Written);
            put_writes_every_row_once(written, rest);
            let all = put_written(put, chunks);
            assert(all.first() == first);
            assert(all.drop_first() =~= put_written(written, rest));
            assert(all.flatten() == first + put_written(written, rest).flatten());
        } else {
            assert(first.len() == 0);
            put_writes_every_row_once(pulled, rest);
            assert(first + rest.flatten() =~= rest.flatten());
        }
    }
}

/// The rows of the pages of a run.
pub open spec fn rows_in_pages<T>(run: Seq<(Seq<T>, Option<nat>)>) -> Seq<T> {
    run.map_values(|page: (Seq<T>, Option<nat>)| page.0).flatten()
}

/// A scan from the start yields the rows of the table, in order, each once.
pub proof fn scan_yields_every_row_once<T>(batches: Seq<Seq<T>>, held: Seq<T>)
    requires
        countable(batches),
    ensures
        rows_in_pages(
            scan_run(ScanView { offset: 0, phase: ScanPhaseView::Seeking(0) }, held, batches),
        ) == batches.flatten(),
{
    let scan = ScanView { offset: 0, phase: ScanPhaseView::Seeking(0) };
    let run = scan_run(scan, held, batches);
    scan_yields_what_is_resumed(batches, 0, 0, held);
    resumed_scan_yields_the_rest(batches, 0, 0);
    assert(run.map_values(|page: (Seq<T>, Option<nat>)| page.0) =~= resumed(batches, 0, 0));
    assert(batches.flatten().skip(0) =~= batches.flatten());
}

/// What is put is scanned: where a table holds what it held and what a write wrote into it, in
/// whatever order and batches, a scan from the start yields the rows that were there and those
/// of the dataset, each once.
pub proof fn written_rows_are_scanned<T>(
    put: PutTableView,
    chunks: Seq<Seq<T>>,
    before: Seq<T>,
    batches: Seq<Seq<T>>,
    held: Seq<T>,
)
    requires
        put.phase is Pulling,
        forall|i: int| 0 <= i < chunks.len() ==> (#[trigger] chunks[i]).len() <= u64::MAX,
        countable(batches),
        batches.flatten().to_multiset() == (before + put_written(
            put,
            chunks,
        ).flatten()).to_multiset(),
    ensures
        rows_in_pages(
            scan_run(ScanView { offset: 0, phase: ScanPhaseView::Seeking(0) }, held, batches),
        ).to_multiset() == (before + chunks.flatten()).to_multiset(),
{
    put_writes_every_row_once(put, chunks);
    scan_yields_every_row_once(batches, held);
}

/// Different moments give different file prefixes.
pub proof fn file_prefixes_differ(a: nat, b: nat)
    requires
        a != b,
    ensures
        "strata-"@ + text::decimal(a) != "strata-"@ + text::decimal(b),
{
    if "strata-"@ + text::decimal(a) == "strata-"@ + text::decimal(b) {
        let n = "strata-"@.len() as int;
        assert(("strata-"@ + text::decimal(a)).skip(n) =~= text::decimal(a));
        assert(("strata-"@ + text::decimal(b)).skip(n) =~= text::decimal(b));
        text::lemma_decimal_tells_apart(a, b);
    }
}

// === The provider ===

impl Provider for Iceberg {
    open spec fn backend() -> Seq<char> {
        "iceberg"@
    }

    open spec fn routes() -> Seq<EndpointView> {
        seq![
            router::offset_list("/tables"@),
            router::bare(Method::Get, "/tables/:table/info"@),
            router::bare(Method::Put, "/tables/:table"@),
            router::offset_list("/tables/:table"@),
        ]
    }

    fn name() -> (r: &'static str) {
        "iceberg"
    }

    /// The warehouse in the configured directory, reached from the directory that the driver
    /// runs in where it is not absolute.
    fn new(config: &ProviderConfig) -> (r: Result<Self, Failure>)
        ensures
            r is Ok,
            r->Ok_0.dir@ == reached(
                config@.param(CURRENT_DIR@),
                if config@.param("warehouse"@).len() == 0 {
                    DEFAULT_WAREHOUSE@
                } else {
                    config@.param("warehouse"@)
                },
            ),
            r->Ok_0.warehouse@ == "file://"@ + r->Ok_0.dir@,
            r->Ok_0.db_uri@ == "sqlite://"@ + r->Ok_0.dir@ + "/catalog.db?mode=rwc"@,
    {
        let configured = config.param("warehouse");
        let current = config.param(CURRENT_DIR);
        Ok(Iceberg::located(configured.as_str(), current.as_str()))
    }

    fn register(router: &mut Router) {
        let ghost before = router@;
        router.add(EndpointInfo::new(Method::List, "/tables").strategy(ListStrategy::Offset));
        router.add(EndpointInfo::new(Method::Get, "/tables/:table/info"));
        router.add(EndpointInfo::new(Method::Put, "/tables/:table"));
        router.add(
            EndpointInfo::new(Method::List, "/tables/:table").strategy(ListStrategy::Offset),
        );
        assert(router@ =~= before + Self::routes());
    }
}


// === Laws of the warehouse, the listing and the sink ===

/// A warehouse that is absolute is where it says; any other is below the directory it is reached
/// from, with one slash between the two.
pub proof fn warehouses_are_reached(dir: Seq<char>, path: Seq<char>)
    ensures
        path.len() > 0 && path[0] == '/' ==> reached(dir, path) == path,
        !(path.len() > 0 && path[0] == '/') ==> {
            let whole = reached(dir, path);
            &&& dir.is_prefix_of(whole)
            &&& path.is_suffix_of(whole)
            &&& dir.len() > 0 ==> whole[whole.len() - path.len() - 1] == '/'
            &&& whole.len() == dir.len() + path.len() + if dir.len() == 0 || dir.last() == '/' {
                0int
            } else {
                1int
            }
        },
{
    reveal_strlit("/");
    let whole = reached(dir, path);
    if !(path.len() > 0 && path[0] == '/') {
        assert(whole.subrange(0, dir.len() as int) =~= dir);
        assert(whole.subrange(whole.len() - path.len(), whole.len() as int) =~= path);
    }
}

/// A page of the listing holds as many names as were asked for, up to a thousand; twenty where
/// none were.
pub proof fn listing_pages_are_bounded(asked: Option<u32>)
    ensures
        asked is None ==> listing_limit(asked) == 20,
        asked is Some && asked->0 <= 1000 ==> listing_limit(asked) == asked->0,
        asked is Some && asked->0 > 1000 ==> listing_limit(asked) == 1000,
{
}

/// A page of the listing is the names from its offset on, up to its size, in order. It has a
/// cursor just where names are left, and the cursor resumes at the first of them.
pub proof fn listing_pages_resume_at_the_first_left(
    items: Seq<TableName>,
    cursor: CursorView,
    names: Seq<Seq<char>>,
    offset: u32,
    limit: u32,
)
    requires
        lists(items, cursor, names, offset, limit),
        offset + limit <= u32::MAX,
    ensures
        text::sorted(table::listed(items)),
        items.len() == if offset >= names.len() {
            0
        } else if names.len() - offset < limit {
            (names.len() - offset) as nat
        } else {
            limit as nat
        },
        offset + items.len() < names.len() ==> cursor == page::cursor_to(
            page::offset_state((offset + items.len()) as u32),
        ),
        offset + items.len() >= names.len() ==> cursor == page::no_cursor(),
        forall|i: int|
            0 <= i < items.len() ==> names.contains(#[trigger] table::listed(items)[i]),
        exists|ordered: Seq<Seq<char>>|
            {
                &&& text::sorted(ordered)
                &&& ordered.to_multiset() == names.to_multiset()
                &&& forall|i: int|
                    0 <= i < items.len() ==> #[trigger] table::listed(items)[i] == ordered[offset
                        + i]
            },
{
    broadcast use vstd::seq_lib::group_to_multiset_ensures;

    let ordered = choose|ordered: Seq<Seq<char>>|
        {
            &&& text::sorted(ordered)
            &&& ordered.to_multiset() == names.to_multiset()
            &&& table::listed(items) == #[trigger] paging::window(
                ordered,
                offset as nat,
                limit as nat,
            )
            &&& cursor == if offset + items.len() < names.len() {
                page::cursor_to(page::offset_state((offset + limit) as u32))
            } else {
                page::no_cursor()
            }
        };
    let shown = table::listed(items);
    assert(ordered.len() == names.len()) by {
        assert(ordered.to_multiset().len() == ordered.len());
        assert(names.to_multiset().len() == names.len());
    }
    assert(shown.len() == items.len());
    assert forall|i: int| 0 <= i < items.len() implies #[trigger] shown[i] == ordered[offset
        + i] by {}
    assert forall|i: int, j: int| 0 <= i <= j < shown.len() implies text::ordered(
        #[trigger] shown[i],
        #[trigger] shown[j],
    ) by {
        assert(shown[i] == ordered[offset + i] && shown[j] == ordered[offset + j]);
    }
    assert forall|i: int| 0 <= i < items.len() implies names.contains(#[trigger] shown[i]) by {
        assert(ordered.contains(ordered[offset + i]));
        assert(ordered.to_multiset().count(shown[i]) > 0);
    }
}

/// A dataset is taken where it has columns and is to be appended, whether that is said or not;
/// merging is refused ahead of anything else, and an unknown disposition by its own message.
pub proof fn only_appends_are_admitted(disposition: Option<Seq<char>>, fields: Seq<FieldView>)
    ensures
        admitted(disposition, fields) is Ok <==> (disposition is None || disposition
            == Some("append"@)) && fields.len() > 0,
        disposition == Some("merge"@) || disposition == Some("upsert"@) ==> admitted(
            disposition,
            fields,
        ) == Err::<(), Seq<char>>(
            "iceberg sink supports only `append` (merge is not yet implemented)"@,
        ),
        (disposition is None || disposition == Some("append"@)) && fields.len() == 0 ==> admitted(
            disposition,
            fields,
        ) == Err::<(), Seq<char>>("dataset schema has no columns"@),
        disposition is Some && disposition != Some("append"@) && disposition != Some("merge"@)
            && disposition != Some("upsert"@) ==> admitted(disposition, fields) == Err::<
            (),
            Seq<char>,
        >("unknown write disposition `"@ + disposition->0 + "` (append|merge)"@),
{
    if disposition is Some {
        crate::dataset::words_select_a_disposition(disposition->0);
    }
}

/// A write opens its table before it pulls: it looks for the namespace and creates it where it is
/// absent, then looks for the table and loads or creates it, and only then pulls. It has written
/// nothing by then.
pub proof fn writes_open_their_table_first(put: PutTableView, namespace: bool, there: bool)
    requires
        put.phase is FindingNamespace,
    ensures
        ({
            let (found, first) = put_step(put, PutEvent::Namespace(namespace));
            let (ready, second) = if namespace {
                (found, first)
            } else {
                put_step(found, PutEvent::NamespaceCreated)
            };
            let (opening, third) = put_step(ready, PutEvent::Table(there));
            let (open, fourth) = put_step(opening, PutEvent::Opened);
            &&& !namespace ==> first is CreateNamespace
            &&& second is FindTable
            &&& there ==> third is LoadTable
            &&& !there ==> third is CreateTable
            &&& fourth is Pull
            &&& open.phase is Pulling
            &&& open.table == put.table
            &&& open.rows_written == put.rows_written
            &&& open.created == !there
        }),
{
}

/// A pull that fails ends a scan: the failure is handed on, what was held is not yielded, and
/// nothing follows.
pub proof fn failed_scans_end(scan: ScanView, pulled: Pulled)
    ensures
        !(scan.phase is Finished) ==> scan_step(scan, Pulled::Failed).1 is Fail,
        scan_step(scan, Pulled::Failed).0.phase is Finished,
        scan_step(scan, Pulled::End).0.phase is Finished,
        scan.phase is Seeking ==> scan_step(scan, Pulled::End).1 is Done,
        scan.phase is Finished ==> scan_step(scan, pulled) == (scan, ScanActionView::Done),
{
}


/// A page that a scan yields has a cursor that resumes at the row behind it, and the last page has
/// none; what is begun is begun behind as many rows as there are ahead of the row to resume at.
pub proof fn scan_pages_resume_behind_themselves(action: ScanAction, row: u32)
    ensures
        is_action(action, ScanActionView::Yield(Some(row as nat))) <==> action is Yield
            && action->Yield_0@ == page::cursor_to(page::offset_state(row)),
        is_action(action, ScanActionView::Yield(None)) <==> action is Yield && action->Yield_0@
            == page::no_cursor(),
        is_action(action, ScanActionView::Begin(row as nat)) <==> action == ScanAction::Begin(row),
        is_action(action, ScanActionView::Skip) <==> action is Skip,
        is_action(action, ScanActionView::Fail) <==> action is Fail,
        is_action(action, ScanActionView::Done) <==> action is Done,
{
}

/// A page is refused only where names follow it that no offset can name.
pub proof fn offsets_reach_every_name(names: nat, offset: u32, limit: u32)
    ensures
        names <= u32::MAX ==> !beyond_reach(names, offset, limit),
        offset + limit <= u32::MAX ==> !beyond_reach(names, offset, limit),
        beyond_reach(names, offset, limit) ==> offset + limit < names,
{
}

/// The provider lists its tables and the rows of a table, tells of a table, and writes rows into
/// it, and is called by its name. What it lists is walked by offset.
pub proof fn iceberg_answers_for_its_tables()
    ensures
        Iceberg::backend() == "iceberg"@,
        Iceberg::routes().len() == 4,
        Iceberg::routes()[0].method == Method::List && Iceberg::routes()[0].path == "/tables"@,
        Iceberg::routes()[1].method == Method::Get && Iceberg::routes()[1].path
            == "/tables/:table/info"@,
        Iceberg::routes()[2].method == Method::Put && Iceberg::routes()[2].path
            == "/tables/:table"@,
        Iceberg::routes()[3].method == Method::List && Iceberg::routes()[3].path
            == "/tables/:table"@,
        forall|i: int|
            0 <= i < 4 ==> ((#[trigger] Iceberg::routes()[i]).metadata.strategy == Some(
                ListStrategy::Offset,
            ) <==> Iceberg::routes()[i].method == Method::List),
{
}

} // verus!
