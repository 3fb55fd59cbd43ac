use strata::catalog::Catalog;
use strata::cli::{
    catalog_keys, followed_page, method, page_display, piped, plan_call, rows_written, strip_query,
    CallPlan, Verb,
};
use strata::dataset::Disposition;
use strata::error::Failure;
use strata::json::Json;
use strata::page::{Cursor, ListStrategy};
use strata::pipe::store::{NoPipeStore, PipeStore};
use strata::pipe::sync::{advance, BatchPage, Progress};
use strata::pipe::{ends, label, Action, Endpoint, Event, Pass, Pipe, POLL_INTERVAL};
use strata::registry::Registry;
use strata::router::Method;

fn json(text: &str) -> Json {
    Json::from_text(text).unwrap()
}

fn chunk(rows: usize, next: Option<&str>) -> BatchPage {
    let next = next.map(|n| n.to_string());
    BatchPage { rows, cursor: Some(Cursor { next, total: None }) }
}

fn pipe(cursor: Option<&str>) -> Pipe {
    Pipe {
        id: 9,
        source: Endpoint::new("hn", "/items?x=1"),
        destination: Endpoint::new("lake", "/tables/headlines"),
        cursor: cursor.map(|c| c.to_string()),
    }
}

/// Drives a pass over the chunks; gives what was done, and the pass.
fn drive(
    pipe: Pipe,
    strategy: Option<ListStrategy>,
    disposition: Disposition,
    chunks: Vec<BatchPage>,
) -> Result<(Vec<String>, Pass), Failure> {
    let mut log = Vec::new();
    let mut chunks = chunks.into_iter();
    let (mut pass, mut action) = Pass::new(pipe);
    loop {
        let event = match action {
            Action::Resolve => Event::Resolved(strategy, disposition),
            Action::Read(path) => {
                log.push(format!("read {path}"));
                Event::Opened
            }
            Action::Pull => match chunks.next() {
                Some(chunk) => Event::Pulled(chunk),
                None => Event::Ended,
            },
            Action::Write(path) => {
                log.push(format!("write {path}"));
                Event::Written
            }
            Action::Checkpoint(cursor) => {
                log.push(format!("checkpoint {}", cursor.as_deref().unwrap_or("-")));
                NoPipeStore.checkpoint(pass.pipe.id, cursor).unwrap();
                Event::Checkpointed
            }
            Action::Done => return Ok((log, pass)),
        };
        action = pass.step(event)?;
    }
}

#[test]
fn a_pass_writes_what_it_pulls() {
    let chunks = vec![chunk(10, Some("a")), chunk(10, Some("b")), chunk(5, None)];
    let (log, pass) =
        drive(pipe(Some("z")), Some(ListStrategy::Offset), Disposition::Merge, chunks).unwrap();
    assert_eq!(
        log,
        [
            "read /items?x=1&cursor=z",
            "write /tables/headlines?disposition=merge",
            "checkpoint a",
            "write /tables/headlines?disposition=merge",
            "checkpoint b",
            "write /tables/headlines?disposition=merge",
            "checkpoint -",
        ]
    );
    assert_eq!(pass.total, 25);
    assert_eq!(pass.pipe.cursor, None);
    assert_eq!(pass.pipe.id, 9);
    assert_eq!(pass.pipe.source.path, "/items?x=1");
}

#[test]
fn piping_the_same_keyed_rows_again_adds_none() {
    let rows = [vec![(1, "a"), (2, "b")], vec![(3, "c"), (2, "d")]];
    let chunks = || vec![chunk(2, Some("n")), chunk(2, None)];
    for (disposition, word, second) in
        [(Disposition::Append, "append", "b"), (Disposition::Merge, "merge", "d")]
    {
        let mut table = std::collections::BTreeMap::new();
        let mut place = Pipe { cursor: None, ..pipe(None) };
        let mut first = Vec::new();
        for time in 0..2 {
            let (log, pass) =
                drive(place, Some(ListStrategy::Offset), disposition, chunks()).unwrap();
            let sink = format!("write /tables/headlines?disposition={word}");
            let written = log.iter().filter(|line| **line == sink).count();
            assert_eq!(written, 2);
            for (key, row) in rows[..written].concat() {
                if disposition == Disposition::Merge || !table.contains_key(&key) {
                    table.insert(key, row);
                }
            }
            assert_eq!(table.iter().collect::<Vec<_>>(), [(&1, &"a"), (&2, &second), (&3, &"c")]);
            // The walk is over, and starts over.
            assert_eq!(pass.pipe.cursor, None);
            if time == 0 {
                first = log;
            } else {
                assert_eq!(log, first);
            }
            place = pass.pipe;
        }
    }
}

#[test]
fn a_next_link_pass_stops_at_an_empty_page() {
    let chunks = vec![chunk(3, Some("a")), chunk(0, Some("b")), chunk(7, Some("c"))];
    let (log, pass) =
        drive(pipe(None), Some(ListStrategy::NextLink), Disposition::Append, chunks).unwrap();
    assert_eq!(
        log,
        [
            "read /items?x=1",
            "write /tables/headlines?disposition=append",
            "checkpoint a",
            "checkpoint b",
        ]
    );
    assert_eq!(pass.total, 3);
    assert_eq!(pass.pipe.cursor.as_deref(), Some("b"));
}

#[test]
fn a_pass_ends_with_its_stream() {
    let chunks = vec![chunk(3, Some("a"))];
    let (_, pass) =
        drive(pipe(None), Some(ListStrategy::Offset), Disposition::Append, chunks).unwrap();
    assert_eq!(pass.total, 3);
    assert_eq!(pass.pipe.cursor.as_deref(), Some("a"));
}

#[test]
fn a_source_must_be_a_list() {
    let failure = drive(pipe(None), None, Disposition::Append, Vec::new()).unwrap_err();
    assert_eq!(
        failure.text(),
        "source `hn/items?x=1` is not a list endpoint (no sync strategy)"
    );
}

#[test]
fn a_walk_advances_by_its_strategy() {
    let go = |strategy, rows, next| match advance(strategy, &chunk(rows, next)) {
        Progress::Continue(token) => format!("on {token}"),
        Progress::CaughtUp(resume) => format!("stop {}", resume.as_deref().unwrap_or("-")),
    };
    assert_eq!(go(ListStrategy::Offset, 1, Some("t")), "on t");
    assert_eq!(go(ListStrategy::Offset, 0, Some("t")), "on t");
    assert_eq!(go(ListStrategy::Offset, 1, None), "stop -");
    assert_eq!(go(ListStrategy::NextLink, 1, Some("t")), "on t");
    assert_eq!(go(ListStrategy::NextLink, 0, Some("t")), "stop t");
    assert_eq!(go(ListStrategy::NextLink, 1, None), "stop -");
    let bare = BatchPage { rows: 1, cursor: None };
    assert!(matches!(advance(ListStrategy::Offset, &bare), Progress::CaughtUp(None)));
}

#[test]
fn pipes_are_labelled() {
    assert_eq!(label(&pipe(None)), "hn/items?x=1 -> lake/tables/headlines");
    assert_eq!(piped(&pipe(None)), "piped hn/items?x=1 -> lake/tables/headlines");
    assert_eq!(POLL_INTERVAL, 5);
    let (source, destination) = catalog_keys(&pipe(None));
    assert_eq!((source.mount.as_str(), source.path.as_str()), ("hn", "/items"));
    assert_eq!(destination.path, "/tables/headlines");
    assert_eq!(strip_query("/a?b?c"), "/a");
    assert_eq!(strip_query("/a"), "/a");
    let kept = Catalog::new("hn").endpoint("/items");
    assert_eq!((kept.mount.as_str(), kept.path.as_str()), ("hn", "/items"));
}

#[test]
fn calls_are_planned() {
    assert_eq!(plan_call(Verb::List, true).unwrap(), CallPlan::Follow);
    assert_eq!(plan_call(Verb::List, false).unwrap(), CallPlan::First);
    assert_eq!(plan_call(Verb::Get, false).unwrap(), CallPlan::Ask);
    assert_eq!(plan_call(Verb::Create, false).unwrap(), CallPlan::Create);
    for verb in [Verb::Get, Verb::Create] {
        assert_eq!(
            plan_call(verb, true).unwrap_err().text(),
            "--follow only applies to `list`"
        );
    }
    assert_eq!(method(Verb::Get), Method::Get);
    assert_eq!(method(Verb::List), Method::List);
    assert_eq!(method(Verb::Create), Method::Create);
}

#[test]
fn pages_are_shown() {
    let cursor = Cursor::at(2);
    assert_eq!(
        page_display(Some((vec![json("{\"a\":1}")], Some(cursor)))).text(),
        r#"{"cursor":{"next":"{\"offset\":2}","total":null},"items":[{"a":1}]}"#
    );
    assert_eq!(page_display(None).text(), r#"{"cursor":null,"items":[]}"#);
    assert_eq!(
        followed_page(3, vec![json("1")], None).text(),
        r#"{"cursor":null,"items":[1],"page":3}"#
    );
}

#[test]
fn written_rows_are_reported() {
    assert_eq!(rows_written(&json("{\"rows_written\":7}"), 10), 7);
    assert_eq!(rows_written(&json("{\"rows_written\":-7}"), 10), 10);
    assert_eq!(rows_written(&json("{}"), 10), 10);
    assert_eq!(rows_written(&json("null"), 10), 10);
}

#[test]
fn the_source_of_a_pipe_is_looked_up_first() {
    let pipe = pipe(None);
    let mut registry = Registry::new();
    assert_eq!(
        ends(&registry, &pipe).unwrap_err().text(),
        format!("nothing mounted at `{}`. mounted: ", pipe.source.mount)
    );
    registry.mount_object(&pipe.source.mount, 1).unwrap();
    assert_eq!(
        ends(&registry, &pipe).unwrap_err().text(),
        format!(
            "nothing mounted at `{}`. mounted: {}",
            pipe.destination.mount, pipe.source.mount
        )
    );
    registry.mount_object(&pipe.destination.mount, 2).unwrap();
    assert_eq!(ends(&registry, &pipe).unwrap(), (&1, &2));
}
