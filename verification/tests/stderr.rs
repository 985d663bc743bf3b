use ai::stderr::{restoring_steps, silencing_steps, suppress_stderr, FdStep};
use std::collections::BTreeMap;

type Table = BTreeMap<i32, &'static str>;

fn perform(mut table: Table, step: FdStep) -> Table {
    match step {
        FdStep::Redirect { from, to } => {
            let file = table[&from];
            table.insert(to, file);
        }
        FdStep::Close { fd } => {
            table.remove(&fd);
        }
    }
    table
}

fn table(entries: &[(i32, &'static str)]) -> Table {
    entries.iter().copied().collect()
}

#[test]
fn stream_is_silenced_and_restored() {
    let start = table(&[(1, "out"), (2, "err"), (3, "null"), (4, "err")]);
    let (end, answer) = suppress_stderr(start, Some(3), 4, &perform, |silent: Table| {
        assert_eq!(silent[&2], "null");
        (silent, 42)
    });
    assert_eq!(answer, 42);
    assert_eq!(end, table(&[(1, "out"), (2, "err"), (3, "null")]));
}

#[test]
fn without_a_null_device_the_stream_stays() {
    let start = table(&[(2, "err"), (4, "err")]);
    let (end, ()) = suppress_stderr(start, None, 4, &perform, |silent: Table| {
        assert_eq!(silent[&2], "err");
        (silent, ())
    });
    assert_eq!(end, table(&[(2, "err")]));
}

#[test]
fn without_a_copy_the_stream_stays() {
    let start = table(&[(2, "err"), (3, "null")]);
    let (end, ()) = suppress_stderr(start.clone(), Some(3), -1, &perform, |silent: Table| {
        assert_eq!(silent[&2], "err");
        (silent, ())
    });
    assert_eq!(end, start);
}

#[test]
fn platform_without_descriptors() {
    let no_step = |(), _: FdStep| panic!("no step");
    let ((), answer) = suppress_stderr((), None, -1, &no_step, |()| ((), 7));
    assert_eq!(answer, 7);
}

#[test]
fn what_the_call_does_stays() {
    let start = table(&[(2, "err"), (3, "null"), (4, "err")]);
    let (end, ()) = suppress_stderr(start, Some(3), 4, &perform, |mut silent: Table| {
        silent.insert(9, "log");
        (silent, ())
    });
    assert_eq!(end, table(&[(2, "err"), (3, "null"), (9, "log")]));
}

#[test]
fn steps() {
    assert_eq!(silencing_steps(Some(5), 6), vec![FdStep::Redirect { from: 5, to: 2 }]);
    assert_eq!(silencing_steps(Some(5), 0), vec![FdStep::Redirect { from: 5, to: 2 }]);
    assert_eq!(silencing_steps(Some(5), -1), vec![]);
    assert_eq!(silencing_steps(None, 6), vec![]);
    assert_eq!(
        restoring_steps(6),
        vec![FdStep::Redirect { from: 6, to: 2 }, FdStep::Close { fd: 6 }]
    );
    assert_eq!(restoring_steps(0).len(), 2);
    assert_eq!(restoring_steps(-1), vec![]);
}
