//! Silencing the standard error stream while something noisy runs.

use vstd::prelude::*;

verus! {

/// The file descriptor of the standard error stream.
pub const STDERR: i32 = 2;

/// A change to the table of open file descriptors.
#[derive(Debug, Clone, Copy, PartialEq, Eq, Structural)]
pub enum FdStep {
    /// Make `to` refer to what `from` refers to.
    Redirect { from: i32, to: i32 },
    /// Close `fd`.
    Close { fd: i32 },
}

/// The steps that silence the stream, given the descriptor of the null device,
/// where that could be opened, and a copy of the stream's own; the copy is
/// negative where none could be made. Without a copy the stream could not be
/// brought back, so it is left alone.
pub open spec fn silencing(null_device: Option<i32>, saved: i32) -> Seq<FdStep> {
    match null_device {
        Some(fd) => if saved >= 0 {
            seq![FdStep::Redirect { from: fd, to: STDERR }]
        } else {
            seq![]
        },
        None => seq![],
    }
}

/// The steps that bring the stream back, given a copy of its descriptor, where
/// one could be made.
pub open spec fn restoring(saved: i32) -> Seq<FdStep> {
    if saved >= 0 {
        seq![FdStep::Redirect { from: saved, to: STDERR }, FdStep::Close { fd: saved }]
    } else {
        seq![]
    }
}

/// The table of open file descriptors after a step. What a descriptor refers to
/// is known by a number.
pub open spec fn after_step(table: Map<i32, int>, step: FdStep) -> Map<i32, int> {
    match step {
        FdStep::Redirect { from, to } => if table.dom().contains(from) {
            table.insert(to, table[from])
        } else {
            table
        },
        FdStep::Close { fd } => table.remove(fd),
    }
}

/// The table of open file descriptors after some steps.
pub open spec fn after_steps(table: Map<i32, int>, steps: Seq<FdStep>) -> Map<i32, int>
    decreases steps.len(),
{
    if steps.len() == 0 {
        table
    } else {
        after_step(after_steps(table, steps.drop_last()), steps.last())
    }
}

/// The steps that silence the stream.
pub fn silencing_steps(null_device: Option<i32>, saved: i32) -> (steps: Vec<FdStep>)
    ensures
        steps@ == silencing(null_device, saved),
{
    let mut steps: Vec<FdStep> = Vec::new();
    if let Some(fd) = null_device {
        if saved >= 0 {
            steps.push(FdStep::Redirect { from: fd, to: STDERR });
        }
    }
    assert(steps@ =~= silencing(null_device, saved));
    steps
}

/// The steps that bring the stream back.
pub fn restoring_steps(saved: i32) -> (steps: Vec<FdStep>)
    ensures
        steps@ == restoring(saved),
{
    let mut steps: Vec<FdStep> = Vec::new();
    if saved >= 0 {
        steps.push(FdStep::Redirect { from: saved, to: STDERR });
        steps.push(FdStep::Close { fd: saved });
    }
    assert(steps@ =~= restoring(saved));
    steps
}

/// Whether performing `steps` in turn may take the descriptors through `states`.
pub open spec fn may_pass<D, P: Fn(D, FdStep) -> D>(
    perform: P,
    states: Seq<D>,
    steps: Seq<FdStep>,
) -> bool {
    &&& states.len() == steps.len() + 1
    &&& forall|i: int|
        0 <= i < steps.len() ==> perform.ensures((states[i], #[trigger] steps[i]), states[i + 1])
}

/// Whether performing `steps` in turn may take the descriptors from `before` to
/// `after`.
pub open spec fn may_lead<D, P: Fn(D, FdStep) -> D>(
    perform: P,
    before: D,
    steps: Seq<FdStep>,
    after: D,
) -> bool {
    exists|states: Seq<D>|
        {
            &&& #[trigger] may_pass(perform, states, steps)
            &&& states.first() == before
            &&& states.last() == after
        }
}

/// Performs `steps` in turn.
fn perform_all<D, P: Fn(D, FdStep) -> D>(
    perform: &P,
    descriptors: D,
    steps: &Vec<FdStep>,
) -> (after: D)
    requires
        forall|descriptors: D, step: FdStep|
            steps@.contains(step) ==> #[trigger] perform.requires((descriptors, step)),
    ensures
        may_lead(*perform, descriptors, steps@, after),
{
    let ghost mut states: Seq<D> = seq![descriptors];
    let ghost start = descriptors;
    let mut now = descriptors;
    let mut i: usize = 0;
    while i < steps.len()
        invariant
            i <= steps.len(),
            may_pass(*perform, states, steps@.take(i as int)),
            states.first() == start,
            states.last() == now,
            forall|descriptors: D, step: FdStep|
                steps@.contains(step) ==> #[trigger] perform.requires((descriptors, step)),
        decreases steps.len() - i,
    {
        let step = steps[i];
        assert(steps@.contains(step));
        now = perform(now, step);
        proof {
            let done = steps@.take(i as int);
            let longer = states.push(now);
            assert(steps@.take(i + 1) =~= done.push(step));
            assert forall|k: int| 0 <= k < done.push(step).len() implies perform.ensures(
                (longer[k], #[trigger] done.push(step)[k]),
                longer[k + 1],
            ) by {
                if k < done.len() {
                    assert(done.push(step)[k] == done[k]);
                }
            }
            states = longer;
        }
        i += 1;
    }
    assert(steps@.take(i as int) =~= steps@);
    now
}

/// Whether opening what it takes to silence the stream, and then silencing it,
/// may take the descriptors from `before` to `silent`, with `saved` the copy of
/// the stream's own. `open` answers with the descriptors of the null device and
/// of the copy.
pub open spec fn silenced<
    D,
    O: Fn(D) -> (D, Option<i32>, i32),
    P: Fn(D, FdStep) -> D,
>(open: O, perform: P, before: D, silent: D, saved: i32) -> bool {
    exists|opened: D, null_device: Option<i32>|
        {
            &&& #[trigger] open.ensures((before,), (opened, null_device, saved))
            &&& may_lead(perform, opened, silencing(null_device, saved), silent)
        }
}

/// Calls `f` with the standard error stream silenced, and gives back what it
/// returns, with the descriptors as they are after the stream was brought back.
///
/// `perform` changes the open descriptors. `null_device` and `saved` are those of
/// the null device and of a copy of the stream, where the platform has such
/// descriptors and they could be had. The stream is silenced only where it can be
/// brought back.
pub fn suppress_stderr<D, T, P: Fn(D, FdStep) -> D, F: FnOnce(D) -> (D, T)>(
    descriptors: D,
    null_device: Option<i32>,
    saved: i32,
    perform: &P,
    f: F,
) -> (result: (D, T))
    requires
        forall|descriptors: D, step: FdStep|
            silencing(null_device, saved).contains(step) || restoring(saved).contains(step)
                ==> #[trigger] perform.requires((descriptors, step)),
        forall|silent: D|
            may_lead(*perform, descriptors, silencing(null_device, saved), silent)
                ==> #[trigger] f.requires((silent,)),
    ensures
        exists|silent: D, noisy: D, value: T|
            {
                &&& #[trigger] may_lead(
                    *perform,
                    descriptors,
                    silencing(null_device, saved),
                    silent,
                )
                &&& #[trigger] f.ensures((silent,), (noisy, value))
                &&& may_lead(*perform, noisy, restoring(saved), result.0)
                &&& value == result.1
            },
{
    let before = silencing_steps(null_device, saved);
    let after = restoring_steps(saved);
    let silent = perform_all(perform, descriptors, &before);
    let (noisy, value) = f(silent);
    let restored = perform_all(perform, noisy, &after);
    (restored, value)
}

/// Whether each step that `perform` takes changes the table of open descriptors as
/// it should.
pub open spec fn performs<D, P: Fn(D, FdStep) -> D>(
    perform: P,
    table: spec_fn(D) -> Map<i32, int>,
) -> bool {
    forall|from: D, step: FdStep, to: D| #[trigger]
        perform.ensures((from, step), to) ==> table(to) == after_step(table(from), step)
}

/// Where each step changes the table of open descriptors as it should, so do
/// several in turn.
pub proof fn law_steps_change_the_table<D, P: Fn(D, FdStep) -> D>(
    perform: P,
    table: spec_fn(D) -> Map<i32, int>,
    before: D,
    steps: Seq<FdStep>,
    after: D,
)
    requires
        may_lead(perform, before, steps, after),
        performs(perform, table),
    ensures
        table(after) == after_steps(table(before), steps),
{
    let states = choose|states: Seq<D>|
        {
            &&& #[trigger] may_pass(perform, states, steps)
            &&& states.first() == before
            &&& states.last() == after
        };
    lemma_passed_table(perform, table, states, steps, steps.len() as int);
    assert(steps.take(steps.len() as int) =~= steps);
}

proof fn lemma_passed_table<D, P: Fn(D, FdStep) -> D>(
    perform: P,
    table: spec_fn(D) -> Map<i32, int>,
    states: Seq<D>,
    steps: Seq<FdStep>,
    n: int,
)
    requires
        0 <= n <= steps.len(),
        may_pass(perform, states, steps),
        performs(perform, table),
    ensures
        table(states[n]) == after_steps(table(states[0]), steps.take(n)),
    decreases n,
{
    if n > 0 {
        lemma_passed_table(perform, table, states, steps, n - 1);
        assert(steps.take(n).drop_last() =~= steps.take(n - 1));
        assert(perform.ensures((states[n - 1], steps[n - 1]), states[n - 1 + 1]));
    }
}

/// While it is silenced, the stream goes to the null device.
pub proof fn law_silenced_stream_goes_to_the_null_device(
    table: Map<i32, int>,
    null_device: i32,
    saved: i32,
)
    requires
        saved >= 0,
        table.dom().contains(null_device),
    ensures
        after_steps(table, silencing(Some(null_device), saved)) == table.insert(
            STDERR,
            table[null_device],
        ),
{
    let steps = silencing(Some(null_device), saved);
    assert(steps.drop_last() =~= seq![]);
    assert(after_steps(table, seq![]) == table);
}

/// The table of open descriptors with a copy of the stream, where one could be
/// made.
pub open spec fn with_copy(table: Map<i32, int>, saved: i32) -> Map<i32, int> {
    if saved >= 0 {
        table.insert(saved, table[STDERR])
    } else {
        table
    }
}

/// Silencing the stream and bringing it back leaves the table of open
/// descriptors as it was before the copy of the stream was made, also where none
/// could be made.
pub proof fn law_stream_is_restored(
    table: Map<i32, int>,
    null_device: Option<i32>,
    saved: i32,
)
    requires
        saved >= 0 ==> table.dom().contains(STDERR) && !table.dom().contains(saved),
        null_device matches Some(fd) ==> table.dom().contains(fd),
    ensures
        after_steps(
            after_steps(with_copy(table, saved), silencing(null_device, saved)),
            restoring(saved),
        ) == table,
{
    let start = with_copy(table, saved);
    let silent = after_steps(start, silencing(null_device, saved));
    if saved >= 0 {
        if let Some(fd) = null_device {
            law_silenced_stream_goes_to_the_null_device(start, fd, saved);
        }
        assert(silent.dom().contains(saved) && silent[saved] == table[STDERR]);
        let steps = restoring(saved);
        let first = steps.drop_last();
        assert(first =~= seq![FdStep::Redirect { from: saved, to: STDERR }]);
        assert(first.drop_last() =~= seq![]);
        assert(after_steps(silent, seq![]) == silent);
        assert(after_steps(silent, first) == silent.insert(STDERR, table[STDERR]));
        assert(after_steps(silent, steps) == silent.insert(STDERR, table[STDERR]).remove(saved));
        assert(after_steps(silent, steps) =~= table);
    }
}

/// The stream is silenced only for the time of the call: where each step changes
/// the table of open descriptors as it should, and the call leaves the table as it
/// finds it, the table after the call is the one from before the copy of the
/// stream was made.
pub proof fn law_suppression_is_temporary<D, P: Fn(D, FdStep) -> D>(
    perform: P,
    table: spec_fn(D) -> Map<i32, int>,
    original: Map<i32, int>,
    null_device: Option<i32>,
    saved: i32,
    descriptors: D,
    silent: D,
    noisy: D,
    after: D,
)
    requires
        may_lead(perform, descriptors, silencing(null_device, saved), silent),
        table(noisy) == table(silent),
        may_lead(perform, noisy, restoring(saved), after),
        performs(perform, table),
        table(descriptors) == with_copy(original, saved),
        saved >= 0 ==> original.dom().contains(STDERR) && !original.dom().contains(saved),
        null_device matches Some(fd) ==> original.dom().contains(fd),
    ensures
        table(after) == original,
{
    law_steps_change_the_table(
        perform,
        table,
        descriptors,
        silencing(null_device, saved),
        silent,
    );
    law_steps_change_the_table(perform, table, noisy, restoring(saved), after);
    law_stream_is_restored(original, null_device, saved);
}

/// Whether `open` opens what it says: where the stream is open, it stays as it is,
/// the copy is one of it, and the other descriptor refers to `sink`, the null
/// device.
pub open spec fn opens<D, O: Fn(D) -> (D, Option<i32>, i32)>(
    open: O,
    table: spec_fn(D) -> Map<i32, int>,
    sink: int,
) -> bool {
    forall|before: D, opened: D, null_device: Option<i32>, saved: i32| #[trigger]
        open.ensures((before,), (opened, null_device, saved)) && table(before).dom().contains(
            STDERR,
        ) ==> {
            let stream = table(before)[STDERR];
            &&& table(opened).dom().contains(STDERR) && table(opened)[STDERR] == stream
            &&& saved >= 0 ==> saved != STDERR && table(opened).dom().contains(saved) && table(
                opened,
            )[saved] == stream
            &&& null_device matches Some(fd) ==> fd != saved && table(opened).dom().contains(fd)
                && table(opened)[fd] == sink
        }
}

/// While it is silenced, the stream goes to the null device, or, where that could
/// not be opened or no copy of the stream could be made, to where it went before.
pub proof fn law_silenced_stream_is_not_heard<
    D,
    O: Fn(D) -> (D, Option<i32>, i32),
    P: Fn(D, FdStep) -> D,
>(
    open: O,
    perform: P,
    table: spec_fn(D) -> Map<i32, int>,
    sink: int,
    before: D,
    silent: D,
    saved: i32,
)
    requires
        performs(perform, table),
        opens(open, table, sink),
        silenced(open, perform, before, silent, saved),
        table(before).dom().contains(STDERR),
    ensures
        table(silent).dom().contains(STDERR),
        saved >= 0 && (forall|opened: D, null_device: Option<i32>| #[trigger]
            open.ensures((before,), (opened, null_device, saved)) ==> null_device is Some)
            ==> table(silent)[STDERR] == sink,
        table(silent)[STDERR] == sink || table(silent)[STDERR] == table(before)[STDERR],
        saved >= 0 ==> table(silent).dom().contains(saved) && table(silent)[saved] == table(
            before,
        )[STDERR],
        saved < 0 ==> table(silent)[STDERR] == table(before)[STDERR],
{
    let (opened, null_device) = choose|opened: D, null_device: Option<i32>|
        {
            &&& #[trigger] open.ensures((before,), (opened, null_device, saved))
            &&& may_lead(perform, opened, silencing(null_device, saved), silent)
        };
    let steps = silencing(null_device, saved);
    law_steps_change_the_table(perform, table, opened, steps, silent);
    if let Some(fd) = null_device {
        if saved >= 0 {
            law_silenced_stream_goes_to_the_null_device(table(opened), fd, saved);
        }
    }
}

/// After a call with the stream silenced, the stream goes to where it went before
/// the call, provided that the call leaves the open descriptors as they are.
pub proof fn law_stream_is_kept<
    D,
    O: Fn(D) -> (D, Option<i32>, i32),
    P: Fn(D, FdStep) -> D,
>(
    open: O,
    perform: P,
    table: spec_fn(D) -> Map<i32, int>,
    sink: int,
    before: D,
    silent: D,
    saved: i32,
    noisy: D,
    after: D,
)
    requires
        performs(perform, table),
        opens(open, table, sink),
        silenced(open, perform, before, silent, saved),
        table(noisy) == table(silent),
        may_lead(perform, noisy, restoring(saved), after),
        table(before).dom().contains(STDERR),
    ensures
        table(after).dom().contains(STDERR),
        table(after)[STDERR] == table(before)[STDERR],
{
    law_silenced_stream_is_not_heard(open, perform, table, sink, before, silent, saved);
    let steps = restoring(saved);
    law_steps_change_the_table(perform, table, noisy, steps, after);
    if saved >= 0 {
        let (opened, null_device) = choose|opened: D, null_device: Option<i32>|
            {
                &&& #[trigger] open.ensures((before,), (opened, null_device, saved))
                &&& may_lead(perform, opened, silencing(null_device, saved), silent)
            };
        assert(saved != STDERR);
        let first = steps.drop_last();
        assert(first =~= seq![FdStep::Redirect { from: saved, to: STDERR }]);
        assert(first.drop_last() =~= seq![]);
        assert(after_steps(table(noisy), seq![]) == table(noisy));
    }
}

/// The descriptors after the standard error stream, which is the third, was pointed to
/// the null device, where `performed` tells what a step does. Without a null device or
/// a copy of the stream they stay as they are.
pub open spec fn quiet<D>(
    performed: spec_fn(D, FdStep) -> D,
    null_device: Option<i32>,
    saved: i32,
    before: D,
) -> D {
    match null_device {
        Some(fd) => if saved >= 0 {
            performed(before, FdStep::Redirect { from: fd, to: 2 })
        } else {
            before
        },
        None => before,
    }
}

/// The descriptors after the stream was pointed back to what the copy of it refers to,
/// and the copy was closed, where there is one.
pub open spec fn loud<D>(performed: spec_fn(D, FdStep) -> D, saved: i32, before: D) -> D {
    if saved >= 0 {
        performed(
            performed(before, FdStep::Redirect { from: saved, to: 2 }),
            FdStep::Close { fd: saved },
        )
    } else {
        before
    }
}

/// What silencing does, and what bringing the stream back does, step by step.
pub proof fn law_steps_of_silencing<D, P: Fn(D, FdStep) -> D>(
    perform: P,
    performed: spec_fn(D, FdStep) -> D,
    null_device: Option<i32>,
    saved: i32,
    before: D,
    after: D,
)
    requires
        forall|from: D, step: FdStep, to: D| #[trigger]
            perform.ensures((from, step), to) ==> to == performed(from, step),
    ensures
        may_lead(perform, before, silencing(null_device, saved), after) ==> after == quiet(
            performed,
            null_device,
            saved,
            before,
        ),
        may_lead(perform, before, restoring(saved), after) ==> after == loud(
            performed,
            saved,
            before,
        ),
{
    if may_lead(perform, before, silencing(null_device, saved), after) {
        let steps = silencing(null_device, saved);
        let states = choose|states: Seq<D>|
            {
                &&& #[trigger] may_pass(perform, states, steps)
                &&& states.first() == before
                &&& states.last() == after
            };
        if steps.len() == 1 {
            assert(perform.ensures((states[0], steps[0]), states[0 + 1int]));
        }
    }
    if may_lead(perform, before, restoring(saved), after) {
        let steps = restoring(saved);
        let states = choose|states: Seq<D>|
            {
                &&& #[trigger] may_pass(perform, states, steps)
                &&& states.first() == before
                &&& states.last() == after
            };
        if steps.len() == 2 {
            assert(perform.ensures((states[0], steps[0]), states[0 + 1int]));
            assert(perform.ensures((states[1], steps[1]), states[1 + 1int]));
        }
    }
}

/// The course of a call with the stream silenced: silencing, the call itself, once, and
/// bringing the stream back. What the call answers comes out as it is.
pub proof fn law_course_of_a_silenced_call<
    D,
    T,
    P: Fn(D, FdStep) -> D,
    F: FnOnce(D) -> (D, T),
>(
    perform: P,
    f: F,
    performed: spec_fn(D, FdStep) -> D,
    called: spec_fn(D) -> D,
    answer: spec_fn(D) -> T,
    null_device: Option<i32>,
    saved: i32,
    descriptors: D,
    result: (D, T),
)
    requires
        exists|silent: D, noisy: D, value: T|
            {
                &&& #[trigger] may_lead(
                    perform,
                    descriptors,
                    silencing(null_device, saved),
                    silent,
                )
                &&& #[trigger] f.ensures((silent,), (noisy, value))
                &&& may_lead(perform, noisy, restoring(saved), result.0)
                &&& value == result.1
            },
        forall|from: D, step: FdStep, to: D| #[trigger]
            perform.ensures((from, step), to) ==> to == performed(from, step),
        forall|from: D, to: D, value: T| #[trigger]
            f.ensures((from,), (to, value)) ==> to == called(from) && value == answer(from),
    ensures
        ({
            let silent = quiet(performed, null_device, saved, descriptors);
            &&& result.1 == answer(silent)
            &&& result.0 == loud(performed, saved, called(silent))
        }),
{
    let (silent, noisy, value) = choose|silent: D, noisy: D, value: T|
        {
            &&& #[trigger] may_lead(perform, descriptors, silencing(null_device, saved), silent)
            &&& #[trigger] f.ensures((silent,), (noisy, value))
            &&& may_lead(perform, noisy, restoring(saved), result.0)
            &&& value == result.1
        };
    law_steps_of_silencing(perform, performed, null_device, saved, descriptors, silent);
    law_steps_of_silencing(perform, performed, null_device, saved, noisy, result.0);
}

} // verus!
