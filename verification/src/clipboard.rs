//! Copying the command to the clipboard.

use crate::stderr::{
    law_steps_of_silencing, law_stream_is_kept, loud, may_lead, opens, performs, quiet, restoring,
    silenced, silencing, suppress_stderr, FdStep, STDERR,
};
use crate::text::texts;
use vstd::prelude::*;

verus! {

/// A program that copies its standard input to the clipboard.
#[derive(Debug)]
pub struct ClipboardTool {
    pub program: &'static str,
    pub args: Vec<&'static str>,
}

/// The texts of a [`ClipboardTool`].
pub struct ClipboardToolView {
    pub program: Seq<char>,
    pub args: Seq<Seq<char>>,
}

impl View for ClipboardTool {
    type V = ClipboardToolView;

    open spec fn view(&self) -> ClipboardToolView {
        ClipboardToolView { program: self.program@, args: texts(self.args@) }
    }
}

/// The programs to try, the first choice first.
pub open spec fn tools() -> Seq<ClipboardToolView> {
    seq![
        ClipboardToolView { program: "wl-copy"@, args: seq![] },
        ClipboardToolView { program: "xclip"@, args: seq!["-selection"@, "clipboard"@] },
        ClipboardToolView { program: "xsel"@, args: seq!["--clipboard"@, "--input"@] },
    ]
}

/// The error of a copy that was or was not made.
pub open spec fn copy_text_error(result: Result<(), String>) -> Result<(), Seq<char>> {
    match result {
        Ok(_) => Ok(()),
        Err(reason) => Err(reason@),
    }
}

/// What came of the copy, given what came of the native clipboard, where there
/// is a display to have one, and whether one of the tools worked.
pub open spec fn copied(native: Option<Result<(), Seq<char>>>, tool_worked: bool) -> Result<
    (),
    Seq<char>,
> {
    match native {
        Some(Ok(_)) => Ok(()),
        Some(Err(reason)) => if tool_worked {
            Ok(())
        } else {
            Err("arboard: "@ + reason + "; no fallback tool found (xclip/xsel/wl-copy)"@)
        },
        None => if tool_worked {
            Ok(())
        } else {
            Err("no display available; no fallback tool found (xclip/xsel/wl-copy)"@)
        },
    }
}

/// Whether running `tool` on `text` may take the outside world from `before` to
/// `after`, with the answer `worked`.
pub open spec fn tool_may_run<D, R: Fn(D, &ClipboardTool, &str) -> (D, bool)>(
    run: R,
    tool: ClipboardToolView,
    text: Seq<char>,
    before: D,
    after: D,
    worked: bool,
) -> bool {
    exists|asked: &ClipboardTool, given: &str|
        {
            &&& asked@ == tool
            &&& given@ == text
            &&& #[trigger] run.ensures((before, asked, given), (after, worked))
        }
}

/// Whether running the first of the tools on `text`, one after the other, takes
/// the outside world through `states`: up to the first tool that works, where
/// one `worked`, and else all of them in vain.
pub open spec fn ran<D, R: Fn(D, &ClipboardTool, &str) -> (D, bool)>(
    run: R,
    text: Seq<char>,
    states: Seq<D>,
    worked: bool,
) -> bool {
    let n = states.len() - 1;
    &&& 1 <= n <= tools().len()
    &&& !worked ==> n == tools().len()
    &&& forall|i: int|
        0 <= i < n ==> tool_may_run(
            run,
            #[trigger] tools()[i],
            text,
            states[i],
            states[i + 1],
            worked && i == n - 1,
        )
}

/// Whether trying the tools on `text` may take the outside world from `before` to
/// `after`, with the answer `worked`.
pub open spec fn tools_may_run<D, R: Fn(D, &ClipboardTool, &str) -> (D, bool)>(
    run: R,
    text: Seq<char>,
    before: D,
    after: D,
    worked: bool,
) -> bool {
    exists|states: Seq<D>|
        {
            &&& #[trigger] ran(run, text, states, worked)
            &&& states.first() == before
            &&& states.last() == after
        }
}

/// Whether the native clipboard, given `text`, may take the outside world from
/// `before` to `after`, with the answer `said`.
pub open spec fn native_may_answer<D, N: FnOnce(D, &str) -> (D, Result<(), String>)>(
    native_copy: N,
    text: Seq<char>,
    before: D,
    after: D,
    said: Result<(), String>,
) -> bool {
    exists|given: &str|
        given@ == text && #[trigger] native_copy.ensures((before, given), (after, said))
}

/// Whether trying the native clipboard first, where `has_display`, may take the
/// outside world from `before` to `after`. Given `text`, with the standard error
/// stream silenced for that time, it answers `native`; without a display it is
/// not tried, and nothing changes.
pub open spec fn native_may_run<
    D,
    O: Fn(D) -> (D, Option<i32>, i32),
    P: Fn(D, FdStep) -> D,
    N: FnOnce(D, &str) -> (D, Result<(), String>),
>(
    has_display: bool,
    open: O,
    perform: P,
    native_copy: N,
    text: Seq<char>,
    before: D,
    after: D,
    native: Option<Result<(), String>>,
) -> bool {
    match native {
        Some(said) => has_display && exists|silent: D, noisy: D, saved: i32|
            {
                &&& #[trigger] silenced(open, perform, before, silent, saved)
                &&& #[trigger] native_may_answer(native_copy, text, silent, noisy, said)
                &&& may_lead(perform, noisy, restoring(saved), after)
            },
        None => !has_display && after == before,
    }
}

/// Whether trying the tools on `text`, with the standard error stream silenced for
/// that time, may take the outside world from `before` to `after`, with the answer
/// `worked`.
pub open spec fn tools_may_run_silenced<
    D,
    O: Fn(D) -> (D, Option<i32>, i32),
    P: Fn(D, FdStep) -> D,
    R: Fn(D, &ClipboardTool, &str) -> (D, bool),
>(open: O, perform: P, run: R, text: Seq<char>, before: D, after: D, worked: bool) -> bool {
    exists|silent: D, noisy: D, saved: i32|
        {
            &&& #[trigger] silenced(open, perform, before, silent, saved)
            &&& #[trigger] tools_may_run(run, text, silent, noisy, worked)
            &&& may_lead(perform, noisy, restoring(saved), after)
        }
}

/// Whether the copy may go on from `before`, where the native clipboard answered
/// `native` or was not tried, to `after`, and end with `result`.
///
/// Where the native clipboard took the text, that is all. Where it did not, or
/// was not tried, the tools are tried.
pub open spec fn fallback_may_run<
    D,
    O: Fn(D) -> (D, Option<i32>, i32),
    P: Fn(D, FdStep) -> D,
    R: Fn(D, &ClipboardTool, &str) -> (D, bool),
>(
    open: O,
    perform: P,
    run: R,
    text: Seq<char>,
    native: Option<Result<(), String>>,
    before: D,
    after: D,
    result: Result<(), Seq<char>>,
) -> bool {
    match native {
        Some(Ok(_)) => after == before && result is Ok,
        Some(Err(reason)) => exists|worked: bool| #[trigger]
            tools_may_run_silenced(open, perform, run, text, before, after, worked) && result
                == copied(Some(Err(reason@)), worked),
        None => exists|worked: bool| #[trigger]
            tools_may_run_silenced(open, perform, run, text, before, after, worked) && result
                == copied(None, worked),
    }
}

/// Whether `perform` can take the steps that silence the stream and bring it back,
/// with the descriptors that `open` answers with.
pub open spec fn can_perform<
    D,
    O: Fn(D) -> (D, Option<i32>, i32),
    P: Fn(D, FdStep) -> D,
>(open: O, perform: P) -> bool {
    forall|before: D, opened: D, null_device: Option<i32>, saved: i32, now: D, step: FdStep|
        #[trigger] open.ensures((before,), (opened, null_device, saved)) && (silencing(
            null_device,
            saved,
        ).contains(step) || restoring(saved).contains(step)) ==> #[trigger] perform.requires(
            (now, step),
        )
}

/// Whether there can be a native clipboard. On Linux it takes a display server,
/// which one of two environment variables tells of; elsewhere there is one.
pub fn has_display(linux: bool, display_set: bool, wayland_display_set: bool) -> (found: bool)
    ensures
        found == (linux ==> display_set || wayland_display_set),
{
    !linux || display_set || wayland_display_set
}

/// The programs to try, the first choice first.
pub fn clipboard_tools() -> (found: Vec<ClipboardTool>)
    ensures
        found@.map_values(|tool: ClipboardTool| tool@) == tools(),
        found@.len() == 3,
        found@[0].program@ == "wl-copy"@ && found@[0].args@.len() == 0,
        found@[1].program@ == "xclip"@ && texts(found@[1].args@) == seq![
            "-selection"@,
            "clipboard"@,
        ],
        found@[2].program@ == "xsel"@ && texts(found@[2].args@) == seq![
            "--clipboard"@,
            "--input"@,
        ],
{
    let mut found: Vec<ClipboardTool> = Vec::new();
    let none: Vec<&'static str> = Vec::new();
    let mut selection: Vec<&'static str> = Vec::new();
    selection.push("-selection");
    selection.push("clipboard");
    let mut input: Vec<&'static str> = Vec::new();
    input.push("--clipboard");
    input.push("--input");
    assert(texts(none@) =~= tools()[0].args);
    assert(texts(selection@) =~= tools()[1].args);
    assert(texts(input@) =~= tools()[2].args);
    found.push(ClipboardTool { program: "wl-copy", args: none });
    found.push(ClipboardTool { program: "xclip", args: selection });
    found.push(ClipboardTool { program: "xsel", args: input });
    assert(found@.map_values(|tool: ClipboardTool| tool@) =~= tools());
    found
}

/// Hands `text` to the programs in turn until one of them works, and says whether
/// one did.
///
/// `run` runs a program on a text, says whether the program took it, and hands on
/// the `state` of the outside world.
pub fn try_cli_clipboard<D, R: Fn(D, &ClipboardTool, &str) -> (D, bool)>(
    state: D,
    text: &str,
    run: R,
) -> (result: (D, bool))
    requires
        forall|now: D, tool: &ClipboardTool, given: &str|
            tools().contains(tool@) && given@ == text@ ==> #[trigger] run.requires(
                (now, tool, given),
            ),
    ensures
        tools_may_run(run, text@, state, result.0, result.1),
{
    let found = clipboard_tools();
    let ghost views = found@.map_values(|tool: ClipboardTool| tool@);
    let ghost start = state;
    let ghost mut states: Seq<D> = seq![state];
    let mut now = state;
    let mut i: usize = 0;
    while i < found.len()
        invariant
            views == found@.map_values(|tool: ClipboardTool| tool@),
            views == tools(),
            i <= found.len(),
            forall|now: D, tool: &ClipboardTool, given: &str|
                tools().contains(tool@) && given@ == text@ ==> #[trigger] run.requires(
                    (now, tool, given),
                ),
            start == state,
            states.len() == i + 1,
            states.first() == start,
            states.last() == now,
            forall|k: int|
                0 <= k < i ==> tool_may_run(
                    run,
                    #[trigger] tools()[k],
                    text@,
                    states[k],
                    states[k + 1],
                    false,
                ),
        decreases found.len() - i,
    {
        let tool = &found[i];
        assert(views[i as int] == tool@);
        let ghost before = now;
        let (next, worked) = run(now, tool, text);
        now = next;
        proof {
            let longer = states.push(now);
            assert(run.ensures((before, tool, text), (now, worked)));
            assert(tool_may_run(run, tools()[i as int], text@, before, now, worked));
            assert forall|k: int| 0 <= k < i + 1 implies tool_may_run(
                run,
                #[trigger] tools()[k],
                text@,
                longer[k],
                longer[k + 1],
                worked && k == i,
            ) by {
                if k < i {
                    assert(longer[k] == states[k] && longer[k + 1] == states[k + 1]);
                }
            }
            states = longer;
        }
        if worked {
            assert(ran(run, text@, states, true));
            return (now, true);
        }
        i += 1;
    }
    assert(views.len() == found@.len());
    assert(ran(run, text@, states, false));
    (now, false)
}

/// What came of the copy, given what came of the native clipboard, where there
/// is a display to have one, and whether one of the tools worked.
pub fn copy_outcome(native: Option<Result<(), String>>, tool_worked: bool) -> (result: Result<
    (),
    String,
>)
    ensures
        copy_text_error(result) == copied(
            match native {
                Some(said) => Some(copy_text_error(said)),
                None => None,
            },
            tool_worked,
        ),
{
    match native {
        Some(Ok(_)) => Ok(()),
        Some(Err(reason)) => {
            if tool_worked {
                Ok(())
            } else {
                Err(
                    "arboard: ".to_owned().concat(reason.as_str()).concat(
                        "; no fallback tool found (xclip/xsel/wl-copy)",
                    ),
                )
            }
        },
        None => {
            if tool_worked {
                Ok(())
            } else {
                Err(
                    "no display available; no fallback tool found (xclip/xsel/wl-copy)".to_owned(),
                )
            }
        },
    }
}

/// Tries the tools with the standard error stream silenced.
fn try_cli_clipboard_silenced<
    D,
    O: Fn(D) -> (D, Option<i32>, i32),
    P: Fn(D, FdStep) -> D,
    R: Fn(D, &ClipboardTool, &str) -> (D, bool),
>(state: D, text: &str, open: O, perform: P, run: R) -> (result: (D, bool))
    requires
        forall|now: D| #[trigger] open.requires((now,)),
        can_perform(open, perform),
        forall|now: D, tool: &ClipboardTool, given: &str|
            tools().contains(tool@) && given@ == text@ ==> #[trigger] run.requires(
                (now, tool, given),
            ),
    ensures
        tools_may_run_silenced(open, perform, run, text@, state, result.0, result.1),
{
    let (opened, null_device, saved) = open(state);
    let try_tools = |silent: D| -> (done: (D, bool))
        ensures
            tools_may_run(run, text@, silent, done.0, done.1),
        { try_cli_clipboard(silent, text, run) };
    let result = suppress_stderr(opened, null_device, saved, &perform, try_tools);
    proof {
        let (silent, noisy, worked) = choose|silent: D, noisy: D, worked: bool|
            {
                &&& #[trigger] may_lead(perform, opened, silencing(null_device, saved), silent)
                &&& #[trigger] try_tools.ensures((silent,), (noisy, worked))
                &&& may_lead(perform, noisy, restoring(saved), result.0)
                &&& worked == result.1
            };
        assert(silenced(open, perform, state, silent, saved));
        assert(tools_may_run(run, text@, silent, noisy, worked));
    }
    result
}

/// Copies `text` to the clipboard, or says why that cannot be done.
///
/// `native_copy` copies a text to the native clipboard, which is tried first, and
/// only where `has_display`. `run` hands a text to a program, which is tried only
/// where the native clipboard did not take it. The standard error stream is
/// silenced while the native clipboard, and while the programs, are tried: `open`
/// opens the null device and makes a copy of the stream, and `perform` changes the
/// open descriptors. All four hand on the `state` of the outside world.
pub fn copy_to_clipboard<
    D,
    O: Fn(D) -> (D, Option<i32>, i32),
    P: Fn(D, FdStep) -> D,
    N: FnOnce(D, &str) -> (D, Result<(), String>),
    R: Fn(D, &ClipboardTool, &str) -> (D, bool),
>(
    state: D,
    text: &str,
    has_display: bool,
    open: O,
    perform: P,
    native_copy: N,
    run: R,
) -> (result: (D, Result<(), String>))
    requires
        forall|now: D| #[trigger] open.requires((now,)),
        can_perform(open, perform),
        has_display ==> forall|now: D, given: &str|
            given@ == text@ ==> #[trigger] native_copy.requires((now, given)),
        forall|now: D, tool: &ClipboardTool, given: &str|
            tools().contains(tool@) && given@ == text@ ==> #[trigger] run.requires(
                (now, tool, given),
            ),
    ensures
        exists|native: Option<Result<(), String>>, middle: D|
            {
                &&& #[trigger] native_may_run(
                    has_display,
                    open,
                    perform,
                    native_copy,
                    text@,
                    state,
                    middle,
                    native,
                )
                &&& fallback_may_run(
                    open,
                    perform,
                    run,
                    text@,
                    native,
                    middle,
                    result.0,
                    copy_text_error(result.1),
                )
            },
{
    let ghost start = state;
    if has_display {
        let (opened, null_device, saved) = open(state);
        let copy = |silent: D| -> (done: (D, Result<(), String>))
            ensures
                native_may_answer(native_copy, text@, silent, done.0, done.1),
            { native_copy(silent, text) };
        let (middle, said) = suppress_stderr(opened, null_device, saved, &perform, copy);
        let ghost native = Some(said);
        proof {
            let (silent, noisy, answer) = choose|silent: D, noisy: D, answer: Result<(), String>|
                {
                    &&& #[trigger] may_lead(perform, opened, silencing(null_device, saved), silent)
                    &&& #[trigger] copy.ensures((silent,), (noisy, answer))
                    &&& may_lead(perform, noisy, restoring(saved), middle)
                    &&& answer == said
                };
            assert(silenced(open, perform, start, silent, saved));
            assert(native_may_answer(native_copy, text@, silent, noisy, answer));
        }
        assert(native_may_run(
            has_display,
            open,
            perform,
            native_copy,
            text@,
            start,
            middle,
            native,
        ));
        if said.is_ok() {
            return (middle, copy_outcome(Some(said), false));
        }
        let (end, worked) = try_cli_clipboard_silenced(middle, text, open, perform, run);
        (end, copy_outcome(Some(said), worked))
    } else {
        let ghost native: Option<Result<(), String>> = None;
        assert(native_may_run(
            has_display,
            open,
            perform,
            native_copy,
            text@,
            start,
            start,
            native,
        ));
        let (end, worked) = try_cli_clipboard_silenced(state, text, open, perform, run);
        (end, copy_outcome(None, worked))
    }
}

/// A copy is made where the native clipboard took it or one of the tools worked,
/// and only there.
pub proof fn law_copy_is_made(native: Option<Result<(), Seq<char>>>, tool_worked: bool)
    ensures
        copied(native, tool_worked) is Ok <==> (native matches Some(Ok(_))) || tool_worked,
{
}

/// A copy that was made was made by the native clipboard, or by a tool that took
/// the text after the native clipboard did not. A copy that was not made failed
/// with the native clipboard, where there is one, and then with every tool.
pub proof fn law_copy_is_made_by_one_means<
    D,
    O: Fn(D) -> (D, Option<i32>, i32),
    P: Fn(D, FdStep) -> D,
    R: Fn(D, &ClipboardTool, &str) -> (D, bool),
>(
    open: O,
    perform: P,
    run: R,
    text: Seq<char>,
    native: Option<Result<(), String>>,
    before: D,
    after: D,
    result: Result<(), Seq<char>>,
)
    requires
        fallback_may_run(open, perform, run, text, native, before, after, result),
    ensures
        native matches Some(Ok(_)) ==> result is Ok && after == before,
        !(native matches Some(Ok(_))) ==> tools_may_run_silenced(
            open,
            perform,
            run,
            text,
            before,
            after,
            result is Ok,
        ),
{
}

/// Whether what is done at the clipboard leaves the table of open descriptors as
/// it is.
pub open spec fn keeps_descriptors<
    D,
    N: FnOnce(D, &str) -> (D, Result<(), String>),
    R: Fn(D, &ClipboardTool, &str) -> (D, bool),
>(native_copy: N, run: R, table: spec_fn(D) -> Map<i32, int>) -> bool {
    &&& forall|from: D, given: &str, to: D, said: Result<(), String>| #[trigger]
        native_copy.ensures((from, given), (to, said)) ==> table(to) == table(from)
    &&& forall|from: D, tool: &ClipboardTool, given: &str, to: D, worked: bool| #[trigger]
        run.ensures((from, tool, given), (to, worked)) ==> table(to) == table(from)
}

/// The copy leaves the standard error stream as it was, whatever came of it.
pub proof fn law_copy_keeps_the_stream<
    D,
    O: Fn(D) -> (D, Option<i32>, i32),
    P: Fn(D, FdStep) -> D,
    N: FnOnce(D, &str) -> (D, Result<(), String>),
    R: Fn(D, &ClipboardTool, &str) -> (D, bool),
>(
    open: O,
    perform: P,
    native_copy: N,
    run: R,
    table: spec_fn(D) -> Map<i32, int>,
    sink: int,
    has_display: bool,
    text: Seq<char>,
    native: Option<Result<(), String>>,
    before: D,
    middle: D,
    after: D,
    result: Result<(), Seq<char>>,
)
    requires
        performs(perform, table),
        opens(open, table, sink),
        keeps_descriptors(native_copy, run, table),
        native_may_run(has_display, open, perform, native_copy, text, before, middle, native),
        fallback_may_run(open, perform, run, text, native, middle, after, result),
        table(before).dom().contains(STDERR),
    ensures
        table(after).dom().contains(STDERR),
        table(after)[STDERR] == table(before)[STDERR],
{
    if let Some(said) = native {
        let (silent, noisy, saved) = choose|silent: D, noisy: D, saved: i32|
            {
                &&& #[trigger] silenced(open, perform, before, silent, saved)
                &&& #[trigger] native_may_answer(native_copy, text, silent, noisy, said)
                &&& may_lead(perform, noisy, restoring(saved), middle)
            };
        law_stream_is_kept(open, perform, table, sink, before, silent, saved, noisy, middle);
    }
    if !(native matches Some(Ok(_))) {
        law_copy_is_made_by_one_means(open, perform, run, text, native, middle, after, result);
        let (silent, noisy, saved) = choose|silent: D, noisy: D, saved: i32|
            {
                &&& #[trigger] silenced(open, perform, middle, silent, saved)
                &&& #[trigger] tools_may_run(run, text, silent, noisy, result is Ok)
                &&& may_lead(perform, noisy, restoring(saved), after)
            };
        lemma_tools_keep_descriptors(
            native_copy,
            run,
            table,
            text,
            silent,
            noisy,
            result is Ok,
        );
        law_stream_is_kept(open, perform, table, sink, middle, silent, saved, noisy, after);
    }
}

proof fn lemma_tools_keep_descriptors<
    D,
    N: FnOnce(D, &str) -> (D, Result<(), String>),
    R: Fn(D, &ClipboardTool, &str) -> (D, bool),
>(
    native_copy: N,
    run: R,
    table: spec_fn(D) -> Map<i32, int>,
    text: Seq<char>,
    before: D,
    after: D,
    worked: bool,
)
    requires
        keeps_descriptors(native_copy, run, table),
        tools_may_run(run, text, before, after, worked),
    ensures
        table(after) == table(before),
{
    let states = choose|states: Seq<D>|
        {
            &&& #[trigger] ran(run, text, states, worked)
            &&& states.first() == before
            &&& states.last() == after
        };
    let n = states.len() - 1;
    lemma_states_keep_descriptors(native_copy, run, table, text, states, worked, n);
}

proof fn lemma_states_keep_descriptors<
    D,
    N: FnOnce(D, &str) -> (D, Result<(), String>),
    R: Fn(D, &ClipboardTool, &str) -> (D, bool),
>(
    native_copy: N,
    run: R,
    table: spec_fn(D) -> Map<i32, int>,
    text: Seq<char>,
    states: Seq<D>,
    worked: bool,
    n: int,
)
    requires
        keeps_descriptors(native_copy, run, table),
        ran(run, text, states, worked),
        0 <= n < states.len(),
    ensures
        table(states[n]) == table(states[0]),
    decreases n,
{
    if n > 0 {
        lemma_states_keep_descriptors(native_copy, run, table, text, states, worked, n - 1);
        let i = n - 1;
        assert(tool_may_run(
            run,
            tools()[i],
            text,
            states[i],
            states[i + 1],
            worked && i == states.len() - 2,
        ));
    }
}

/// What became of a copy, and in whose words: those of the native clipboard, where it
/// was tried.
pub proof fn law_reasons_for_no_copy(
    native: Option<Result<(), String>>,
    tool_worked: bool,
    result: Result<(), String>,
)
    requires
        copy_text_error(result) == copied(
            match native {
                Some(said) => Some(copy_text_error(said)),
                None => None,
            },
            tool_worked,
        ),
    ensures
        result is Ok <==> tool_worked || (native matches Some(said) && said is Ok),
        result matches Err(message) ==> match native {
            Some(Err(reason)) => message@ == "arboard: "@ + reason@
                + "; no fallback tool found (xclip/xsel/wl-copy)"@,
            Some(Ok(_)) => false,
            None => message@
                == "no display available; no fallback tool found (xclip/xsel/wl-copy)"@,
        },
{
}

/// The course of trying the tools: wl-copy first, then xclip, then xsel, each with its
/// own arguments and the whole text, and no other after one that worked. `ran_to` tells
/// what state of the outside world a tool leads to, and `works` whether it takes the
/// text.
pub proof fn law_course_of_the_tools<D, R: Fn(D, &ClipboardTool, &str) -> (D, bool)>(
    run: R,
    ran_to: spec_fn(D, Seq<char>, Seq<Seq<char>>, Seq<char>) -> D,
    works: spec_fn(D, Seq<char>) -> bool,
    text: Seq<char>,
    before: D,
    after: D,
    worked: bool,
)
    requires
        tools_may_run(run, text, before, after, worked),
        forall|from: D, tool: &ClipboardTool, given: &str, to: D, took: bool| #[trigger]
            run.ensures((from, tool, given), (to, took)) ==> to == ran_to(
                from,
                tool.program@,
                texts(tool.args@),
                given@,
            ) && took == works(from, tool.program@),
    ensures
        ({
            let first = ran_to(before, "wl-copy"@, seq![], text);
            let second = ran_to(first, "xclip"@, seq!["-selection"@, "clipboard"@], text);
            let third = ran_to(second, "xsel"@, seq!["--clipboard"@, "--input"@], text);
            &&& worked == (works(before, "wl-copy"@) || works(first, "xclip"@) || works(
                second,
                "xsel"@,
            ))
            &&& after == if works(before, "wl-copy"@) {
                first
            } else if works(first, "xclip"@) {
                second
            } else {
                third
            }
        }),
{
    let states = choose|states: Seq<D>|
        {
            &&& #[trigger] ran(run, text, states, worked)
            &&& states.first() == before
            &&& states.last() == after
        };
    let n = states.len() - 1;
    lemma_state_after_tool(run, ran_to, works, text, states, worked, 0);
    if n > 1 {
        lemma_state_after_tool(run, ran_to, works, text, states, worked, 1);
    }
    if n > 2 {
        lemma_state_after_tool(run, ran_to, works, text, states, worked, 2);
    }
}

proof fn lemma_state_after_tool<D, R: Fn(D, &ClipboardTool, &str) -> (D, bool)>(
    run: R,
    ran_to: spec_fn(D, Seq<char>, Seq<Seq<char>>, Seq<char>) -> D,
    works: spec_fn(D, Seq<char>) -> bool,
    text: Seq<char>,
    states: Seq<D>,
    worked: bool,
    i: int,
)
    requires
        ran(run, text, states, worked),
        0 <= i < states.len() - 1,
        forall|from: D, tool: &ClipboardTool, given: &str, to: D, took: bool| #[trigger]
            run.ensures((from, tool, given), (to, took)) ==> to == ran_to(
                from,
                tool.program@,
                texts(tool.args@),
                given@,
            ) && took == works(from, tool.program@),
    ensures
        states[i + 1] == ran_to(states[i], tools()[i].program, tools()[i].args, text),
        works(states[i], tools()[i].program) == (worked && i == states.len() - 2),
{
    assert(tool_may_run(
        run,
        tools()[i],
        text,
        states[i],
        states[i + 1],
        worked && i == states.len() - 2,
    ));
}

/// The course of the copy. With a display, the native clipboard gets the whole text
/// first, with the standard error stream silenced. Where it takes the text, that is
/// all. Where it does not, and where there is no display, the tools are tried, with the
/// stream silenced again. Either way the stream is brought back, and the result says
/// what became of the copy.
pub proof fn law_course_of_the_copy<
    D,
    O: Fn(D) -> (D, Option<i32>, i32),
    P: Fn(D, FdStep) -> D,
    N: FnOnce(D, &str) -> (D, Result<(), String>),
    R: Fn(D, &ClipboardTool, &str) -> (D, bool),
>(
    open: O,
    perform: P,
    native_copy: N,
    run: R,
    opened: spec_fn(D) -> D,
    null_device: Option<i32>,
    saved: i32,
    performed: spec_fn(D, FdStep) -> D,
    native_to: spec_fn(D, Seq<char>) -> D,
    native_said: spec_fn(D, Seq<char>) -> Option<Seq<char>>,
    has_display: bool,
    text: Seq<char>,
    native: Option<Result<(), String>>,
    before: D,
    middle: D,
    after: D,
    result: Result<(), String>,
) -> (tools_ended: (D, bool))
    requires
        native_may_run(has_display, open, perform, native_copy, text, before, middle, native),
        fallback_may_run(
            open,
            perform,
            run,
            text,
            native,
            middle,
            after,
            copy_text_error(result),
        ),
        forall|from: D, to: D, null: Option<i32>, copy: i32| #[trigger]
            open.ensures((from,), (to, null, copy)) ==> to == opened(from) && null == null_device
                && copy == saved,
        forall|from: D, step: FdStep, to: D| #[trigger]
            perform.ensures((from, step), to) ==> to == performed(from, step),
        forall|from: D, given: &str, to: D, said: Result<(), String>| #[trigger]
            native_copy.ensures((from, given), (to, said)) ==> to == native_to(from, given@)
                && match said {
                Ok(_) => native_said(from, given@) is None,
                Err(reason) => native_said(from, given@) == Some(reason@),
            },
    ensures
        ({
            let native_from = quiet(performed, null_device, saved, opened(before));
            let refused = native_said(native_from, text);
            let start = if has_display {
                loud(performed, saved, native_to(native_from, text))
            } else {
                before
            };
            let tools_from = quiet(performed, null_device, saved, opened(start));
            if has_display && refused is None {
                result is Ok && after == start
            } else {
                &&& tools_may_run(run, text, tools_from, tools_ended.0, tools_ended.1)
                &&& after == loud(performed, saved, tools_ended.0)
                &&& result is Ok <==> tools_ended.1
                &&& result matches Err(message) ==> message@ == match refused {
                    Some(reason) if has_display => "arboard: "@ + reason
                        + "; no fallback tool found (xclip/xsel/wl-copy)"@,
                    _ => "no display available; no fallback tool found (xclip/xsel/wl-copy)"@,
                }
            }
        }),
{
    if let Some(said) = native {
        let (silent, noisy, copy) = choose|silent: D, noisy: D, copy: i32|
            {
                &&& #[trigger] silenced(open, perform, before, silent, copy)
                &&& #[trigger] native_may_answer(native_copy, text, silent, noisy, said)
                &&& may_lead(perform, noisy, restoring(copy), middle)
            };
        lemma_silent_state(
            open,
            perform,
            opened,
            null_device,
            saved,
            performed,
            before,
            silent,
            copy,
        );
        law_steps_of_silencing(perform, performed, null_device, saved, noisy, middle);
    }
    if native matches Some(Ok(_)) {
        (middle, true)
    } else {
        let text_result = copy_text_error(result);
        law_copy_is_made_by_one_means(
            open,
            perform,
            run,
            text,
            native,
            middle,
            after,
            text_result,
        );
        let worked = result is Ok;
        let (silent, noisy, copy) = choose|silent: D, noisy: D, copy: i32|
            {
                &&& #[trigger] silenced(open, perform, middle, silent, copy)
                &&& #[trigger] tools_may_run(run, text, silent, noisy, worked)
                &&& may_lead(perform, noisy, restoring(copy), after)
            };
        lemma_silent_state(
            open,
            perform,
            opened,
            null_device,
            saved,
            performed,
            middle,
            silent,
            copy,
        );
        law_steps_of_silencing(perform, performed, null_device, saved, noisy, after);
        (noisy, worked)
    }
}

proof fn lemma_silent_state<
    D,
    O: Fn(D) -> (D, Option<i32>, i32),
    P: Fn(D, FdStep) -> D,
>(
    open: O,
    perform: P,
    opened: spec_fn(D) -> D,
    null_device: Option<i32>,
    saved: i32,
    performed: spec_fn(D, FdStep) -> D,
    before: D,
    silent: D,
    copy: i32,
)
    requires
        silenced(open, perform, before, silent, copy),
        forall|from: D, to: D, null: Option<i32>, copy: i32| #[trigger]
            open.ensures((from,), (to, null, copy)) ==> to == opened(from) && null == null_device
                && copy == saved,
        forall|from: D, step: FdStep, to: D| #[trigger]
            perform.ensures((from, step), to) ==> to == performed(from, step),
    ensures
        copy == saved,
        silent == quiet(performed, null_device, saved, opened(before)),
{
    let (from, null) = choose|from: D, null: Option<i32>|
        {
            &&& #[trigger] open.ensures((before,), (from, null, copy))
            &&& may_lead(perform, from, silencing(null, copy), silent)
        };
    law_steps_of_silencing(perform, performed, null_device, saved, from, silent);
}

} // verus!
