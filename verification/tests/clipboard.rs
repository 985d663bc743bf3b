use ai::clipboard::{
    clipboard_tools, copy_outcome, copy_to_clipboard, has_display, try_cli_clipboard, ClipboardTool,
};
use ai::stderr::FdStep;

#[test]
fn display_on_linux_and_elsewhere() {
    assert!(has_display(true, true, false));
    assert!(has_display(true, false, true));
    assert!(!has_display(true, false, false));
    assert!(has_display(false, false, false));
}

#[test]
fn tools_in_order() {
    let tools = clipboard_tools();
    let shown: Vec<(&str, Vec<&str>)> = tools
        .iter()
        .map(|tool| (tool.program, tool.args.clone()))
        .collect();
    assert_eq!(
        shown,
        vec![
            ("wl-copy", vec![]),
            ("xclip", vec!["-selection", "clipboard"]),
            ("xsel", vec!["--clipboard", "--input"]),
        ]
    );
}

type Log = Vec<String>;

/// Runs a tool: it takes the text where it is the one that `works`.
fn run_with(works: &'static str) -> impl Fn(Log, &ClipboardTool, &str) -> (Log, bool) {
    move |mut log: Log, tool: &ClipboardTool, text: &str| {
        log.push(format!("{} {text}", tool.program));
        (log, tool.program == works)
    }
}

/// A native clipboard that answers `said`.
fn native(said: Result<(), String>) -> impl FnOnce(Log, &str) -> (Log, Result<(), String>) {
    move |mut log: Log, text: &str| {
        log.push(format!("native {text}"));
        (log, said)
    }
}

/// Opens the null device as 7, and a copy of the stream as 8.
fn open(mut log: Log) -> (Log, Option<i32>, i32) {
    log.push("open".to_string());
    (log, Some(7), 8)
}

/// Nothing that could silence the stream.
fn open_nothing(log: Log) -> (Log, Option<i32>, i32) {
    (log, None, -1)
}

fn perform(mut log: Log, step: FdStep) -> Log {
    log.push(match step {
        FdStep::Redirect { from, to } => format!("{from} -> {to}"),
        FdStep::Close { fd } => format!("close {fd}"),
    });
    log
}

#[test]
fn tools_are_tried_until_one_works() {
    let (log, worked) = try_cli_clipboard(Log::new(), "ls", run_with("xclip"));
    assert!(worked);
    assert_eq!(log, vec!["wl-copy ls", "xclip ls"]);
}

#[test]
fn all_tools_fail() {
    let (log, worked) = try_cli_clipboard(Log::new(), "ls", run_with("none"));
    assert!(!worked);
    assert_eq!(log, vec!["wl-copy ls", "xclip ls", "xsel ls"]);
}

/// Copies `ls` where nothing can silence the stream.
fn copy_aloud(
    has_display: bool,
    said: Result<(), String>,
    works: &'static str,
) -> (Log, Result<(), String>) {
    copy_to_clipboard(
        Log::new(),
        "ls",
        has_display,
        open_nothing,
        perform,
        native(said),
        run_with(works),
    )
}

#[test]
fn native_clipboard_comes_first() {
    let (log, result) = copy_aloud(true, Ok(()), "wl-copy");
    assert_eq!(result, Ok(()));
    assert_eq!(log, vec!["native ls"]);
}

#[test]
fn tools_stand_in_for_the_native_clipboard() {
    let (log, result) = copy_aloud(true, Err("no seat".to_string()), "xsel");
    assert_eq!(result, Ok(()));
    assert_eq!(log, vec!["native ls", "wl-copy ls", "xclip ls", "xsel ls"]);
}

#[test]
fn native_clipboard_needs_a_display() {
    let (log, result) = copy_aloud(false, Ok(()), "wl-copy");
    assert_eq!(result, Ok(()));
    assert_eq!(log, vec!["wl-copy ls"]);
}

#[test]
fn reasons_for_no_copy() {
    let (_, result) = copy_aloud(true, Err("no seat".to_string()), "none");
    assert_eq!(
        result,
        Err("arboard: no seat; no fallback tool found (xclip/xsel/wl-copy)".to_string())
    );
    let (_, result) = copy_aloud(false, Ok(()), "none");
    assert_eq!(
        result,
        Err("no display available; no fallback tool found (xclip/xsel/wl-copy)".to_string())
    );
}

#[test]
fn stream_is_silenced_while_each_means_is_tried() {
    let (log, result) = copy_to_clipboard(
        Log::new(),
        "ls",
        true,
        open,
        perform,
        native(Err("no seat".to_string())),
        run_with("xclip"),
    );
    assert_eq!(result, Ok(()));
    assert_eq!(
        log,
        vec![
            "open", "7 -> 2", "native ls", "8 -> 2", "close 8", "open", "7 -> 2", "wl-copy ls",
            "xclip ls", "8 -> 2", "close 8",
        ]
    );
}

#[test]
fn stream_is_restored_after_the_native_clipboard() {
    let (log, result) = copy_to_clipboard(
        Log::new(),
        "ls",
        true,
        open,
        perform,
        native(Ok(())),
        run_with("xclip"),
    );
    assert_eq!(result, Ok(()));
    assert_eq!(log, vec!["open", "7 -> 2", "native ls", "8 -> 2", "close 8"]);
}

#[test]
fn stream_is_restored_after_all_tools_fail() {
    let (log, result) = copy_to_clipboard(
        Log::new(),
        "ls",
        false,
        open,
        perform,
        native(Ok(())),
        run_with("none"),
    );
    assert!(result.is_err());
    assert_eq!(
        log,
        vec![
            "open", "7 -> 2", "wl-copy ls", "xclip ls", "xsel ls", "8 -> 2", "close 8",
        ]
    );
}

#[test]
fn copy_is_made_by_either_means() {
    assert!(copy_outcome(Some(Ok(())), false).is_ok());
    assert!(copy_outcome(Some(Err("x".to_string())), true).is_ok());
    assert!(copy_outcome(None, true).is_ok());
    assert!(copy_outcome(Some(Err("x".to_string())), false).is_err());
    assert!(copy_outcome(None, false).is_err());
}
