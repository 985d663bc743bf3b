//! A run of the program: what it prints and does next at each point.

use crate::chat::{endpoint, endpoint_url, result_text};
use crate::clipboard::copy_text_error;
use crate::config::{Config, ConfigResult, ConfigResultView, ConfigView};
use crate::text::{
    join, joined, lemma_joined_push, option_str, option_text, string_texts, texts,
};
use vstd::prelude::*;

verus! {

/// The arguments that the program was run with.
#[derive(Debug)]
pub struct Args {
    /// Whether to print the configuration in force and exit.
    pub print_config: bool,
    /// The `--config` option, where it is given, and the file it names, if any.
    pub config: Option<Option<String>>,
    /// How much to tell.
    pub verbose: u8,
    /// The description of what the user wants to do, word by word.
    pub prompt: Vec<String>,
}

/// A path on the search path for configuration files.
#[derive(Debug)]
pub struct PathStatus {
    pub path: String,
    pub found: bool,
}

/// Lines to print.
#[derive(Debug)]
pub struct Output {
    pub stdout: Vec<String>,
    pub stderr: Vec<String>,
}

/// What to do after printing.
#[derive(Debug)]
pub enum Next {
    /// End the program with this exit status.
    Exit(i32),
    /// Ask the model for a command that does this.
    Fetch(String),
    /// Copy this command to the clipboard.
    Copy(String),
}

/// What to print, and what to do after that.
#[derive(Debug)]
pub struct Step {
    pub output: Output,
    pub next: Next,
}

/// The texts of [`Args`].
pub struct ArgsView {
    pub print_config: bool,
    pub config: Option<Option<Seq<char>>>,
    pub verbose: u8,
    pub prompt: Seq<Seq<char>>,
}

/// The texts of a [`PathStatus`].
pub struct PathStatusView {
    pub path: Seq<char>,
    pub found: bool,
}

/// The texts of an [`Output`].
pub struct OutputView {
    pub stdout: Seq<Seq<char>>,
    pub stderr: Seq<Seq<char>>,
}

/// The texts of a [`Next`].
pub enum NextView {
    Exit(i32),
    Fetch(Seq<char>),
    Copy(Seq<char>),
}

/// The texts of a [`Step`].
pub struct StepView {
    pub output: OutputView,
    pub next: NextView,
}

impl View for Args {
    type V = ArgsView;

    open spec fn view(&self) -> ArgsView {
        ArgsView {
            print_config: self.print_config,
            config: match self.config {
                Some(Some(path)) => Some(Some(path@)),
                Some(None) => Some(None),
                None => None,
            },
            verbose: self.verbose,
            prompt: string_texts(self.prompt@),
        }
    }
}

impl View for PathStatus {
    type V = PathStatusView;

    open spec fn view(&self) -> PathStatusView {
        PathStatusView { path: self.path@, found: self.found }
    }
}

impl View for Output {
    type V = OutputView;

    open spec fn view(&self) -> OutputView {
        OutputView { stdout: string_texts(self.stdout@), stderr: string_texts(self.stderr@) }
    }
}

impl View for Next {
    type V = NextView;

    open spec fn view(&self) -> NextView {
        match *self {
            Next::Exit(status) => NextView::Exit(status),
            Next::Fetch(prompt) => NextView::Fetch(prompt@),
            Next::Copy(command) => NextView::Copy(command@),
        }
    }
}

impl View for Step {
    type V = StepView;

    open spec fn view(&self) -> StepView {
        StepView { output: self.output@, next: self.next@ }
    }
}

/// The view of a configuration, or of why there is none.
pub open spec fn load_view(loaded: Result<ConfigResult, String>) -> Result<
    ConfigResultView,
    Seq<char>,
> {
    match loaded {
        Ok(found) => Ok(found@),
        Err(message) => Err(message@),
    }
}

impl ArgsView {
    /// Whether to print the configuration: `--config` without a file asks for it
    /// as `--print-config` does.
    pub open spec fn shows_config(self) -> bool {
        self.print_config || self.config == Some(None::<Seq<char>>)
    }

    /// The configuration file that the user named, if any.
    pub open spec fn custom_config(self) -> Option<Seq<char>> {
        match self.config {
            Some(path) => path,
            None => None,
        }
    }
}

/// How an error is reported.
pub open spec fn error_line(message: Seq<char>) -> Seq<char> {
    "error: "@ + message
}

/// What is told about the configuration files that were loaded.
pub open spec fn loading_notes(verbose: u8, paths: Seq<Seq<char>>) -> Seq<Seq<char>> {
    if verbose < 2 {
        seq![]
    } else if paths.len() == 0 {
        seq!["note: no config files loaded"@]
    } else {
        paths.map_values(|path: Seq<char>| "note: loaded config from "@ + path)
    }
}

/// What is told of the API key: whether there is one, and not what it is.
pub open spec fn key_state(api_key: Option<Seq<char>>) -> Seq<char> {
    if api_key is Some {
        "(set)"@
    } else {
        "(not set)"@
    }
}

/// A line of the configuration report about a path of the search path.
pub open spec fn status_line(status: PathStatusView) -> Seq<char> {
    "  "@ + status.path + "  ("@ + if status.found {
        "found"@
    } else {
        "not found"@
    } + ")"@
}

/// The configuration report.
pub open spec fn config_report(
    listing: Seq<PathStatusView>,
    custom: Option<Seq<char>>,
    config: ConfigView,
) -> Seq<Seq<char>> {
    seq!["Config search paths (lowest -> highest priority):"@] + listing.map_values(
        |status: PathStatusView| status_line(status),
    ) + match custom {
        Some(path) => seq!["  "@ + path + "  (custom via -c)"@],
        None => seq![],
    } + seq![
        ""@,
        "Active values:"@,
        "  base_url  : "@ + config.base_url,
        "  model     : "@ + config.model,
        "  api_key   : "@ + key_state(config.api_key),
    ]
}

/// What is told about the configuration in force, at the highest verbosity.
pub open spec fn config_debug_lines(verbose: u8, config: ConfigView) -> Seq<Seq<char>> {
    if verbose < 3 {
        seq![]
    } else {
        seq![
            "debug: base_url = "@ + config.base_url,
            "debug: model = "@ + config.model,
            "debug: api_key = "@ + key_state(config.api_key),
        ]
    }
}

/// What is told about the request, at the highest verbosity.
pub open spec fn request_debug_lines(verbose: u8, base_url: Seq<char>) -> Seq<Seq<char>> {
    if verbose < 3 {
        seq![]
    } else {
        seq!["debug: POST "@ + endpoint(base_url)]
    }
}

/// What the user is told who gave no description.
pub open spec fn usage_lines() -> Seq<Seq<char>> {
    seq![
        "error: provide a description of what you want to do."@,
        "Usage: ai [OPTIONS] <description...>"@,
    ]
}

/// The first step of a run, once the configuration was or was not loaded.
pub open spec fn first_step(
    args: ArgsView,
    loaded: Result<ConfigResultView, Seq<char>>,
    listing: Seq<PathStatusView>,
) -> StepView {
    match loaded {
        Err(message) => StepView {
            output: OutputView { stdout: seq![], stderr: seq![error_line(message)] },
            next: NextView::Exit(1),
        },
        Ok(found) => {
            let config = found.config;
            let notes = loading_notes(args.verbose, found.loaded_paths);
            if args.shows_config() {
                StepView {
                    output: OutputView {
                        stdout: config_report(listing, args.custom_config(), config),
                        stderr: notes,
                    },
                    next: NextView::Exit(0),
                }
            } else if args.prompt.len() == 0 {
                StepView {
                    output: OutputView {
                        stdout: seq![],
                        stderr: notes + config_debug_lines(args.verbose, config) + usage_lines(),
                    },
                    next: NextView::Exit(1),
                }
            } else {
                StepView {
                    output: OutputView {
                        stdout: seq![],
                        stderr: notes + config_debug_lines(args.verbose, config)
                            + request_debug_lines(args.verbose, config.base_url),
                    },
                    next: NextView::Fetch(joined(args.prompt, seq![' '])),
                }
            }
        },
    }
}

/// The step after a command was or was not fetched.
pub open spec fn step_after_fetch(fetched: Result<Seq<char>, Seq<char>>) -> StepView {
    match fetched {
        Err(message) => StepView {
            output: OutputView { stdout: seq![], stderr: seq![error_line(message)] },
            next: NextView::Exit(1),
        },
        Ok(command) => StepView {
            output: OutputView { stdout: seq![command], stderr: seq![] },
            next: NextView::Copy(command),
        },
    }
}

/// What is told where the command could not be copied: that it could not, and at
/// the highest verbosity also why.
pub open spec fn clipboard_warning(verbose: u8, reason: Seq<char>) -> Seq<char> {
    if verbose < 3 {
        "note: clipboard unavailable"@
    } else {
        "note: clipboard unavailable: "@ + reason
    }
}

/// The last step of a run, after the command was or was not copied.
pub open spec fn last_step(verbose: u8, copied: Result<(), Seq<char>>) -> StepView {
    StepView {
        output: OutputView {
            stdout: seq![],
            stderr: match copied {
                Ok(_) => seq![],
                Err(reason) => seq![clipboard_warning(verbose, reason)],
            },
        },
        next: NextView::Exit(0),
    }
}

/// The views of a list of paths.
pub open spec fn status_views(listing: Seq<PathStatus>) -> Seq<PathStatusView> {
    listing.map_values(|status: PathStatus| status@)
}

impl Args {
    /// Whether to print the configuration in force and exit.
    pub fn shows_config(&self) -> (shown: bool)
        ensures
            shown == self@.shows_config(),
    {
        self.print_config || match &self.config {
            Some(None) => true,
            _ => false,
        }
    }

    /// The configuration file that the user named, if any.
    pub fn custom_config(&self) -> (path: Option<&str>)
        ensures
            option_str(path) == self@.custom_config(),
    {
        match &self.config {
            Some(Some(path)) => Some(path.as_str()),
            _ => None,
        }
    }
}

/// Adds a line.
fn add_line(lines: &mut Vec<String>, line: String)
    ensures
        string_texts(final(lines)@) == string_texts(old(lines)@).push(line@),
{
    lines.push(line);
    assert(string_texts(lines@) =~= string_texts(old(lines)@).push(line@));
}

/// Adds what is told about the configuration files that were loaded.
fn add_loading_notes(lines: &mut Vec<String>, verbose: u8, paths: &Vec<String>)
    ensures
        string_texts(final(lines)@) == string_texts(old(lines)@) + loading_notes(
            verbose,
            string_texts(paths@),
        ),
{
    let ghost start = string_texts(lines@);
    let ghost notes = loading_notes(verbose, string_texts(paths@));
    if verbose >= 2 {
        if paths.len() == 0 {
            add_line(lines, "note: no config files loaded".to_owned());
            assert(string_texts(lines@) =~= start + notes);
        } else {
            let mut i: usize = 0;
            assert(start + notes.take(0) =~= start);
            while i < paths.len()
                invariant
                    verbose >= 2,
                    paths@.len() > 0,
                    i <= paths.len(),
                    notes == loading_notes(verbose, string_texts(paths@)),
                    string_texts(lines@) == start + notes.take(i as int),
                decreases paths.len() - i,
            {
                let line = "note: loaded config from ".to_owned().concat(paths[i].as_str());
                assert(notes[i as int] == line@);
                assert((start + notes.take(i as int)).push(line@) =~= start + notes.take(i + 1));
                add_line(lines, line);
                i += 1;
            }
            assert(notes.take(i as int) =~= notes);
        }
    } else {
        assert(start + notes =~= start);
    }
}

/// What is told of the API key.
fn key_state_text(api_key: &Option<String>) -> (state: &'static str)
    ensures
        state@ == key_state(option_text(*api_key)),
{
    if api_key.is_some() {
        "(set)"
    } else {
        "(not set)"
    }
}

/// A line of the configuration report about a path of the search path.
fn status_text(status: &PathStatus) -> (line: String)
    ensures
        line@ == status_line(status@),
{
    let found = if status.found {
        "found"
    } else {
        "not found"
    };
    "  ".to_owned().concat(status.path.as_str()).concat("  (").concat(found).concat(")")
}

/// The configuration report.
pub fn report_config(
    listing: &Vec<PathStatus>,
    custom: Option<&str>,
    config: &Config,
) -> (lines: Vec<String>)
    ensures
        string_texts(lines@) == config_report(
            status_views(listing@),
            option_str(custom),
            config@,
        ),
{
    let mut lines: Vec<String> = Vec::new();
    let ghost views = status_views(listing@);
    let ghost statuses = views.map_values(|status: PathStatusView| status_line(status));
    let ghost title = seq!["Config search paths (lowest -> highest priority):"@];
    add_line(&mut lines, "Config search paths (lowest -> highest priority):".to_owned());
    assert(string_texts(lines@) =~= title + statuses.take(0));
    let mut i: usize = 0;
    while i < listing.len()
        invariant
            i <= listing.len(),
            views == status_views(listing@),
            statuses == views.map_values(|status: PathStatusView| status_line(status)),
            string_texts(lines@) == title + statuses.take(i as int),
        decreases listing.len() - i,
    {
        let line = status_text(&listing[i]);
        assert(statuses[i as int] == line@);
        assert((title + statuses.take(i as int)).push(line@) =~= title + statuses.take(i + 1));
        add_line(&mut lines, line);
        i += 1;
    }
    assert(statuses.take(i as int) =~= statuses);
    if let Some(path) = custom {
        add_line(&mut lines, "  ".to_owned().concat(path).concat("  (custom via -c)"));
    }
    add_line(&mut lines, "".to_owned());
    add_line(&mut lines, "Active values:".to_owned());
    add_line(&mut lines, "  base_url  : ".to_owned().concat(config.base_url.as_str()));
    add_line(&mut lines, "  model     : ".to_owned().concat(config.model.as_str()));
    add_line(&mut lines, "  api_key   : ".to_owned().concat(key_state_text(&config.api_key)));
    assert(string_texts(lines@) =~= config_report(views, option_str(custom), config@));
    lines
}

/// Adds what is told about the configuration in force.
fn add_config_debug_lines(lines: &mut Vec<String>, verbose: u8, config: &Config)
    ensures
        string_texts(final(lines)@) == string_texts(old(lines)@) + config_debug_lines(
            verbose,
            config@,
        ),
{
    if verbose >= 3 {
        add_line(lines, "debug: base_url = ".to_owned().concat(config.base_url.as_str()));
        add_line(lines, "debug: model = ".to_owned().concat(config.model.as_str()));
        add_line(lines, "debug: api_key = ".to_owned().concat(key_state_text(&config.api_key)));
    }
    assert(string_texts(lines@) =~= string_texts(old(lines)@) + config_debug_lines(
        verbose,
        config@,
    ));
}

/// Adds what is told about the request.
fn add_request_debug_lines(lines: &mut Vec<String>, verbose: u8, base_url: &str)
    ensures
        string_texts(final(lines)@) == string_texts(old(lines)@) + request_debug_lines(
            verbose,
            base_url@,
        ),
{
    if verbose >= 3 {
        add_line(lines, "debug: POST ".to_owned().concat(endpoint_url(base_url).as_str()));
    }
    assert(string_texts(lines@) =~= string_texts(old(lines)@) + request_debug_lines(
        verbose,
        base_url@,
    ));
}

/// The description, its words with a space between each and the next.
pub fn join_prompt(words: &Vec<String>) -> (prompt: String)
    ensures
        prompt@ == joined(string_texts(words@), seq![' ']),
{
    let mut parts: Vec<&str> = Vec::new();
    let mut i: usize = 0;
    while i < words.len()
        invariant
            i <= words.len(),
            texts(parts@) == string_texts(words@).take(i as int),
        decreases words.len() - i,
    {
        let part = words[i].as_str();
        assert(texts(parts@.push(part)) =~= texts(parts@).push(part@));
        assert(string_texts(words@).take(i + 1) =~= string_texts(words@).take(i as int).push(
            part@,
        ));
        parts.push(part);
        i += 1;
    }
    proof {
        assert(string_texts(words@).take(i as int) =~= string_texts(words@));
        reveal_strlit(" ");
        assert(" "@ =~= seq![' ']);
    }
    join(&parts, " ")
}

/// The step that reports an error and ends the run.
fn failure(message: &str) -> (step: Step)
    ensures
        step@ == (StepView {
            output: OutputView { stdout: seq![], stderr: seq![error_line(message@)] },
            next: NextView::Exit(1),
        }),
        step.output.stdout@.len() == 0,
        step.output.stderr@.len() == 1,
        step.output.stderr@[0]@ == "error: "@ + message@,
        step.next == Next::Exit(1),
{
    let stdout: Vec<String> = Vec::new();
    let mut stderr: Vec<String> = Vec::new();
    add_line(&mut stderr, "error: ".to_owned().concat(message));
    assert(string_texts(stdout@) =~= seq![]);
    assert(string_texts(stderr@) =~= seq![error_line(message@)]);
    assert(string_texts(stderr@).len() == stderr@.len());
    assert(string_texts(stderr@)[0] == stderr@[0]@);
    Step { output: Output { stdout, stderr }, next: Next::Exit(1) }
}

/// The first step of a run, once the configuration was or was not loaded.
///
/// `listing` says which files of the search path are there. Only the
/// configuration report needs it.
pub fn begin(
    args: &Args,
    loaded: &Result<ConfigResult, String>,
    listing: &Vec<PathStatus>,
) -> (step: Step)
    ensures
        step@ == first_step(args@, load_view(*loaded), status_views(listing@)),
{
    match loaded {
        Err(message) => failure(message.as_str()),
        Ok(found) => {
            let config = &found.config;
            let mut stderr: Vec<String> = Vec::new();
            assert(string_texts(stderr@) =~= seq![]);
            add_loading_notes(&mut stderr, args.verbose, &found.loaded_paths);
            let ghost notes = loading_notes(args.verbose, found@.loaded_paths);
            assert(string_texts(stderr@) =~= notes);
            if args.shows_config() {
                let stdout = report_config(listing, args.custom_config(), config);
                return Step { output: Output { stdout, stderr }, next: Next::Exit(0) };
            }
            let stdout: Vec<String> = Vec::new();
            assert(string_texts(stdout@) =~= seq![]);
            add_config_debug_lines(&mut stderr, args.verbose, config);
            if args.prompt.len() == 0 {
                add_line(
                    &mut stderr,
                    "error: provide a description of what you want to do.".to_owned(),
                );
                add_line(&mut stderr, "Usage: ai [OPTIONS] <description...>".to_owned());
                assert(string_texts(stderr@) =~= notes + config_debug_lines(args.verbose, config@)
                    + usage_lines());
                return Step { output: Output { stdout, stderr }, next: Next::Exit(1) };
            }
            add_request_debug_lines(&mut stderr, args.verbose, config.base_url.as_str());
            Step { output: Output { stdout, stderr }, next: Next::Fetch(join_prompt(&args.prompt)) }
        },
    }
}

/// The step after a command was or was not fetched: the command is printed, and
/// then copied.
pub fn after_fetch(fetched: &Result<String, String>) -> (step: Step)
    ensures
        step@ == step_after_fetch(result_text(*fetched)),
        fetched matches Ok(command) ==> {
            &&& step.output.stdout@.len() == 1
            &&& step.output.stdout@[0]@ == command@
            &&& step.output.stderr@.len() == 0
            &&& step.next matches Next::Copy(copied)
            &&& copied@ == command@
        },
        fetched matches Err(message) ==> {
            &&& step.output.stdout@.len() == 0
            &&& step.output.stderr@.len() == 1
            &&& step.output.stderr@[0]@ == "error: "@ + message@
            &&& step.next == Next::Exit(1)
        },
{
    match fetched {
        Err(message) => failure(message.as_str()),
        Ok(command) => {
            let mut stdout: Vec<String> = Vec::new();
            let stderr: Vec<String> = Vec::new();
            add_line(&mut stdout, command.clone());
            assert(string_texts(stdout@) =~= seq![command@]);
            assert(string_texts(stdout@).len() == stdout@.len());
            assert(string_texts(stdout@)[0] == stdout@[0]@);
            assert(string_texts(stderr@) =~= seq![]);
            Step { output: Output { stdout, stderr }, next: Next::Copy(command.clone()) }
        },
    }
}

/// What is told where the command could not be copied.
pub fn clipboard_note(verbose: u8, reason: &str) -> (note: String)
    ensures
        note@ == clipboard_warning(verbose, reason@),
{
    if verbose < 3 {
        "note: clipboard unavailable".to_owned()
    } else {
        "note: clipboard unavailable: ".to_owned().concat(reason)
    }
}

/// The last step of a run, after the command was or was not copied: either way
/// the run was a success.
pub fn after_copy(verbose: u8, copied: &Result<(), String>) -> (step: Step)
    ensures
        step@ == last_step(verbose, copy_text_error(*copied)),
{
    let stdout: Vec<String> = Vec::new();
    let mut stderr: Vec<String> = Vec::new();
    if let Err(reason) = copied {
        add_line(&mut stderr, clipboard_note(verbose, reason.as_str()));
    }
    assert(string_texts(stdout@) =~= seq![]);
    assert(string_texts(stderr@) =~= last_step(
        verbose,
        copy_text_error(*copied),
    ).output.stderr);
    Step { output: Output { stdout, stderr }, next: Next::Exit(0) }
}

/// Nothing that is printed tells the API key: it is the same for every key.
pub proof fn law_api_key_is_not_shown(
    args: ArgsView,
    found: ConfigResultView,
    other_key: Seq<char>,
    listing: Seq<PathStatusView>,
)
    requires
        found.config.api_key is Some,
    ensures
        first_step(args, Ok(found), listing) == first_step(
            args,
            Ok(
                (ConfigResultView {
                    config: (ConfigView { api_key: Some(other_key), ..found.config }),
                    ..found
                }),
            ),
            listing,
        ),
{
}

/// Unless the user asks for more, nothing is printed before the command.
pub proof fn law_quiet_by_default(
    args: ArgsView,
    found: ConfigResultView,
    listing: Seq<PathStatusView>,
)
    requires
        args.verbose < 2,
        !args.shows_config(),
        args.prompt.len() > 0,
    ensures
        first_step(args, Ok(found), listing) == (StepView {
            output: OutputView { stdout: seq![], stderr: seq![] },
            next: NextView::Fetch(joined(args.prompt, seq![' '])),
        }),
{
    assert(first_step(args, Ok(found), listing).output.stderr =~= seq![]);
}

/// The standard output holds the command and nothing else, unless the
/// configuration is asked for.
pub proof fn law_only_the_command_on_standard_output(
    args: ArgsView,
    loaded: Result<ConfigResultView, Seq<char>>,
    listing: Seq<PathStatusView>,
    command: Seq<char>,
    copied: Result<(), Seq<char>>,
)
    requires
        !args.shows_config(),
    ensures
        first_step(args, loaded, listing).output.stdout + step_after_fetch(
            Ok(command),
        ).output.stdout + last_step(args.verbose, copied).output.stdout == seq![command],
{
}

/// What is copied is what is printed: the command that was fetched, whole. Where none
/// was fetched, the reason is reported and nothing is copied.
pub proof fn law_what_is_copied_is_what_is_printed(fetched: Result<String, String>, step: Step)
    requires
        step@ == step_after_fetch(result_text(fetched)),
    ensures
        match fetched {
            Ok(command) => {
                &&& step.next matches Next::Copy(copied)
                &&& copied@ == command@
                &&& step.output.stdout@.len() == 1
                &&& step.output.stdout@[0]@ == command@
                &&& step.output.stderr@.len() == 0
            },
            Err(message) => {
                &&& step.next == Next::Exit(1)
                &&& step.output.stdout@.len() == 0
                &&& step.output.stderr@.len() == 1
                &&& step.output.stderr@[0]@ == "error: "@ + message@
            },
        },
{
    lemma_printed(step.output);
}

proof fn lemma_printed(output: Output)
    ensures
        output@.stdout.len() == output.stdout@.len(),
        forall|i: int|
            0 <= i < output.stdout@.len() ==> #[trigger] output.stdout@[i]@ == output@.stdout[i],
        output@.stderr.len() == output.stderr@.len(),
        forall|i: int|
            0 <= i < output.stderr@.len() ==> #[trigger] output.stderr@[i]@ == output@.stderr[i],
{
}

/// Whether the user asked for the configuration: with `--print-config`, or with
/// `--config` and no file.
pub open spec fn asks_for_config(args: Args) -> bool {
    args.print_config || (args.config matches Some(file) && file is None)
}

/// What a run does first. Where the configuration could not be loaded, that is
/// reported and the run fails. Else the configuration is shown where it was asked for;
/// and else the model is asked for what the words of the description say, a space
/// between each and the next, or the run fails where there are none.
pub proof fn law_what_a_run_does_first(
    args: Args,
    loaded: Result<ConfigResult, String>,
    listing: Seq<PathStatus>,
    step: Step,
)
    requires
        step@ == first_step(args@, load_view(loaded), status_views(listing)),
    ensures
        loaded matches Err(message) ==> {
            &&& step.next == Next::Exit(1)
            &&& step.output.stdout@.len() == 0
            &&& step.output.stderr@.len() == 1
            &&& step.output.stderr@[0]@ == "error: "@ + message@
        },
        loaded is Ok && asks_for_config(args) ==> step.next == Next::Exit(0),
        loaded is Ok && !asks_for_config(args) ==> step.output.stdout@.len() == 0,
        loaded is Ok && !asks_for_config(args) && args.prompt@.len() == 0 ==> step.next
            == Next::Exit(1),
        loaded is Ok && !asks_for_config(args) && args.prompt@.len() > 0 ==> {
            &&& step.next matches Next::Fetch(prompt)
            &&& prompt@ == joined(string_texts(args.prompt@), seq![' '])
        },
{
    lemma_printed(step.output);
    lemma_asks_for_config(args);
    assert(args@.prompt.len() == args.prompt@.len());
}

proof fn lemma_asks_for_config(args: Args)
    ensures
        args@.shows_config() == asks_for_config(args),
        args@.custom_config() == match args.config {
            Some(Some(path)) => Some(path@),
            _ => None,
        },
{
}

/// A description of one word is asked for as it is, and one more word follows a space.
pub proof fn law_words_of_the_description(words: Seq<Seq<char>>, word: Seq<char>)
    ensures
        joined(seq![word], seq![' ']) == word,
        words.len() > 0 ==> joined(words.push(word), seq![' ']) == joined(words, seq![' ']) + seq![
            ' ',
        ] + word,
{
    lemma_joined_push(words, seq![' '], word);
}

/// What is told on the way, at each level of verbosity. From the second level on, the
/// files that were loaded; at the third, unless the configuration is printed, the
/// values in force and where the request goes. Without a description, how the program
/// is used. Nothing else is told.
pub proof fn law_what_is_told_first(
    args: Args,
    found: ConfigResult,
    listing: Seq<PathStatus>,
    step: Step,
)
    requires
        step@ == first_step(args@, load_view(Ok(found)), status_views(listing)),
    ensures
        ({
            let told = step.output.stderr@;
            let paths = found.loaded_paths@;
            let notes: int = if args.verbose < 2 {
                0
            } else if paths.len() == 0 {
                1
            } else {
                paths.len() as int
            };
            let values: int = if args.verbose < 3 || asks_for_config(args) {
                0
            } else {
                3
            };
            let key = if found.config.api_key is Some {
                "(set)"@
            } else {
                "(not set)"@
            };
            &&& args.verbose >= 2 && paths.len() == 0 ==> told[0]@
                == "note: no config files loaded"@
            &&& args.verbose >= 2 ==> forall|i: int|
                0 <= i < paths.len() ==> (#[trigger] told[i])@ == "note: loaded config from "@
                    + paths[i]@
            &&& values == 3 ==> {
                &&& told[notes]@ == "debug: base_url = "@ + found.config.base_url@
                &&& told[notes + 1]@ == "debug: model = "@ + found.config.model@
                &&& told[notes + 2]@ == "debug: api_key = "@ + key
            }
            &&& asks_for_config(args) ==> told.len() == notes
            &&& !asks_for_config(args) && args.prompt@.len() == 0 ==> {
                &&& told.len() == notes + values + 2
                &&& told[notes + values]@ == "error: provide a description of what you want to do."@
                &&& told[notes + values + 1]@ == "Usage: ai [OPTIONS] <description...>"@
            }
            &&& !asks_for_config(args) && args.prompt@.len() > 0 && args.verbose < 3 ==> told.len()
                == notes
            &&& !asks_for_config(args) && args.prompt@.len() > 0 && args.verbose >= 3 ==> {
                &&& told.len() == notes + 4
                &&& told[notes + 3]@ == "debug: POST "@ + endpoint(found.config.base_url@)
            }
        }),
{
    lemma_printed(step.output);
    lemma_asks_for_config(args);
    assert(args@.prompt.len() == args.prompt@.len());
    let lines = step@.output.stderr;
    let paths = found@.loaded_paths;
    assert(paths.len() == found.loaded_paths@.len());
    assert(forall|i: int|
        0 <= i < paths.len() ==> #[trigger] found.loaded_paths@[i]@ == paths[i]);
    let notes = loading_notes(args.verbose, paths);
    assert(forall|i: int| 0 <= i < notes.len() ==> #[trigger] lines[i] == notes[i]);
}

/// The configuration report: the files of the search path, each with whether it is
/// there, then the file that the user named, and then the values in force. Of the API
/// key it says only whether there is one.
pub proof fn law_lines_of_the_report(
    listing: Seq<PathStatus>,
    custom: Option<&str>,
    config: Config,
    lines: Seq<String>,
)
    requires
        string_texts(lines) == config_report(status_views(listing), option_str(custom), config@),
    ensures
        ({
            let n = listing.len() as int;
            let rest = n + if custom is Some {
                2int
            } else {
                1
            };
            let key = if config.api_key is Some {
                "(set)"@
            } else {
                "(not set)"@
            };
            &&& lines.len() == rest + 5
            &&& lines[0]@ == "Config search paths (lowest -> highest priority):"@
            &&& forall|i: int|
                0 <= i < n ==> lines[i + 1]@ == "  "@ + (#[trigger] listing[i]).path@ + "  ("@
                    + (if listing[i].found {
                    "found"@
                } else {
                    "not found"@
                }) + ")"@
            &&& custom matches Some(path) ==> lines[n + 1]@ == "  "@ + path@ + "  (custom via -c)"@
            &&& lines[rest]@ == ""@
            &&& lines[rest + 1]@ == "Active values:"@
            &&& lines[rest + 2]@ == "  base_url  : "@ + config.base_url@
            &&& lines[rest + 3]@ == "  model     : "@ + config.model@
            &&& lines[rest + 4]@ == "  api_key   : "@ + key
        }),
{
    let shown = string_texts(lines);
    let views = status_views(listing);
    let statuses = views.map_values(|status: PathStatusView| status_line(status));
    assert(shown.len() == lines.len());
    assert(forall|i: int| 0 <= i < lines.len() ==> #[trigger] lines[i]@ == shown[i]);
    assert forall|i: int| 0 <= i < listing.len() implies lines[i + 1]@ == "  "@ + (
    #[trigger] listing[i]).path@ + "  ("@ + (if listing[i].found {
        "found"@
    } else {
        "not found"@
    }) + ")"@ by {
        assert(views[i] == listing[i]@);
        assert(statuses[i] == status_line(views[i]));
        assert(shown[i + 1] == statuses[i]);
    }
}

/// Where the configuration is asked for, the report is what is printed.
pub proof fn law_report_is_printed(
    args: Args,
    found: ConfigResult,
    listing: Seq<PathStatus>,
    step: Step,
)
    requires
        step@ == first_step(args@, load_view(Ok(found)), status_views(listing)),
        asks_for_config(args),
    ensures
        string_texts(step.output.stdout@) == config_report(
            status_views(listing),
            match args.config {
                Some(Some(path)) => Some(path@),
                _ => None,
            },
            found.config@,
        ),
{
    lemma_asks_for_config(args);
}

/// A run that printed a command ends well. A copy that was made is not spoken of; one
/// that was not is, and at the highest verbosity with the reason.
pub proof fn law_what_is_told_last(verbose: u8, copied: Result<(), String>, step: Step)
    requires
        step@ == last_step(verbose, copy_text_error(copied)),
    ensures
        step.next == Next::Exit(0),
        step.output.stdout@.len() == 0,
        copied is Ok ==> step.output.stderr@.len() == 0,
        copied matches Err(reason) ==> {
            &&& step.output.stderr@.len() == 1
            &&& step.output.stderr@[0]@ == if verbose < 3 {
                "note: clipboard unavailable"@
            } else {
                "note: clipboard unavailable: "@ + reason@
            }
            &&& clipboard_warning(verbose, reason@) == step.output.stderr@[0]@
        },
{
    lemma_printed(step.output);
}

} // verus!
