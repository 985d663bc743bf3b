use ai::config::{Config, ConfigResult};
use ai::session::{
    after_copy, after_fetch, begin, clipboard_note, join_prompt, report_config, Args, Next,
    PathStatus, Step,
};

fn args(verbose: u8, prompt: &[&str]) -> Args {
    Args {
        print_config: false,
        config: None,
        verbose,
        prompt: prompt.iter().map(|word| word.to_string()).collect(),
    }
}

fn config(api_key: Option<&str>) -> Config {
    Config {
        api_key: api_key.map(str::to_string),
        base_url: "http://a.io/v1/".to_string(),
        model: "m".to_string(),
    }
}

fn loaded(paths: &[&str]) -> Result<ConfigResult, String> {
    Ok(ConfigResult {
        config: config(Some("secret")),
        loaded_paths: paths.iter().map(|path| path.to_string()).collect(),
    })
}

fn listing() -> Vec<PathStatus> {
    vec![
        PathStatus {
            path: "/etc/ai/config.toml".to_string(),
            found: false,
        },
        PathStatus {
            path: "/c/ai/config.toml".to_string(),
            found: true,
        },
    ]
}

fn exit_status(step: &Step) -> Option<i32> {
    match step.next {
        Next::Exit(status) => Some(status),
        _ => None,
    }
}

#[test]
fn quiet_run() {
    let step = begin(&args(0, &["list", "all", "files"]), &loaded(&["a"]), &vec![]);
    assert!(step.output.stdout.is_empty());
    assert!(step.output.stderr.is_empty());
    assert!(matches!(step.next, Next::Fetch(prompt) if prompt == "list all files"));
}

#[test]
fn configuration_that_cannot_be_loaded() {
    let step = begin(&args(3, &["x"]), &Err("Config file not found: a".to_string()), &vec![]);
    assert!(step.output.stdout.is_empty());
    assert_eq!(step.output.stderr, vec!["error: Config file not found: a"]);
    assert_eq!(exit_status(&step), Some(1));
}

#[test]
fn notes_on_loaded_files() {
    let step = begin(&args(2, &["x"]), &loaded(&["/a", "/b"]), &vec![]);
    assert_eq!(
        step.output.stderr,
        vec!["note: loaded config from /a", "note: loaded config from /b"]
    );
    let step = begin(&args(2, &["x"]), &loaded(&[]), &vec![]);
    assert_eq!(step.output.stderr, vec!["note: no config files loaded"]);
    let step = begin(&args(1, &["x"]), &loaded(&[]), &vec![]);
    assert!(step.output.stderr.is_empty());
}

#[test]
fn debug_lines() {
    let step = begin(&args(3, &["x"]), &loaded(&["/a"]), &vec![]);
    assert_eq!(
        step.output.stderr,
        vec![
            "note: loaded config from /a",
            "debug: base_url = http://a.io/v1/",
            "debug: model = m",
            "debug: api_key = (set)",
            "debug: POST http://a.io/v1/chat/completions",
        ]
    );
}

#[test]
fn no_description() {
    let step = begin(&args(0, &[]), &loaded(&[]), &vec![]);
    assert!(step.output.stdout.is_empty());
    assert_eq!(
        step.output.stderr,
        vec![
            "error: provide a description of what you want to do.",
            "Usage: ai [OPTIONS] <description...>",
        ]
    );
    assert_eq!(exit_status(&step), Some(1));

    let step = begin(&args(255, &[]), &loaded(&[]), &vec![]);
    assert_eq!(step.output.stderr.len(), 6);
}

#[test]
fn configuration_report() {
    let mut asked = args(0, &[]);
    asked.print_config = true;
    asked.config = Some(Some("my.toml".to_string()));
    let step = begin(&asked, &loaded(&["my.toml"]), &listing());
    assert_eq!(
        step.output.stdout,
        vec![
            "Config search paths (lowest -> highest priority):",
            "  /etc/ai/config.toml  (not found)",
            "  /c/ai/config.toml  (found)",
            "  my.toml  (custom via -c)",
            "",
            "Active values:",
            "  base_url  : http://a.io/v1/",
            "  model     : m",
            "  api_key   : (set)",
        ]
    );
    assert!(step.output.stderr.is_empty());
    assert_eq!(exit_status(&step), Some(0));
}

#[test]
fn report_without_a_key() {
    let lines = report_config(&vec![], None, &config(None));
    assert_eq!(lines.len(), 6);
    assert_eq!(lines[5], "  api_key   : (not set)");
}

#[test]
fn config_option_without_a_file_asks_for_the_report() {
    let mut asked = args(0, &[]);
    assert!(!asked.shows_config());
    assert_eq!(asked.custom_config(), None);
    asked.config = Some(None);
    assert!(asked.shows_config());
    assert_eq!(asked.custom_config(), None);
    asked.config = Some(Some("a".to_string()));
    assert!(!asked.shows_config());
    assert_eq!(asked.custom_config(), Some("a"));
}

#[test]
fn fetched_command_is_printed_and_copied() {
    let step = after_fetch(&Ok("ls -la".to_string()));
    assert_eq!(step.output.stdout, vec!["ls -la"]);
    assert!(step.output.stderr.is_empty());
    assert!(matches!(step.next, Next::Copy(command) if command == "ls -la"));
}

#[test]
fn failed_fetch_is_reported() {
    let step = after_fetch(&Err("API error 500: x".to_string()));
    assert!(step.output.stdout.is_empty());
    assert_eq!(step.output.stderr, vec!["error: API error 500: x"]);
    assert_eq!(exit_status(&step), Some(1));
}

#[test]
fn failed_copy_is_a_warning() {
    let step = after_copy(0, &Err("why".to_string()));
    assert!(step.output.stdout.is_empty());
    assert_eq!(step.output.stderr, vec!["note: clipboard unavailable"]);
    assert_eq!(exit_status(&step), Some(0));
    assert_eq!(clipboard_note(2, "why"), "note: clipboard unavailable");
    assert_eq!(clipboard_note(3, "why"), "note: clipboard unavailable: why");
}

#[test]
fn copy_that_was_made_is_not_mentioned() {
    let step = after_copy(3, &Ok(()));
    assert!(step.output.stdout.is_empty());
    assert!(step.output.stderr.is_empty());
    assert_eq!(exit_status(&step), Some(0));
}

#[test]
fn key_is_not_shown() {
    let mut asked = args(3, &["x"]);
    let step = begin(&asked, &loaded(&[]), &listing());
    assert!(!step.output.stderr.iter().any(|line| line.contains("secret")));
    asked.print_config = true;
    let step = begin(&asked, &loaded(&[]), &listing());
    assert!(!step.output.stdout.iter().any(|line| line.contains("secret")));
}

#[test]
fn words_of_the_description() {
    assert_eq!(join_prompt(&vec!["a".to_string(), "b c".to_string()]), "a b c");
    assert_eq!(join_prompt(&vec![]), "");
}
