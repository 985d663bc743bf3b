use ai::command::clean_command;

#[test]
fn plain_passthrough() {
    assert_eq!(clean_command("ls -la"), "ls -la");
}

#[test]
fn trims_surrounding_whitespace() {
    assert_eq!(clean_command("  ls -la  "), "ls -la");
}

#[test]
fn only_whitespace() {
    assert_eq!(clean_command("   "), "");
}

#[test]
fn triple_backtick_no_lang() {
    assert_eq!(clean_command("```\nls -la\n```"), "ls -la");
}

#[test]
fn triple_backtick_with_lang() {
    assert_eq!(clean_command("```bash\nls -la\n```"), "ls -la");
}

#[test]
fn triple_backtick_multiline() {
    assert_eq!(clean_command("```sh\ncmd1\ncmd2\n```"), "cmd1\ncmd2");
}

#[test]
fn triple_backtick_trims_inner_whitespace() {
    assert_eq!(clean_command("```\n  ls -la  \n```"), "ls -la");
}

#[test]
fn triple_backtick_empty_body() {
    assert_eq!(clean_command("```\n```"), "");
}

#[test]
fn whitespace_only_inside_fence() {
    assert_eq!(clean_command("```\n   \n```"), "");
}

#[test]
fn single_backtick_wrapping() {
    assert_eq!(clean_command("`ls -la`"), "ls -la");
}

#[test]
fn single_backtick_trims_inner() {
    assert_eq!(clean_command("`  ls -la  `"), "ls -la");
}

#[test]
fn single_backtick_missing_closing() {
    assert_eq!(clean_command("`ls -la"), "`ls -la");
}

#[test]
fn single_backtick_minimum_length_guard() {
    assert_eq!(clean_command("``"), "``");
}

#[test]
fn single_backtick_three_chars() {
    assert_eq!(clean_command("`x`"), "x");
}

#[test]
fn one_backtick_is_kept() {
    assert_eq!(clean_command("`"), "`");
}

#[test]
fn empty_reply() {
    assert_eq!(clean_command(""), "");
}

#[test]
fn text_behind_the_closing_fence_is_dropped() {
    assert_eq!(clean_command("```sh\nls\n``` lists the files\nrm x"), "ls");
}

#[test]
fn fence_without_an_end() {
    assert_eq!(clean_command("```sh\nls\npwd\n"), "ls\npwd");
}

#[test]
fn fence_on_one_line_holds_nothing() {
    assert_eq!(clean_command("```ls```"), "");
}

#[test]
fn three_backticks_are_a_fence() {
    assert_eq!(clean_command("```"), "");
}

#[test]
fn carriage_returns_before_line_feeds_are_dropped() {
    assert_eq!(clean_command("```sh\r\ncmd1\r\ncmd2\r\n```\r\n"), "cmd1\ncmd2");
}

#[test]
fn other_carriage_returns_are_kept() {
    assert_eq!(clean_command("```\na\rb\n```"), "a\rb");
}

#[test]
fn blank_lines_inside_a_fence_are_kept() {
    assert_eq!(clean_command("```\n\na\n\nb\n\n```"), "a\n\nb");
}

#[test]
fn indented_fence_closes_nothing() {
    assert_eq!(clean_command("```\na\n ```\nb\n```"), "a\n ```\nb");
}

#[test]
fn fence_inside_the_text_is_kept() {
    assert_eq!(clean_command("run ```\nls\n```"), "run ```\nls\n```");
}

#[test]
fn unicode_white_space_is_trimmed() {
    assert_eq!(clean_command("\u{3000}\u{a0}ls\u{2028}\u{85}"), "ls");
    assert_eq!(clean_command("\u{200b}ls"), "\u{200b}ls");
}

#[test]
fn characters_of_several_bytes() {
    assert_eq!(clean_command("`é`"), "é");
    assert_eq!(clean_command("```\necho 日本語\n```"), "echo 日本語");
}

#[test]
fn backticks_in_a_fence_stay() {
    assert_eq!(clean_command("```\n`ls`\n```"), "`ls`");
    assert_eq!(clean_command(&clean_command("```\n`ls`\n```")), "ls");
}

#[test]
fn cleaning_again_changes_nothing() {
    for raw in ["ls", "  ls  ", "`ls`", "```\nls\npwd\n```", "``", "`"] {
        let once = clean_command(raw);
        assert_eq!(clean_command(&once), once);
    }
}

#[test]
fn surrounding_white_space_makes_no_difference() {
    for raw in ["ls", "`ls`", "```\nls\npwd\n```", ""] {
        assert_eq!(clean_command(&format!(" \n\t{raw}\r\n ")), clean_command(raw));
    }
}
