use breakpoints::commands::active_terminal;
use breakpoints::terminal::{
    app_paths, applescript_for, applescript_quote, focus, refused, script_for, shell_quote, start,
    unanswered, Start, Terminal, NO_COMMAND,
};

#[test]
fn the_script_changes_directory_and_runs_the_command() {
    let script = script_for(Some("/Users/rick/Herd/site"), "agent \"/x\"");
    assert!(script.starts_with("#!/bin/sh"));
    assert!(script.contains("cd '/Users/rick/Herd/site'"));
    assert!(script.trim_end().ends_with("exec agent \"/x\""));
}

/// A folder with a quote in its name is not a way to run something else.
#[test]
fn a_quote_in_the_path_cannot_escape_the_quoting() {
    let script = script_for(Some("/tmp/it's here"), "agent");
    assert!(script.contains(r"cd '/tmp/it'\''s here'"), "{script}");
}

#[test]
fn with_no_project_it_just_runs_the_command() {
    let script = script_for(None, "codex");
    assert!(!script.contains("cd "));
    assert!(script.contains("exec codex"));
}

#[test]
fn terminal_ids_round_trip() {
    for terminal in Terminal::all() {
        assert_eq!(Terminal::from_id(terminal.id()), Some(terminal));
    }
    assert_eq!(Terminal::from_id("nothing"), None);
}

/// The default pick is the one that needs nothing granted and is on every
/// Mac. Getting this order wrong makes the button fail on first press for
/// somebody who never opened the settings.
#[test]
fn terminal_app_is_first_and_needs_no_permission() {
    assert_eq!(Terminal::all()[0], Terminal::Terminal);
    assert!(!Terminal::Terminal.needs_permission());
    assert!(Terminal::ITerm.needs_permission());
}

/// Terminal.app is bundled with macOS and is the fallback everything else
/// leans on, so its folder has to be one we look in.
#[test]
fn terminal_app_is_found_where_macos_keeps_it() {
    assert!(app_paths("Terminal", None)
        .iter()
        .any(|p| p.starts_with("/System/Applications/Utilities")));
    assert!(app_paths("kitty", Some("/Users/rick"))
        .contains(&"/Users/rick/Applications/kitty.app".to_string()));
}

#[test]
fn a_quote_in_the_script_path_cannot_escape_the_applescript_string() {
    let quoted = applescript_quote(r#"/tmp/a"b\c"#);
    assert_eq!(quoted, r#""/tmp/a\"b\\c""#);
}

#[test]
fn each_terminal_is_started_the_one_way_it_takes() {
    assert_eq!(shell_quote("a b"), "'a b'");
    match start(Terminal::Terminal, true, "agent", "/s/x.command").unwrap() {
        Start::Open(args) => assert_eq!(args, vec!["-a", "Terminal", "/s/x.command"]),
        Start::Script(_) => panic!("Terminal.app takes a document"),
    }
    match start(Terminal::WezTerm, true, "agent", "/s/x.command").unwrap() {
        Start::Open(args) => assert_eq!(
            args,
            vec!["-n", "-a", "WezTerm", "--args", "start", "--", "/s/x.command"]
        ),
        Start::Script(_) => panic!("WezTerm takes arguments"),
    }
    match start(Terminal::ITerm, true, "agent", "/s/x.command").unwrap() {
        Start::Open(_) => panic!("iTerm takes neither"),
        Start::Script(source) => assert_eq!(source, applescript_for(Terminal::ITerm, "/s/x.command")),
    }
    assert_eq!(start(Terminal::Kitty, true, "  ", "/s").unwrap_err(), NO_COMMAND);
    assert_eq!(
        start(Terminal::Kitty, false, "agent", "/s").unwrap_err(),
        "kitty is not installed on this machine."
    );
    assert_eq!(focus(Terminal::Kitty, true), Ok("kitty".to_string()));
    assert!(focus(Terminal::Kitty, false).is_err());
    assert!(refused(Terminal::ITerm, " no ").contains("session (no). macOS"));
    assert!(refused(Terminal::ITerm, "").contains("session. macOS"));
    assert!(unanswered(Terminal::ITerm).starts_with("iTerm did not answer."));
}

#[test]
fn a_terminal_that_is_gone_gives_way_to_the_first_there_is() {
    let there = vec![Terminal::Terminal, Terminal::Kitty];
    assert_eq!(active_terminal(&Some("kitty".into()), &there), Some(Terminal::Kitty));
    assert_eq!(active_terminal(&Some("ghostty".into()), &there), Some(Terminal::Terminal));
}
