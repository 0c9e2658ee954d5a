//! Configuration building, its error cases, and the text helpers it
//! rests on.

use rly::cli::Args;
use rly::colors::{colorize, ColorError};
use rly::command::Command;
use rly::config::{maybe_repeat, Config, ConfigError};
use rly::event_loop::{status_string, ProcStatus};

fn args_for(commands: &[&str]) -> Args {
    let mut args = Args::default();
    args.commands = commands.iter().map(|s| s.to_string()).collect();
    args
}

#[test]
fn it_prints_help_when_no_commands_are_given() {
    // The binary prints the usage help in this case; the library reports
    // the configuration error that triggers it.
    let args = args_for(&[]);
    let res = Config::from_args(args);
    assert!(matches!(res, Err(ConfigError::NoCommands)));
}

#[test]
fn conflicting_kill_flags_are_rejected() {
    let mut args = args_for(&["ls"]);
    args.kill_others = true;
    args.kill_others_on_fail = true;
    let res = Config::from_args(args);
    assert!(matches!(res, Err(ConfigError::ConflictingKillFlags)));
}

#[test]
fn bad_timestamp_format_is_rejected() {
    let mut args = args_for(&["ls"]);
    args.timestamp_format = "%Q".to_string();
    let res = Config::from_args(args);
    assert!(matches!(res, Err(ConfigError::BadTimestampFormat)));
}

#[test]
fn unknown_color_modifier_is_rejected() {
    let mut args = args_for(&["ls"]);
    args.prefix_colors = "blue.sparkly".to_string();
    match Config::from_args(args) {
        Err(ConfigError::UnknownModifier(m)) => assert_eq!(m, "sparkly"),
        other => panic!("expected an unknown-modifier error, got {:?}", other),
    }
}

#[test]
fn unknown_modifier_is_accepted_under_no_color() {
    let mut args = args_for(&["ls"]);
    args.prefix_colors = "blue.sparkly".to_string();
    args.no_color = true;
    assert!(Config::from_args(args).is_ok());
}

#[test]
fn maybe_repeat_pads_with_the_last_piece() {
    let got = maybe_repeat("a,b", ',', 4);
    assert_eq!(got, vec!["a", "b", "b", "b"]);
}

#[test]
fn maybe_repeat_keeps_extra_pieces() {
    let got = maybe_repeat("a|b|c", '|', 2);
    assert_eq!(got, vec!["a", "b", "c"]);
}

#[test]
fn shorten_elides_the_middle() {
    assert_eq!(Command::shorten(10, "cat some-file"), "cat ..file");
    assert_eq!(Command::shorten(11, "cat some-file"), "cat s..file");
    assert_eq!(Command::shorten(13, "cat some-file"), "cat some-file");
    assert_eq!(Command::shorten(1, "abc"), "..");
}

#[test]
fn prefix_substitutes_the_pid() {
    let mut args = args_for(&["ls"]);
    args.prefix = "[{pid}]".to_string();
    let config = Config::from_args(args).unwrap();
    assert_eq!(config.commands[0].prefix(42), "[42]");
}

#[test]
fn hidden_commands_disable_output() {
    let mut args = args_for(&["ls", "pwd"]);
    args.hide = Some("1".to_string());
    let config = Config::from_args(args).unwrap();
    assert!(!config.commands[0].disable_output());
    assert!(config.commands[1].disable_output());
}

#[test]
fn status_strings_follow_the_exit_status() {
    assert_eq!(status_string(ProcStatus::Code(0)), "exit status: 0");
    assert_eq!(status_string(ProcStatus::Code(137)), "exit status: 137");
    assert_eq!(status_string(ProcStatus::Signal(15)), "signal: 15 (SIGTERM)");
    assert_eq!(status_string(ProcStatus::Signal(9)), "signal: 9 (SIGKILL)");
    assert_eq!(status_string(ProcStatus::Signal(64)), "signal: 64");
}

#[test]
fn colorize_wraps_the_prefix_in_escape_codes() {
    colored::control::set_override(true);
    assert_eq!(colorize(0, "red", "[0]").unwrap(), "\u{1b}[31m[0]\u{1b}[0m");
    assert_eq!(
        colorize(0, "blue.bgRed", "[0]").unwrap(),
        "\u{1b}[41;34m[0]\u{1b}[0m"
    );
}

#[test]
fn colorize_rejects_unknown_modifiers() {
    match colorize(0, "red.loud", "[0]") {
        Err(ColorError::UnknownModifier(m)) => assert_eq!(m, "loud"),
        other => panic!("expected an unknown-modifier error, got {:?}", other),
    }
}

#[test]
fn default_arguments_match_the_command_line_defaults() {
    let args = Args::default();
    assert_eq!(args.prefix, "[{name}]");
    assert_eq!(args.prefix_colors, "reset");
    assert_eq!(args.name_separator, ',');
    assert_eq!(args.prefix_length, 10);
    assert_eq!(args.restart_tries, 0);
    assert_eq!(args.restart_after, 0);
    assert!(!args.no_color && !args.kill_others && !args.kill_others_on_fail);
}
