//! Whole-run scenarios: each test builds a configuration from parsed
//! arguments, replays the observations a real run would deliver, and
//! compares the printed lines.

use rly::cli::Args;
use rly::config::Config;
use rly::event_loop::ProcStatus;
use rly::trace::{replay, Stimulus};

fn args_for(commands: &[&str]) -> Args {
    let mut args = Args::default();
    args.commands = commands.iter().map(|s| s.to_string()).collect();
    args
}

fn run(args: Args, stimuli: Vec<Stimulus>) -> String {
    let config = Config::from_args(args).expect("configuration should be accepted");
    let lines = replay(config, stimuli);
    let mut out = String::new();
    for l in lines {
        out.push_str(&l);
        out.push('\n');
    }
    out
}

fn spawn(command_idx: usize, pid: u32) -> Stimulus {
    Stimulus::Spawn { command_idx, is_restart: false, pid }
}

fn respawn(command_idx: usize, pid: u32) -> Stimulus {
    Stimulus::Spawn { command_idx, is_restart: true, pid }
}

fn output(command_idx: usize, line: &str) -> Stimulus {
    Stimulus::Output { command_idx, line: line.to_string() }
}

fn exit_code(command_idx: usize, code: i32) -> Stimulus {
    Stimulus::Exit { command_idx, status: ProcStatus::Code(code) }
}

fn exit_signal(command_idx: usize, signal: i32) -> Stimulus {
    Stimulus::Exit { command_idx, status: ProcStatus::Signal(signal) }
}

/// Compares two outputs line by line, ignoring the order of lines, since
/// the interleaving of a real run is not deterministic.
fn assert_eq_lines_unordered(expected: impl AsRef<str>, actual: impl AsRef<str>) {
    let mut expected_lines: Vec<&str> = expected.as_ref().split('\n').collect();
    let mut actual_lines: Vec<&str> = actual.as_ref().split('\n').collect();
    expected_lines.sort_unstable();
    actual_lines.sort_unstable();
    assert_eq!(expected_lines, actual_lines);
}

fn escape_debug_by_line(s: impl AsRef<str>) -> String {
    s.as_ref()
        .escape_debug()
        .to_string()
        .split("\\n")
        .collect::<Vec<_>>()
        .join("\n")
}

#[test]
fn it_runs_a_single_basic_command() {
    let args = args_for(&["ls"]);
    let out = run(args, vec![spawn(0, 101), output(0, "some-file"), exit_code(0, 0)]);

    let expected = r#"[0] some-file
[0] ls exited with exit status: 0
"#;

    assert_eq_lines_unordered(expected, out);
}

#[test]
fn it_runs_a_basic_command() {
    let args = args_for(&["ls .", "sleep 0.1; cat some-file; exit 1"]);
    let out = run(
        args,
        vec![
            spawn(0, 101),
            spawn(1, 102),
            output(0, "some-file"),
            output(0, "some-other-file"),
            exit_code(0, 0),
            output(1, "some-file-contents"),
            exit_code(1, 1),
        ],
    );

    let expected = r#"[0] some-file
[0] some-other-file
[0] ls . exited with exit status: 0
[1] some-file-contents
[1] sleep 0.1; cat some-file; exit 1 exited with exit status: 1
"#;

    assert_eq_lines_unordered(expected, out);
}

#[test]
fn it_supports_names() {
    let mut args = args_for(&["ls .", "sleep 0.1; cat some-file; exit 1"]);
    args.names = Some("ls,cat".to_string());
    let out = run(
        args,
        vec![
            spawn(0, 101),
            spawn(1, 102),
            output(0, "some-file"),
            output(0, "some-other-file"),
            exit_code(0, 0),
            output(1, "some-file-contents"),
            exit_code(1, 1),
        ],
    );

    let expected = r#"[ls] some-file
[ls] some-other-file
[ls] ls . exited with exit status: 0
[cat] some-file-contents
[cat] sleep 0.1; cat some-file; exit 1 exited with exit status: 1
"#;

    assert_eq_lines_unordered(expected, out);
}

#[test]
fn it_repeats_last_name_if_not_enough_names_are_given() {
    let mut args = args_for(&[
        "ls .",
        "sleep 0.2; cat some-file; exit 1",
        "sleep 0.1; cat some-other-file",
    ]);
    args.names = Some("ls,repeat".to_string());
    let out = run(
        args,
        vec![
            spawn(0, 101),
            spawn(1, 102),
            spawn(2, 103),
            output(0, "some-file"),
            output(0, "some-other-file"),
            exit_code(0, 0),
            output(2, "some-other-file-contents"),
            exit_code(2, 0),
            output(1, "some-file-contents"),
            exit_code(1, 1),
        ],
    );

    let expected = r#"[ls] some-file
[ls] some-other-file
[ls] ls . exited with exit status: 0
[repeat] some-other-file-contents
[repeat] sleep 0.1; cat some-other-file exited with exit status: 0
[repeat] some-file-contents
[repeat] sleep 0.2; cat some-file; exit 1 exited with exit status: 1
"#;

    assert_eq_lines_unordered(expected, out);
}

#[test]
fn it_supports_custom_prefixes() {
    let mut args = args_for(&["cat some-file"]);
    args.prefix = "[{index}-{command}]".to_string();
    args.prefix_length = 14;
    let out = run(
        args,
        vec![spawn(0, 101), output(0, "some-file-contents"), exit_code(0, 0)],
    );

    let expected = r#"[0-cat some-file] some-file-contents
[0-cat some-file] cat some-file exited with exit status: 0
"#;

    assert_eq_lines_unordered(expected, out);
}

#[test]
fn it_supports_time_prefix() {
    let timestamp_format = "%Y-%m-%d %H:%M";
    let mut args = args_for(&["cat some-file"]);
    args.prefix = "[{time}]".to_string();
    args.timestamp_format = timestamp_format.to_string();
    args.prefix_length = 25;
    let out = run(
        args,
        vec![spawn(0, 101), output(0, "some-file-contents"), exit_code(0, 0)],
    );

    let expected_time = chrono::Local::now().format(timestamp_format);
    let expected = format!(
        r#"[{0}] some-file-contents
[{0}] cat some-file exited with exit status: 0
"#,
        expected_time
    );

    assert_eq_lines_unordered(expected, out);
}

#[test]
fn it_supports_disabling_color() {
    let mut args = args_for(&["cat some-file"]);
    args.prefix = "[{index}]".to_string();
    args.prefix_colors = "blue.bgRed".to_string();
    args.no_color = true;
    let out = run(
        args,
        vec![spawn(0, 101), output(0, "some-file-contents"), exit_code(0, 0)],
    );

    let expected = r#"[0] some-file-contents
[0] cat some-file exited with exit status: 0
"#;

    assert_eq_lines_unordered(expected, out);
}

#[test]
fn it_supports_colors() {
    colored::control::set_override(true);
    let mut args = args_for(&["cat some-file", "sleep 0.1; echo foo", "sleep 0.2; echo bar"]);
    args.prefix_colors = "blue.strikethrough.bgRed,green".to_string();
    let out = run(
        args,
        vec![
            spawn(0, 101),
            spawn(1, 102),
            spawn(2, 103),
            output(0, "some-file-contents"),
            exit_code(0, 0),
            output(1, "foo"),
            exit_code(1, 0),
            output(2, "bar"),
            exit_code(2, 0),
        ],
    );

    let expected_prefix = "\u{1b}[9;41;34m[0]\u{1b}[0m";
    let expected_prefix_green_1 = "\u{1b}[32m[1]\u{1b}[0m";
    let expected_prefix_green_2 = "\u{1b}[32m[2]\u{1b}[0m";
    let expected = format!(
        "{0} some-file-contents
{0} cat some-file exited with exit status: 0
{1} foo
{1} sleep 0.1; echo foo exited with exit status: 0
{2} bar
{2} sleep 0.2; echo bar exited with exit status: 0
",
        expected_prefix, expected_prefix_green_1, expected_prefix_green_2
    );

    assert_eq_lines_unordered(escape_debug_by_line(expected), escape_debug_by_line(out));
}

#[test]
fn it_supports_auto_colors() {
    colored::control::set_override(true);
    let mut args = args_for(&["cat some-file", "sleep 0.1; echo foo", "sleep 0.2; echo bar"]);
    args.prefix_colors = "auto".to_string();
    let out = run(
        args,
        vec![
            spawn(0, 101),
            spawn(1, 102),
            spawn(2, 103),
            output(0, "some-file-contents"),
            exit_code(0, 0),
            output(1, "foo"),
            exit_code(1, 0),
            output(2, "bar"),
            exit_code(2, 0),
        ],
    );

    let expected_prefix_0 = "\u{1b}[31m[0]\u{1b}[0m";
    let expected_prefix_1 = "\u{1b}[32m[1]\u{1b}[0m";
    let expected_prefix_2 = "\u{1b}[33m[2]\u{1b}[0m";
    let expected = format!(
        "{0} some-file-contents
{0} cat some-file exited with exit status: 0
{1} foo
{1} sleep 0.1; echo foo exited with exit status: 0
{2} bar
{2} sleep 0.2; echo bar exited with exit status: 0
",
        expected_prefix_0, expected_prefix_1, expected_prefix_2
    );

    assert_eq_lines_unordered(escape_debug_by_line(expected), escape_debug_by_line(out));
}

#[test]
fn it_does_not_restart_on_success() {
    let mut args = args_for(&["cat some-file"]);
    args.restart_tries = 10;
    let out = run(
        args,
        vec![spawn(0, 101), output(0, "some-file-contents"), exit_code(0, 0)],
    );

    let expected = r#"[0] some-file-contents
[0] cat some-file exited with exit status: 0
"#;

    assert_eq_lines_unordered(expected, out);
}

#[test]
fn it_supports_restarting() {
    let mut args = args_for(&["echo 'hello world'; exit 1"]);
    args.restart_tries = 2;
    let out = run(
        args,
        vec![
            spawn(0, 101),
            output(0, "hello world"),
            exit_code(0, 1),
            respawn(0, 102),
            output(0, "hello world"),
            exit_code(0, 1),
            respawn(0, 103),
            output(0, "hello world"),
            exit_code(0, 1),
        ],
    );

    let expected = "[0] hello world
[0] echo 'hello world'; exit 1 exited with exit status: 1
[0] echo 'hello world'; exit 1 restarted
[0] hello world
[0] echo 'hello world'; exit 1 exited with exit status: 1
[0] echo 'hello world'; exit 1 restarted
[0] hello world
[0] echo 'hello world'; exit 1 exited with exit status: 1
";

    assert_eq_lines_unordered(expected, out);
}

#[test]
fn it_kills_others_on_exit_0() {
    let mut args = args_for(&["exit 0", "sleep 0.2; echo 'should not be printed'"]);
    args.kill_others = true;
    let out = run(
        args,
        vec![spawn(0, 101), spawn(1, 102), exit_code(0, 0), exit_signal(1, 15)],
    );

    let expected = r#"[0] exit 0 exited with exit status: 0
--> Sending SIGTERM to other processes..
[1] sleep 0.2; echo 'should not be printed' exited with signal: 15 (SIGTERM)
"#;

    assert_eq_lines_unordered(expected, out);
}

#[test]
fn it_doesnt_kill_others_on_fail_on_exit_code_0() {
    let mut args = args_for(&["exit 0", "sleep 0.2; echo 'should be printed'"]);
    args.kill_others_on_fail = true;
    let out = run(
        args,
        vec![
            spawn(0, 101),
            spawn(1, 102),
            exit_code(0, 0),
            output(1, "should be printed"),
            exit_code(1, 0),
        ],
    );

    let expected = r#"[0] exit 0 exited with exit status: 0
[1] should be printed
[1] sleep 0.2; echo 'should be printed' exited with exit status: 0
"#;

    assert_eq_lines_unordered(expected, out);
}

#[test]
fn it_does_kill_others_on_fail_on_exit_code_1() {
    let mut args = args_for(&["exit 1", "sleep 0.2; echo 'should not be printed'"]);
    args.kill_others_on_fail = true;
    let out = run(
        args,
        vec![spawn(0, 101), spawn(1, 102), exit_code(0, 1), exit_signal(1, 15)],
    );

    let expected = r#"[0] exit 1 exited with exit status: 1
--> Sending SIGTERM to other processes..
[1] sleep 0.2; echo 'should not be printed' exited with signal: 15 (SIGTERM)
"#;

    assert_eq_lines_unordered(expected, out);
}

#[test]
fn it_supports_hiding() {
    let mut args = args_for(&["cat some-file"]);
    args.hide = Some("0".to_string());
    let out = run(
        args,
        vec![spawn(0, 101), output(0, "some-file-contents"), exit_code(0, 0)],
    );

    // No output if all commands are hidden
    assert_eq_lines_unordered("", out);
}

#[test]
fn it_supports_hiding_by_name() {
    let mut args = args_for(&["cat some-file", "ls"]);
    args.hide = Some("cat".to_string());
    args.names = Some("cat,ls".to_string());
    let out = run(
        args,
        vec![
            spawn(0, 101),
            spawn(1, 102),
            output(0, "some-file-contents"),
            exit_code(0, 0),
            output(1, "some-file"),
            exit_code(1, 0),
        ],
    );

    let expected = r#"[ls] some-file
[ls] ls exited with exit status: 0
"#;

    assert_eq_lines_unordered(expected, out);
}

#[test]
fn it_detects_ctrl_c() {
    let args = args_for(&["sleep 5", "sleep 10"]);
    let out = run(
        args,
        vec![
            spawn(0, 101),
            spawn(1, 102),
            Stimulus::Interrupt,
            exit_signal(0, 15),
            exit_signal(1, 15),
        ],
    );

    let expected = r#"Ctrl-C issued
Terminating all processes..
[0] sleep 5 exited with signal: 15 (SIGTERM)
[1] sleep 10 exited with signal: 15 (SIGTERM)
"#;

    assert_eq_lines_unordered(expected, out);
}
