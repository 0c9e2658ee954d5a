//! Concrete instances of the run-level guarantees: no lost output, the
//! restart budget, kill-propagation firing at most once, and the quiet
//! interrupt.

use rly::cli::Args;
use rly::config::Config;
use rly::event_loop::ProcStatus;
use rly::trace::{replay, Stimulus};

fn args_for(commands: &[&str]) -> Args {
    let mut args = Args::default();
    args.commands = commands.iter().map(|s| s.to_string()).collect();
    args
}

fn run(args: Args, stimuli: Vec<Stimulus>) -> Vec<String> {
    let config = Config::from_args(args).expect("configuration should be accepted");
    replay(config, stimuli)
}

fn spawn(command_idx: usize, pid: u32) -> Stimulus {
    Stimulus::Spawn { command_idx, is_restart: false, pid }
}

fn respawn(command_idx: usize, pid: u32) -> Stimulus {
    Stimulus::Spawn { command_idx, is_restart: true, pid }
}

fn output(command_idx: usize, line: &str) -> Stimulus {
    Stimulus::Output { command_idx, line: line.to_string() }
}

fn exit_code(command_idx: usize, code: i32) -> Stimulus {
    Stimulus::Exit { command_idx, status: ProcStatus::Code(code) }
}

#[test]
fn every_output_line_is_printed_exactly_once() {
    // Lines race with the exit event and with other processes; one even
    // arrives after the loop has stopped and is printed by the drain.
    let lines = run(
        args_for(&["a", "b"]),
        vec![
            spawn(0, 101),
            spawn(1, 102),
            output(0, "one"),
            output(1, "two"),
            output(0, "three"),
            exit_code(0, 0),
            output(1, "four"),
            exit_code(1, 0),
            output(1, "five"),
        ],
    );
    let payloads = ["one", "two", "three", "four", "five"];
    for p in payloads {
        let n = lines.iter().filter(|l| l.ends_with(&format!(" {}", p))).count();
        assert_eq!(n, 1, "line {:?} printed {} times", p, n);
    }
}

#[test]
fn a_failing_process_runs_budget_plus_one_times() {
    // Budget 2: the process is granted exactly two restarts, then its
    // third failure ends the run.
    let mut args = args_for(&["boom"]);
    args.restart_tries = 2;
    let lines = run(
        args,
        vec![
            spawn(0, 101),
            exit_code(0, 1),
            respawn(0, 102),
            exit_code(0, 1),
            respawn(0, 103),
            exit_code(0, 1),
            // A further respawn is refused: the loop has stopped.
            respawn(0, 104),
        ],
    );
    let restarts = lines.iter().filter(|l| l.ends_with(" restarted")).count();
    let exits = lines.iter().filter(|l| l.contains(" exited with ")).count();
    assert_eq!(restarts, 2);
    assert_eq!(exits, 3);
}

#[test]
fn kill_propagation_fires_at_most_once() {
    // Two processes fail back to back under kill-others-on-fail: the
    // second failure finds every switch already consumed and must not
    // announce or request anything again.
    let mut args = args_for(&["exit 1", "also exit 1", "sleep 9"]);
    args.kill_others_on_fail = true;
    let lines = run(
        args,
        vec![
            spawn(0, 101),
            spawn(1, 102),
            spawn(2, 103),
            exit_code(0, 1),
            exit_code(1, 1),
            Stimulus::Exit { command_idx: 2, status: ProcStatus::Signal(15) },
        ],
    );
    let notices = lines
        .iter()
        .filter(|l| l.as_str() == "--> Sending SIGTERM to other processes..")
        .count();
    assert_eq!(notices, 1);
}

#[test]
fn interrupt_with_nothing_running_is_quiet() {
    // The only process is between runs (a restart is pending), so no
    // kill switch is armed: the interrupt stops the loop at once and
    // prints no terminating notice.
    let mut args = args_for(&["flaky"]);
    args.restart_tries = 5;
    let lines = run(
        args,
        vec![
            spawn(0, 101),
            exit_code(0, 1),
            Stimulus::Interrupt,
            // The pending respawn arrives too late and is ignored.
            respawn(0, 102),
        ],
    );
    assert_eq!(
        lines,
        vec!["[0] flaky exited with exit status: 1".to_string(), "Ctrl-C issued".to_string()]
    );
}

#[test]
fn a_successful_exit_never_restarts() {
    let mut args = args_for(&["fine"]);
    args.restart_tries = -1;
    let lines = run(args, vec![spawn(0, 101), exit_code(0, 0)]);
    assert_eq!(lines, vec!["[0] fine exited with exit status: 0".to_string()]);
}

#[test]
fn an_unlimited_budget_restarts_every_failure() {
    let mut args = args_for(&["flaky"]);
    args.restart_tries = -1;
    let lines = run(
        args,
        vec![
            spawn(0, 101),
            exit_code(0, 1),
            respawn(0, 102),
            exit_code(0, 1),
            respawn(0, 103),
            exit_code(0, 1),
            respawn(0, 104),
        ],
    );
    let restarts = lines.iter().filter(|l| l.ends_with(" restarted")).count();
    assert_eq!(restarts, 3);
}
