//! The event coordinator: a single decision point that owns all
//! supervision state. The surrounding runtime spawns processes, reads
//! their output and waits for exits concurrently; every observation is
//! handed to this state machine, which decides what to print, when to
//! restart, when to propagate termination, and when the run is over.

use vstd::prelude::*;
use vstd::string::StringExecFns;
use crate::command::{spec_prefix_rendered, CmdView};
use crate::config::Config;
use crate::text::{i32_string, push_char, spec_int_str};

verus! {

/// How a supervised process ended.
#[derive(Clone, Copy, Debug, PartialEq, Eq, Structural)]
pub enum ProcStatus {
    /// The process exited on its own with this code.
    Code(i32),
    /// The process was terminated by this signal.
    Signal(i32),
}

/// A process succeeded exactly when it exited on its own with code zero.
pub open spec fn is_success(st: ProcStatus) -> bool {
    st == ProcStatus::Code(0i32)
}

/// The conventional name of a signal number, where one exists.
pub open spec fn spec_signal_name(s: int) -> Option<Seq<char>> {
    if s == 1 {
        Some("SIGHUP"@)
    } else if s == 2 {
        Some("SIGINT"@)
    } else if s == 3 {
        Some("SIGQUIT"@)
    } else if s == 4 {
        Some("SIGILL"@)
    } else if s == 5 {
        Some("SIGTRAP"@)
    } else if s == 6 {
        Some("SIGABRT"@)
    } else if s == 7 {
        Some("SIGBUS"@)
    } else if s == 8 {
        Some("SIGFPE"@)
    } else if s == 9 {
        Some("SIGKILL"@)
    } else if s == 10 {
        Some("SIGUSR1"@)
    } else if s == 11 {
        Some("SIGSEGV"@)
    } else if s == 12 {
        Some("SIGUSR2"@)
    } else if s == 13 {
        Some("SIGPIPE"@)
    } else if s == 14 {
        Some("SIGALRM"@)
    } else if s == 15 {
        Some("SIGTERM"@)
    } else {
        None
    }
}

/// The description of a termination status, as printed in exit notices.
pub open spec fn spec_status_str(st: ProcStatus) -> Seq<char> {
    match st {
        ProcStatus::Code(c) => "exit status: "@ + spec_int_str(c as int),
        ProcStatus::Signal(s) => "signal: "@ + spec_int_str(s as int) + match spec_signal_name(
            s as int,
        ) {
            Some(n) => " ("@ + n + ")"@,
            None => Seq::empty(),
        },
    }
}

fn signal_name(s: i32) -> (r: Option<&'static str>)
    ensures
        match r {
            Some(n) => spec_signal_name(s as int) == Some(n@),
            None => spec_signal_name(s as int) is None,
        },
{
    if s == 1 {
        Some("SIGHUP")
    } else if s == 2 {
        Some("SIGINT")
    } else if s == 3 {
        Some("SIGQUIT")
    } else if s == 4 {
        Some("SIGILL")
    } else if s == 5 {
        Some("SIGTRAP")
    } else if s == 6 {
        Some("SIGABRT")
    } else if s == 7 {
        Some("SIGBUS")
    } else if s == 8 {
        Some("SIGFPE")
    } else if s == 9 {
        Some("SIGKILL")
    } else if s == 10 {
        Some("SIGUSR1")
    } else if s == 11 {
        Some("SIGSEGV")
    } else if s == 12 {
        Some("SIGUSR2")
    } else if s == 13 {
        Some("SIGPIPE")
    } else if s == 14 {
        Some("SIGALRM")
    } else if s == 15 {
        Some("SIGTERM")
    } else {
        None
    }
}

/// Renders a termination status the way exit notices print it.
pub fn status_string(st: ProcStatus) -> (r: String)
    ensures
        r@ == spec_status_str(st),
{
    match st {
        ProcStatus::Code(c) => {
            let mut s = String::from_str("exit status: ");
            let digits = i32_string(c);
            s.append(digits.as_str());
            s
        },
        ProcStatus::Signal(sig) => {
            let mut s = String::from_str("signal: ");
            let digits = i32_string(sig);
            s.append(digits.as_str());
            match signal_name(sig) {
                Some(n) => {
                    s.append(" (");
                    s.append(n);
                    s.append(")");
                    assert(s@ =~= spec_status_str(st));
                    s
                },
                None => {
                    assert(s@ =~= spec_status_str(st));
                    s
                },
            }
        },
    }
}

/// Mutable per-command supervision bookkeeping, owned exclusively by the
/// coordinator.
#[derive(Clone, Copy, Debug)]
pub struct RuntimeState {
    /// PID of the current process: zero until spawned, changed on restart.
    pub pid: u32,
    /// Restarts left; not consulted when the command restarts indefinitely.
    pub restarts_remaining: i32,
    /// The one-shot termination request for the running process has not
    /// been consumed yet.
    pub kill_switch: bool,
    /// Spawned and not yet observed to exit.
    pub alive: bool,
}

/// The mathematical content of the coordinator state.
#[verifier::ext_equal]
pub struct StateView {
    pub cmds: Seq<CmdView>,
    pub kill_others: bool,
    pub kill_others_on_fail: bool,
    pub rt: Seq<RuntimeState>,
    pub stopped: bool,
}

/// Structural soundness of a coordinator state: one runtime slot per
/// command, a kill switch only for a live process, and a non-negative
/// budget wherever the budget is consulted.
pub open spec fn wf_state(s: StateView) -> bool {
    &&& s.rt.len() == s.cmds.len()
    &&& forall|i: int| 0 <= i < s.rt.len() ==> ((#[trigger] s.rt[i]).kill_switch ==> s.rt[i].alive)
    &&& forall|i: int|
        0 <= i < s.cmds.len() ==> (!(#[trigger] s.cmds[i]).restart_indefinitely
            ==> s.rt[i].restarts_remaining >= 0)
}

/// How many slots are currently alive.
pub open spec fn count_alive(rt: Seq<RuntimeState>) -> nat
    decreases rt.len(),
{
    if rt.len() == 0 {
        0
    } else {
        count_alive(rt.drop_last()) + if rt.last().alive {
            1nat
        } else {
            0nat
        }
    }
}

/// The indices that still hold an unconsumed kill switch, in order.
pub open spec fn switch_indices(rt: Seq<RuntimeState>) -> Seq<int>
    decreases rt.len(),
{
    if rt.len() == 0 {
        Seq::empty()
    } else {
        switch_indices(rt.drop_last()) + if rt.last().kill_switch {
            seq![rt.len() - 1]
        } else {
            Seq::empty()
        }
    }
}

/// Every slot with its kill switch consumed.
pub open spec fn consume_switches(rt: Seq<RuntimeState>) -> Seq<RuntimeState> {
    Seq::new(rt.len(), |j: int| RuntimeState { kill_switch: false, ..rt[j] })
}

pub proof fn lemma_count_alive_le_len(rt: Seq<RuntimeState>)
    ensures
        count_alive(rt) <= rt.len(),
    decreases rt.len(),
{
    if rt.len() > 0 {
        lemma_count_alive_le_len(rt.drop_last());
    }
}

pub proof fn lemma_count_alive_update(rt: Seq<RuntimeState>, i: int, v: RuntimeState)
    requires
        0 <= i < rt.len(),
    ensures
        count_alive(rt.update(i, v)) == count_alive(rt) - (if rt[i].alive {
            1int
        } else {
            0int
        }) + (if v.alive {
            1int
        } else {
            0int
        }),
    decreases rt.len(),
{
    let rt2 = rt.update(i, v);
    if i == rt.len() - 1 {
        assert(rt2.drop_last() =~= rt.drop_last());
    } else {
        lemma_count_alive_update(rt.drop_last(), i, v);
        assert(rt2.drop_last() =~= rt.drop_last().update(i, v));
        assert(rt2.last() == rt.last());
    }
}

pub proof fn lemma_count_alive_zero(rt: Seq<RuntimeState>)
    ensures
        (count_alive(rt) == 0) <==> (forall|i: int| 0 <= i < rt.len() ==> !(#[trigger] rt[i]).alive),
    decreases rt.len(),
{
    if rt.len() > 0 {
        lemma_count_alive_zero(rt.drop_last());
        assert(forall|i: int| 0 <= i < rt.len() - 1 ==> rt.drop_last()[i] == rt[i]);
        assert(rt.last() == rt[rt.len() - 1]);
    }
}

pub proof fn lemma_count_alive_same(rt1: Seq<RuntimeState>, rt2: Seq<RuntimeState>)
    requires
        rt1.len() == rt2.len(),
        forall|i: int| 0 <= i < rt1.len() ==> (#[trigger] rt1[i]).alive == rt2[i].alive,
    ensures
        count_alive(rt1) == count_alive(rt2),
    decreases rt1.len(),
{
    if rt1.len() > 0 {
        lemma_count_alive_same(rt1.drop_last(), rt2.drop_last());
        assert(rt1.last().alive == rt2.last().alive);
    }
}

/// Which indices `switch_indices` names: exactly the holders of an
/// unconsumed kill switch, each once.
pub proof fn lemma_switch_indices_char(rt: Seq<RuntimeState>)
    ensures
        forall|j: int|
            switch_indices(rt).contains(j) <==> (0 <= j < rt.len() && (#[trigger] rt[j]).kill_switch),
        switch_indices(rt).no_duplicates(),
        forall|k: int|
            0 <= k < switch_indices(rt).len() ==> 0 <= #[trigger] switch_indices(rt)[k]
                < rt.len(),
    decreases rt.len(),
{
    if rt.len() > 0 {
        lemma_switch_indices_char(rt.drop_last());
        let pre = switch_indices(rt.drop_last());
        let whole = switch_indices(rt);
        assert(forall|i: int| 0 <= i < rt.len() - 1 ==> rt.drop_last()[i] == rt[i]);
        if rt.last().kill_switch {
            assert(whole == pre + seq![rt.len() - 1]);
            assert(forall|j: int| pre.contains(j) ==> 0 <= j < rt.len() - 1);
            assert(whole.drop_last() =~= pre);
            assert(forall|j: int|
                whole.contains(j) <==> (pre.contains(j) || j == rt.len() - 1)) by {
                assert(forall|j: int| #[trigger]
                    whole.contains(j) ==> exists|k: int| 0 <= k < whole.len() && whole[k] == j);
                assert(whole[whole.len() - 1] == rt.len() - 1);
                assert(forall|k: int| 0 <= k < pre.len() ==> whole[k] == pre[k]);
            }
        } else {
            assert(whole =~= pre);
        }
    }
}

/// Whether this command's output is withheld from the shared stream.
pub open spec fn spec_suppressed(cmds: Seq<CmdView>, i: int) -> bool {
    cmds[i].raw || cmds[i].hide
}

/// Restart policy: only a failed exit is restarted, and only while budget
/// remains (or the command restarts indefinitely).
pub open spec fn restart_granted(c: CmdView, r: RuntimeState, st: ProcStatus) -> bool {
    !is_success(st) && (c.restart_indefinitely || r.restarts_remaining > 0)
}

/// Kill-propagation policy: on every exit under kill-others, on failed
/// exits under kill-others-on-fail.
pub open spec fn wants_kill_others(ko: bool, kof: bool, st: ProcStatus) -> bool {
    (kof && !is_success(st)) || ko
}

/// The exiting command's own slot afterwards: dead, its switch consumed,
/// its budget decremented when the exit earned a restart.
pub open spec fn spec_exit_slot(c: CmdView, r0: RuntimeState, st: ProcStatus) -> RuntimeState {
    RuntimeState {
        pid: r0.pid,
        restarts_remaining: if restart_granted(c, r0, st) && !c.restart_indefinitely {
            (r0.restarts_remaining - 1) as i32
        } else {
            r0.restarts_remaining
        },
        kill_switch: false,
        alive: false,
    }
}

/// The runtime slots right after recording the exit, before propagation.
pub open spec fn spec_exit_rt1(s: StateView, i: int, st: ProcStatus) -> Seq<RuntimeState> {
    s.rt.update(i, spec_exit_slot(s.cmds[i], s.rt[i], st))
}

/// Whether this exit fires kill-propagation: it was not restarted, the
/// policy asks for it, and someone still holds a kill switch.
pub open spec fn spec_exit_propagates(s: StateView, i: int, st: ProcStatus) -> bool {
    &&& !restart_granted(s.cmds[i], s.rt[i], st)
    &&& wants_kill_others(s.kill_others, s.kill_others_on_fail, st)
    &&& switch_indices(spec_exit_rt1(s, i, st)).len() > 0
}

/// The indices that receive a termination request from this exit.
pub open spec fn spec_exit_kills(s: StateView, i: int, st: ProcStatus) -> Seq<int> {
    if spec_exit_propagates(s, i, st) {
        switch_indices(spec_exit_rt1(s, i, st))
    } else {
        Seq::empty()
    }
}

/// The runtime slots after the whole exit step.
pub open spec fn spec_exit_rt(s: StateView, i: int, st: ProcStatus) -> Seq<RuntimeState> {
    if spec_exit_propagates(s, i, st) {
        consume_switches(spec_exit_rt1(s, i, st))
    } else {
        spec_exit_rt1(s, i, st)
    }
}

/// Whether this exit ends the main loop: nothing was restarted and no
/// process remains alive.
pub open spec fn spec_exit_stops(s: StateView, i: int, st: ProcStatus) -> bool {
    !restart_granted(s.cmds[i], s.rt[i], st) && count_alive(spec_exit_rt(s, i, st)) == 0
}

/// The coordinator state after an exit event.
pub open spec fn spec_exit_next(s: StateView, i: int, st: ProcStatus) -> StateView {
    StateView { rt: spec_exit_rt(s, i, st), stopped: s.stopped || spec_exit_stops(s, i, st), ..s }
}

/// The slot of a freshly spawned process: live, armed, budget untouched.
pub open spec fn spec_spawn_slot(r0: RuntimeState, pid: u32) -> RuntimeState {
    RuntimeState { pid, restarts_remaining: r0.restarts_remaining, kill_switch: true, alive: true }
}

/// The coordinator state after a successful spawn.
pub open spec fn spec_spawn_next(s: StateView, i: int, pid: u32) -> StateView {
    StateView { rt: s.rt.update(i, spec_spawn_slot(s.rt[i], pid)), ..s }
}

/// An interrupt with no switch left to consume stops the loop at once.
pub open spec fn spec_interrupt_quiescent(s: StateView) -> bool {
    switch_indices(s.rt).len() == 0
}

/// The coordinator state after an external interrupt.
pub open spec fn spec_interrupt_next(s: StateView) -> StateView {
    if spec_interrupt_quiescent(s) {
        StateView { stopped: true, ..s }
    } else {
        StateView { rt: consume_switches(s.rt), ..s }
    }
}

/// The indices that receive a termination request from an interrupt.
pub open spec fn spec_interrupt_kills(s: StateView) -> Seq<int> {
    if spec_interrupt_quiescent(s) {
        Seq::empty()
    } else {
        switch_indices(s.rt)
    }
}

/// A captured output line as printed: rendered prefix, a space, the line.
pub open spec fn spec_output_line(c: CmdView, pid: nat, t: Seq<char>, payload: Seq<char>) -> Seq<
    char,
> {
    spec_prefix_rendered(c.prefix, t, pid) + seq![' '] + payload
}

/// An exit notice as printed.
pub open spec fn spec_exit_line(c: CmdView, pid: nat, t: Seq<char>, st: ProcStatus) -> Seq<char> {
    spec_prefix_rendered(c.prefix, t, pid) + seq![' '] + c.command + " exited with "@
        + spec_status_str(st)
}

/// A restart notice as printed.
pub open spec fn spec_restart_line(c: CmdView, pid: nat, t: Seq<char>) -> Seq<char> {
    spec_prefix_rendered(c.prefix, t, pid) + seq![' '] + c.command + " restarted"@
}

/// The lines an exit event prints: the notice (unless suppressed), then
/// the propagation notice when this exit kills the others.
pub open spec fn spec_exit_lines(s: StateView, i: int, st: ProcStatus, t: Seq<char>) -> Seq<
    Seq<char>,
> {
    (if spec_suppressed(s.cmds, i) {
        Seq::<Seq<char>>::empty()
    } else {
        seq![spec_exit_line(s.cmds[i], s.rt[i].pid as nat, t, st)]
    }) + (if spec_exit_propagates(s, i, st) && !spec_suppressed(s.cmds, i) {
        seq!["--> Sending SIGTERM to other processes.."@]
    } else {
        Seq::<Seq<char>>::empty()
    })
}

/// The lines an interrupt prints.
pub open spec fn spec_interrupt_lines(s: StateView) -> Seq<Seq<char>> {
    seq!["Ctrl-C issued"@] + (if spec_interrupt_quiescent(s) {
        Seq::<Seq<char>>::empty()
    } else {
        seq!["Terminating all processes.."@]
    })
}

/// What the coordinator asks the runtime to do after an exit event.
pub struct ExitOutcome {
    /// Lines to print, in order.
    pub lines: Vec<String>,
    /// Schedule a delayed respawn of this command.
    pub restart: bool,
    /// Send a termination request to each of these commands.
    pub kills: Vec<usize>,
    /// The main loop is over; drain and shut down.
    pub stop: bool,
}

/// What the coordinator asks the runtime to do after an interrupt.
pub struct InterruptOutcome {
    /// Lines to print, in order.
    pub lines: Vec<String>,
    /// Send a termination request to each of these commands.
    pub kills: Vec<usize>,
    /// The main loop is over; drain and shut down.
    pub stop: bool,
}

/// The coordinator's state: the configuration, one runtime slot per
/// command, the number of live processes, and whether the main loop has
/// decided to stop.
pub struct State {
    pub config: Config,
    pub rt: Vec<RuntimeState>,
    pub children_alive: usize,
    pub stopped: bool,
}

impl View for State {
    type V = StateView;

    open spec fn view(&self) -> StateView {
        StateView {
            cmds: Seq::new(self.config.commands@.len(), |i: int| self.config.commands@[i]@),
            kill_others: self.config.kill_others,
            kill_others_on_fail: self.config.kill_others_on_fail,
            rt: self.rt@,
            stopped: self.stopped,
        }
    }
}

impl State {
    /// The exec invariant: a sound view, an accurate live counter, and a
    /// configuration whose prefixes can always be rendered.
    pub open spec fn wf(&self) -> bool {
        &&& wf_state(self@)
        &&& self.children_alive as int == count_alive(self@.rt)
        &&& self.config.wf()
    }

    /// Fresh supervision state: every command not yet started, with its
    /// full restart budget.
    pub fn new(config: Config) -> (r: State)
        requires
            config.wf(),
        ensures
            r.wf(),
            r.config == config,
            !r@.stopped,
            r.children_alive == 0,
            r@.rt.len() == config.commands@.len(),
            forall|i: int|
                0 <= i < r@.rt.len() ==> (#[trigger] r@.rt[i]) == (RuntimeState {
                    pid: 0u32,
                    restarts_remaining: config.commands@[i].restart_tries,
                    kill_switch: false,
                    alive: false,
                }),
    {
        let mut rt: Vec<RuntimeState> = Vec::new();
        let n = config.commands.len();
        let mut i: usize = 0;
        while i < n
            invariant
                i <= n,
                n == config.commands@.len(),
                rt@.len() == i,
                count_alive(rt@) == 0,
                forall|k: int|
                    0 <= k < i ==> (#[trigger] rt@[k]) == (RuntimeState {
                        pid: 0u32,
                        restarts_remaining: config.commands@[k].restart_tries,
                        kill_switch: false,
                        alive: false,
                    }),
            decreases n - i,
        {
            let ghost old_rt = rt@;
            rt.push(
                RuntimeState {
                    pid: 0,
                    restarts_remaining: config.commands[i].restart_tries,
                    kill_switch: false,
                    alive: false,
                },
            );
            proof {
                assert(rt@.drop_last() =~= old_rt);
            }
            i += 1;
        }
        State { config, rt, children_alive: 0, stopped: false }
    }

    /// Records that command `command_idx` was spawned with the given pid:
    /// arms its kill switch, counts it alive, and returns the restart
    /// notice when this spawn was a restart and output is not suppressed.
    pub fn on_spawned(&mut self, command_idx: usize, is_restart: bool, pid: u32) -> (r: Option<
        String,
    >)
        requires
            old(self).wf(),
            command_idx < old(self)@.rt.len(),
            !old(self)@.stopped,
            !old(self)@.rt[command_idx as int].alive,
        ensures
            final(self).wf(),
            final(self)@ == spec_spawn_next(old(self)@, command_idx as int, pid),
            r is Some <==> (is_restart && !spec_suppressed(old(self)@.cmds, command_idx as int)),
            r matches Some(l) ==> exists|t: Seq<char>|
                l@ == spec_restart_line(old(self)@.cmds[command_idx as int], pid as nat, t),
    {
        let r0 = self.rt[command_idx];
        let slot = RuntimeState {
            pid,
            restarts_remaining: r0.restarts_remaining,
            kill_switch: true,
            alive: true,
        };
        proof {
            lemma_count_alive_update(self@.rt, command_idx as int, slot);
            lemma_count_alive_le_len(self@.rt.update(command_idx as int, slot));
        }
        self.rt.set(command_idx, slot);
        let n = self.rt.len();
        assert(self.children_alive < n);
        self.children_alive += 1;
        assert(final(self)@ =~= spec_spawn_next(old(self)@, command_idx as int, pid)) by {
            assert(final(self)@.rt =~= spec_spawn_next(old(self)@, command_idx as int, pid).rt);
        }
        let cmd = &self.config.commands[command_idx];
        if is_restart && !cmd.disable_output() {
            let mut line = cmd.prefix(pid);
            let ghost t = choose|t: Seq<char>|
                line@ == spec_prefix_rendered(cmd@.prefix, t, pid as nat);
            push_char(&mut line, ' ');
            line.append(cmd.command.as_str());
            line.append(" restarted");
            proof {
                assert(line@ =~= spec_restart_line(
                    old(self)@.cmds[command_idx as int],
                    pid as nat,
                    t,
                ));
            }
            Some(line)
        } else {
            None
        }
    }

    /// A spawn that the operating system refused: the command never became
    /// alive; the run is over if nothing else is running either.
    pub fn on_spawn_failed(&self) -> (stop: bool)
        requires
            self.wf(),
        ensures
            stop == (count_alive(self@.rt) == 0),
    {
        self.children_alive == 0
    }

    /// The line to print for a captured output line of `command_idx`, or
    /// nothing when that command's output is suppressed. No state changes.
    pub fn on_output(&self, command_idx: usize, line: &str) -> (r: Option<String>)
        requires
            self.wf(),
            command_idx < self@.cmds.len(),
        ensures
            r is Some <==> !spec_suppressed(self@.cmds, command_idx as int),
            r matches Some(l) ==> exists|t: Seq<char>|
                l@ == spec_output_line(
                    self@.cmds[command_idx as int],
                    self@.rt[command_idx as int].pid as nat,
                    t,
                    line@,
                ),
    {
        let cmd = &self.config.commands[command_idx];
        if cmd.disable_output() {
            return None;
        }
        let pid = self.rt[command_idx].pid;
        let mut out = cmd.prefix(pid);
        let ghost t = choose|t: Seq<char>| out@ == spec_prefix_rendered(cmd@.prefix, t, pid as nat);
        push_char(&mut out, ' ');
        out.append(line);
        proof {
            assert(out@ =~= spec_output_line(
                self@.cmds[command_idx as int],
                self@.rt[command_idx as int].pid as nat,
                t,
                line@,
            ));
        }
        Some(out)
    }

    /// Records the exit of `command_idx` and applies policy, in order of
    /// precedence: restart on failure while budget remains; else
    /// kill-propagation when configured and someone still holds a switch;
    /// else stop once nothing is alive.
    pub fn on_exit(&mut self, command_idx: usize, status: ProcStatus) -> (r: ExitOutcome)
        requires
            old(self).wf(),
            command_idx < old(self)@.rt.len(),
            !old(self)@.stopped,
            old(self)@.rt[command_idx as int].alive,
        ensures
            final(self).wf(),
            final(self)@ == spec_exit_next(old(self)@, command_idx as int, status),
            r.restart == restart_granted(
                old(self)@.cmds[command_idx as int],
                old(self)@.rt[command_idx as int],
                status,
            ),
            r.stop == spec_exit_stops(old(self)@, command_idx as int, status),
            r.kills@.map_values(|j: usize| j as int) == spec_exit_kills(
                old(self)@,
                command_idx as int,
                status,
            ),
            exists|t: Seq<char>|
                r.lines.deep_view() == spec_exit_lines(old(self)@, command_idx as int, status, t),
    {
        let ghost s0 = self@;
        let ghost i = command_idx as int;
        let mut lines: Vec<String> = Vec::new();
        let suppressed = self.config.commands[command_idx].disable_output();
        let pid = self.rt[command_idx].pid;
        let ghost t: Seq<char>;
        if !suppressed {
            let cmd = &self.config.commands[command_idx];
            let mut line = cmd.prefix(pid);
            proof {
                t = choose|tt: Seq<char>|
                    line@ == spec_prefix_rendered(cmd@.prefix, tt, pid as nat);
            }
            push_char(&mut line, ' ');
            line.append(cmd.command.as_str());
            line.append(" exited with ");
            let st_str = status_string(status);
            line.append(st_str.as_str());
            proof {
                assert(line@ =~= spec_exit_line(s0.cmds[i], pid as nat, t, status));
            }
            let ghost old_lines = lines.deep_view();
            lines.push(line);
            proof {
                assert(lines.deep_view() =~~= old_lines.push(line@));
            }
        } else {
            proof {
                t = Seq::<char>::empty();
            }
        }

        // Record the exit in the command's own slot.
        let r0 = self.rt[command_idx];
        let cmd_indef = self.config.commands[command_idx].restart_indefinitely;
        let success = status == ProcStatus::Code(0);
        let granted = !success && (cmd_indef || r0.restarts_remaining > 0);
        let new_remaining = if granted && !cmd_indef {
            r0.restarts_remaining - 1
        } else {
            r0.restarts_remaining
        };
        let slot = RuntimeState {
            pid: r0.pid,
            restarts_remaining: new_remaining,
            kill_switch: false,
            alive: false,
        };
        proof {
            lemma_count_alive_update(self@.rt, i, slot);
            lemma_count_alive_zero(self@.rt);
        }
        self.rt.set(command_idx, slot);
        self.children_alive -= 1;
        assert(self@.rt == spec_exit_rt1(s0, i, status));
        assert(slot == spec_exit_slot(s0.cmds[i], s0.rt[i], status));
        let ghost rt1 = self@.rt;

        let mut kills: Vec<usize> = Vec::new();
        if !granted && ((self.config.kill_others_on_fail && !success) || self.config.kill_others) {
            // Consume every remaining kill switch and collect its index.
            let n = self.rt.len();
            let mut j: usize = 0;
            while j < n
                invariant
                    j <= n,
                    n == rt1.len(),
                    self.config == old(self).config,
                    self.stopped == old(self).stopped,
                    self.children_alive as int == count_alive(rt1),
                    self.rt@.len() == rt1.len(),
                    forall|k: int| j <= k < n ==> self.rt@[k] == rt1[k],
                    forall|k: int|
                        0 <= k < j ==> (#[trigger] self.rt@[k]) == (RuntimeState {
                            kill_switch: false,
                            ..rt1[k]
                        }),
                    kills@.map_values(|x: usize| x as int) == switch_indices(
                        rt1.take(j as int),
                    ),
                decreases n - j,
            {
                proof {
                    assert(rt1.take(j + 1).drop_last() =~= rt1.take(j as int));
                    assert(rt1.take(j + 1).last() == rt1[j as int]);
                }
                if self.rt[j].kill_switch {
                    let ghost old_kills = kills@.map_values(|x: usize| x as int);
                    kills.push(j);
                    let mut s2 = self.rt[j];
                    s2.kill_switch = false;
                    self.rt.set(j, s2);
                    proof {
                        assert(kills@.map_values(|x: usize| x as int) =~= old_kills.push(
                            j as int,
                        ));
                        assert(switch_indices(rt1.take(j + 1)) =~= old_kills.push(j as int));
                    }
                } else {
                    proof {
                        assert(switch_indices(rt1.take(j + 1)) =~= switch_indices(
                            rt1.take(j as int),
                        ));
                    }
                }
                j += 1;
            }
            proof {
                assert(rt1.take(n as int) =~= rt1);
            }
            if kills.len() > 0 {
                proof {
                    assert(spec_exit_propagates(s0, i, status)) by {
                        assert(kills@.map_values(|x: usize| x as int).len() == kills@.len());
                    }
                    assert(self@.rt =~= consume_switches(rt1));
                    lemma_count_alive_same(rt1, self@.rt);
                }
                if !suppressed {
                    let notice = String::from_str("--> Sending SIGTERM to other processes..");
                    let ghost old_lines = lines.deep_view();
                    lines.push(notice);
                    proof {
                        assert(lines.deep_view() =~~= old_lines.push(
                            "--> Sending SIGTERM to other processes.."@,
                        ));
                    }
                }
            } else {
                proof {
                    assert(switch_indices(rt1).len() == 0) by {
                        assert(kills@.map_values(|x: usize| x as int).len() == kills@.len());
                    }
                    assert(!spec_exit_propagates(s0, i, status));
                    lemma_switch_indices_char(rt1);
                    assert(forall|k: int|
                        0 <= k < rt1.len() ==> !(#[trigger] rt1[k]).kill_switch) by {
                        assert(forall|k: int|
                            0 <= k < rt1.len() && (#[trigger] rt1[k]).kill_switch
                                ==> switch_indices(rt1).contains(k));
                    }
                    assert(self@.rt =~= rt1);
                }
            }
        } else {
            proof {
                assert(!spec_exit_propagates(s0, i, status));
            }
        }

        let stop = !granted && self.children_alive == 0;
        if stop {
            self.stopped = true;
        }
        proof {
            assert(self@.rt =~= spec_exit_rt(s0, i, status));
            assert(self.children_alive == count_alive(spec_exit_rt(s0, i, status)));
            assert(self@.stopped == spec_exit_next(s0, i, status).stopped);
            assert(self@.cmds =~= spec_exit_next(s0, i, status).cmds);
            assert(self@ =~= spec_exit_next(s0, i, status));
            assert(lines.deep_view() =~~= spec_exit_lines(s0, i, status, t));
            assert(wf_state(self@));
        }
        ExitOutcome { lines, restart: granted, kills, stop }
    }

    /// Handles an external interrupt: always announces it; when no kill
    /// switch is left the loop stops at once, otherwise every remaining
    /// switch is consumed with a termination request and the loop goes on
    /// to collect the exits.
    pub fn on_interrupt(&mut self) -> (r: InterruptOutcome)
        requires
            old(self).wf(),
            !old(self)@.stopped,
        ensures
            final(self).wf(),
            final(self)@ == spec_interrupt_next(old(self)@),
            r.stop == spec_interrupt_quiescent(old(self)@),
            r.kills@.map_values(|j: usize| j as int) == spec_interrupt_kills(old(self)@),
            r.lines.deep_view() == spec_interrupt_lines(old(self)@),
    {
        let ghost s0 = self@;
        let ghost rt0 = self@.rt;
        let mut lines: Vec<String> = Vec::new();
        let first = String::from_str("Ctrl-C issued");
        lines.push(first);
        proof {
            assert(lines.deep_view() =~~= seq!["Ctrl-C issued"@]);
        }

        let mut kills: Vec<usize> = Vec::new();
        let n = self.rt.len();
        let mut j: usize = 0;
        while j < n
            invariant
                j <= n,
                n == rt0.len(),
                self.config == old(self).config,
                self.stopped == old(self).stopped,
                self.children_alive == old(self).children_alive,
                self.rt@.len() == rt0.len(),
                forall|k: int| j <= k < n ==> self.rt@[k] == rt0[k],
                forall|k: int|
                    0 <= k < j ==> (#[trigger] self.rt@[k]) == (RuntimeState {
                        kill_switch: false,
                        ..rt0[k]
                    }),
                kills@.map_values(|x: usize| x as int) == switch_indices(rt0.take(j as int)),
            decreases n - j,
        {
            proof {
                assert(rt0.take(j + 1).drop_last() =~= rt0.take(j as int));
                assert(rt0.take(j + 1).last() == rt0[j as int]);
            }
            if self.rt[j].kill_switch {
                let ghost old_kills = kills@.map_values(|x: usize| x as int);
                kills.push(j);
                let mut s2 = self.rt[j];
                s2.kill_switch = false;
                self.rt.set(j, s2);
                proof {
                    assert(kills@.map_values(|x: usize| x as int) =~= old_kills.push(j as int));
                    assert(switch_indices(rt0.take(j + 1)) =~= old_kills.push(j as int));
                }
            } else {
                proof {
                    assert(switch_indices(rt0.take(j + 1)) =~= switch_indices(rt0.take(j as int)));
                }
            }
            j += 1;
        }
        proof {
            assert(rt0.take(n as int) =~= rt0);
        }

        let stop: bool;
        if kills.len() == 0 {
            proof {
                assert(switch_indices(rt0).len() == 0) by {
                    assert(kills@.map_values(|x: usize| x as int).len() == kills@.len());
                }
                lemma_switch_indices_char(rt0);
                assert(forall|k: int| 0 <= k < rt0.len() ==> !(#[trigger] rt0[k]).kill_switch) by {
                    assert(forall|k: int|
                        0 <= k < rt0.len() && (#[trigger] rt0[k]).kill_switch
                            ==> switch_indices(rt0).contains(k));
                }
                assert(self@.rt =~= rt0);
                assert(spec_interrupt_quiescent(s0));
            }
            self.stopped = true;
            stop = true;
        } else {
            proof {
                assert(switch_indices(rt0).len() > 0) by {
                    assert(kills@.map_values(|x: usize| x as int).len() == kills@.len());
                }
                assert(self@.rt =~= consume_switches(rt0));
                lemma_count_alive_same(rt0, self@.rt);
                assert(!spec_interrupt_quiescent(s0));
            }
            let notice = String::from_str("Terminating all processes..");
            let ghost old_lines = lines.deep_view();
            lines.push(notice);
            proof {
                assert(lines.deep_view() =~~= old_lines.push("Terminating all processes.."@));
            }
            stop = false;
        }
        proof {
            assert(self@.rt =~= spec_interrupt_next(s0).rt);
            assert(self@.stopped == spec_interrupt_next(s0).stopped);
            assert(self@.cmds =~= spec_interrupt_next(s0).cmds);
            assert(self@ =~= spec_interrupt_next(s0));
            assert(lines.deep_view() =~~= spec_interrupt_lines(s0));
            assert(wf_state(self@));
        }
        InterruptOutcome { lines, kills, stop }
    }
}

} // verus!
