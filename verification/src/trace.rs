//! A replayable model of a whole supervised run. A `Stimulus` is one
//! observation reaching the coordinator; `spec_step` is the mathematical
//! transition it causes, including the actions taken (`Act`); `replay`
//! drives the real coordinator over a list of stimuli and is proved to
//! print exactly the lines the model prescribes.

use vstd::prelude::*;
use crate::command::CmdView;
use crate::config::Config;
use crate::event_loop::{
    spec_exit_kills, spec_exit_line, spec_exit_next, spec_exit_propagates, spec_interrupt_kills,
    spec_interrupt_lines, spec_interrupt_next, spec_interrupt_quiescent, spec_output_line,
    spec_restart_line, spec_spawn_next, spec_suppressed, restart_granted, ProcStatus,
    RuntimeState, State, StateView,
};

verus! {

/// One observation handed to the coordinator: a spawn that succeeded, a
/// captured output line, an observed exit, or an external interrupt.
pub enum Stimulus {
    Spawn { command_idx: usize, is_restart: bool, pid: u32 },
    Output { command_idx: usize, line: String },
    Exit { command_idx: usize, status: ProcStatus },
    Interrupt,
}

/// The mathematical content of a stimulus.
pub enum StimView {
    Spawn { index: int, is_restart: bool, pid: u32 },
    Output { index: int, line: Seq<char> },
    Exit { index: int, status: ProcStatus },
    Interrupt,
}

impl View for Stimulus {
    type V = StimView;

    open spec fn view(&self) -> StimView {
        match self {
            Stimulus::Spawn { command_idx, is_restart, pid } => StimView::Spawn {
                index: *command_idx as int,
                is_restart: *is_restart,
                pid: *pid,
            },
            Stimulus::Output { command_idx, line } => StimView::Output {
                index: *command_idx as int,
                line: line@,
            },
            Stimulus::Exit { command_idx, status } => StimView::Exit {
                index: *command_idx as int,
                status: *status,
            },
            Stimulus::Interrupt => StimView::Interrupt,
        }
    }
}

impl DeepView for Stimulus {
    type V = StimView;

    open spec fn deep_view(&self) -> StimView {
        self.view()
    }
}

/// An action of the coordinator: a printed line (with everything its text
/// is built from), a termination request, or a restart request.
pub enum Act {
    /// A captured output line was printed for command `index`.
    OutputPrint { index: int, pid: nat, cmd: CmdView, line: Seq<char> },
    /// An exit notice was printed for command `index`.
    ExitPrint { index: int, pid: nat, cmd: CmdView, status: ProcStatus },
    /// A restart notice was printed for command `index`.
    RestartPrint { index: int, pid: nat, cmd: CmdView },
    /// The kill-propagation notice was printed.
    KillPrint,
    /// The interrupt notice was printed.
    CtrlCPrint,
    /// The terminating notice was printed.
    TermPrint,
    /// A termination request was sent to command `index`.
    KillReq { index: int },
    /// A delayed respawn of command `index` was requested.
    RestartReq { index: int },
}

/// The actions of a successful spawn: at most a restart notice.
pub open spec fn spec_spawn_acts(s: StateView, i: int, is_restart: bool, pid: u32) -> Seq<Act> {
    if is_restart && !spec_suppressed(s.cmds, i) {
        seq![Act::RestartPrint { index: i, pid: pid as nat, cmd: s.cmds[i] }]
    } else {
        Seq::empty()
    }
}

/// The actions of a captured output line: printing it, unless suppressed.
pub open spec fn spec_output_acts(s: StateView, i: int, line: Seq<char>) -> Seq<Act> {
    if !spec_suppressed(s.cmds, i) {
        seq![Act::OutputPrint { index: i, pid: s.rt[i].pid as nat, cmd: s.cmds[i], line }]
    } else {
        Seq::empty()
    }
}

/// The actions of an exit: the notice, then either a restart request or
/// the kill-propagation notice and requests.
pub open spec fn spec_exit_acts(s: StateView, i: int, st: ProcStatus) -> Seq<Act> {
    (if spec_suppressed(s.cmds, i) {
        Seq::<Act>::empty()
    } else {
        seq![Act::ExitPrint { index: i, pid: s.rt[i].pid as nat, cmd: s.cmds[i], status: st }]
    }) + (if spec_exit_propagates(s, i, st) && !spec_suppressed(s.cmds, i) {
        seq![Act::KillPrint]
    } else {
        Seq::<Act>::empty()
    }) + spec_exit_kills(s, i, st).map_values(|j: int| Act::KillReq { index: j }) + (
    if restart_granted(s.cmds[i], s.rt[i], st) {
        seq![Act::RestartReq { index: i }]
    } else {
        Seq::<Act>::empty()
    })
}

/// The actions of an interrupt: the notice, and, when switches remain,
/// the terminating notice and one termination request per switch.
pub open spec fn spec_interrupt_acts(s: StateView) -> Seq<Act> {
    seq![Act::CtrlCPrint] + (if spec_interrupt_quiescent(s) {
        Seq::<Act>::empty()
    } else {
        seq![Act::TermPrint] + spec_interrupt_kills(s).map_values(|j: int| Act::KillReq { index: j })
    })
}

/// One step of the whole run: what the stimulus changes and what the
/// coordinator does in response. A stimulus that cannot happen in this
/// state (an exit of something not running, anything but trailing output
/// after the loop stopped) changes nothing.
pub open spec fn spec_step(s: StateView, ev: StimView) -> (StateView, Seq<Act>) {
    match ev {
        StimView::Spawn { index, is_restart, pid } => {
            if !s.stopped && 0 <= index < s.rt.len() && !s.rt[index].alive {
                (spec_spawn_next(s, index, pid), spec_spawn_acts(s, index, is_restart, pid))
            } else {
                (s, Seq::empty())
            }
        },
        StimView::Output { index, line } => {
            if 0 <= index < s.cmds.len() {
                (s, spec_output_acts(s, index, line))
            } else {
                (s, Seq::empty())
            }
        },
        StimView::Exit { index, status } => {
            if !s.stopped && 0 <= index < s.rt.len() && s.rt[index].alive {
                (spec_exit_next(s, index, status), spec_exit_acts(s, index, status))
            } else {
                (s, Seq::empty())
            }
        },
        StimView::Interrupt => {
            if !s.stopped {
                (spec_interrupt_next(s), spec_interrupt_acts(s))
            } else {
                (s, Seq::empty())
            }
        },
    }
}

/// The run from stimulus `j` on: the final state and all actions, in order.
pub open spec fn spec_run_from(s: StateView, stims: Seq<StimView>, j: int) -> (
    StateView,
    Seq<Act>,
)
    decreases stims.len() - j,
{
    if j < 0 || j >= stims.len() {
        (s, Seq::empty())
    } else {
        let (s1, a1) = spec_step(s, stims[j]);
        let (s2, a2) = spec_run_from(s1, stims, j + 1);
        (s2, a1 + a2)
    }
}

/// The whole run over a list of stimuli.
pub open spec fn spec_run(s: StateView, stims: Seq<StimView>) -> (StateView, Seq<Act>) {
    spec_run_from(s, stims, 0)
}

/// The coordinator state right after `State::new`.
pub open spec fn spec_init(config: Config) -> StateView {
    StateView {
        cmds: Seq::new(config.commands@.len(), |i: int| config.commands@[i]@),
        kill_others: config.kill_others,
        kill_others_on_fail: config.kill_others_on_fail,
        rt: Seq::new(
            config.commands@.len(),
            |i: int|
                RuntimeState {
                    pid: 0u32,
                    restarts_remaining: config.commands@[i].restart_tries,
                    kill_switch: false,
                    alive: false,
                },
        ),
        stopped: false,
    }
}

/// An action that prints a line.
pub open spec fn is_print(a: Act) -> bool {
    !(a is KillReq || a is RestartReq)
}

/// Only the printing actions, in order.
pub open spec fn print_acts(acts: Seq<Act>) -> Seq<Act>
    decreases acts.len(),
{
    if acts.len() == 0 {
        Seq::empty()
    } else {
        print_acts(acts.drop_last()) + if is_print(acts.last()) {
            seq![acts.last()]
        } else {
            Seq::empty()
        }
    }
}

pub proof fn lemma_print_acts_concat(a: Seq<Act>, b: Seq<Act>)
    ensures
        print_acts(a + b) == print_acts(a) + print_acts(b),
    decreases b.len(),
{
    if b.len() == 0 {
        assert(a + b =~= a);
        assert(print_acts(a) + b =~= print_acts(a));
        assert(print_acts(a) + print_acts(b) =~= print_acts(a));
    } else {
        lemma_print_acts_concat(a, b.drop_last());
        assert((a + b).drop_last() =~= a + b.drop_last());
        assert((a + b).last() == b.last());
        if is_print(b.last()) {
            assert(print_acts(a + b) =~= print_acts(a) + print_acts(b));
        } else {
            assert(print_acts(a + b) =~= print_acts(a) + print_acts(b));
        }
    }
}

/// The line a printing action produces, at the timestamp `t`.
pub open spec fn act_line_at(a: Act, l: Seq<char>, t: Seq<char>) -> bool {
    match a {
        Act::OutputPrint { index: _, pid, cmd, line } => l == spec_output_line(cmd, pid, t, line),
        Act::ExitPrint { index: _, pid, cmd, status } => l == spec_exit_line(cmd, pid, t, status),
        Act::RestartPrint { index: _, pid, cmd } => l == spec_restart_line(cmd, pid, t),
        Act::KillPrint => l == "--> Sending SIGTERM to other processes.."@,
        Act::CtrlCPrint => l == "Ctrl-C issued"@,
        Act::TermPrint => l == "Terminating all processes.."@,
        Act::KillReq { .. } => false,
        Act::RestartReq { .. } => false,
    }
}

/// The line a printing action produces, up to the moment's timestamp.
pub open spec fn act_line_ok(a: Act, l: Seq<char>) -> bool {
    exists|t: Seq<char>| act_line_at(a, l, t)
}

/// The printed lines correspond one to one, in order, to the printing
/// actions.
pub open spec fn lines_match(lines: Seq<Seq<char>>, acts: Seq<Act>) -> bool {
    &&& lines.len() == acts.len()
    &&& forall|k: int| 0 <= k < acts.len() ==> act_line_ok(#[trigger] acts[k], lines[k])
}

/// Replays a whole run: feeds each stimulus to the coordinator in order
/// (dropping the ones that cannot happen, as the model does) and collects
/// every printed line. After the loop has stopped, only trailing output
/// is still printed, as the shutdown drain does.
pub fn replay(config: Config, stimuli: Vec<Stimulus>) -> (lines: Vec<String>)
    requires
        config.wf(),
    ensures
        lines_match(
            lines.deep_view(),
            print_acts(spec_run(spec_init(config), stimuli.deep_view()).1),
        ),
{
    let ghost s_init = spec_init(config);
    let ghost stims = stimuli.deep_view();
    let mut st = State::new(config);
    proof {
        assert(st@ =~= s_init);
    }
    let mut lines: Vec<String> = Vec::new();
    let ghost mut acts_so_far: Seq<Act> = Seq::empty();
    let mut k: usize = 0;
    proof {
        assert(acts_so_far + spec_run_from(st@, stims, 0).1 =~= spec_run_from(
            s_init,
            stims,
            0,
        ).1);
        assert(lines.deep_view() =~~= Seq::<Seq<char>>::empty());
        assert(print_acts(acts_so_far) =~= Seq::<Act>::empty());
    }
    while k < stimuli.len()
        invariant
            k <= stimuli.len(),
            stims == stimuli.deep_view(),
            st.wf(),
            spec_run_from(s_init, stims, 0).0 == spec_run_from(st@, stims, k as int).0,
            spec_run_from(s_init, stims, 0).1 == acts_so_far + spec_run_from(
                st@,
                stims,
                k as int,
            ).1,
            lines_match(lines.deep_view(), print_acts(acts_so_far)),
        decreases stimuli.len() - k,
    {
        let ghost pre = st@;
        let ghost step_acts = spec_step(pre, stims[k as int]).1;
        let ghost before = lines.deep_view();
        proof {
            assert(stims[k as int] == stimuli@[k as int]@);
        }
        match &stimuli[k] {
            Stimulus::Spawn { command_idx, is_restart, pid } => {
                let ci = *command_idx;
                if !st.stopped && ci < st.rt.len() && !st.rt[ci].alive {
                    let notice = st.on_spawned(ci, *is_restart, *pid);
                    proof {
                        assert(st@ == spec_step(pre, stims[k as int]).0);
                    }
                    match notice {
                        Some(l) => {
                            let ghost lv = l@;
                            lines.push(l);
                            proof {
                                let act = Act::RestartPrint {
                                    index: ci as int,
                                    pid: *pid as nat,
                                    cmd: pre.cmds[ci as int],
                                };
                                assert(step_acts == seq![act]);
                                lemma_act_line_ok_restart(
                                    ci as int,
                                    *pid as nat,
                                    pre.cmds[ci as int],
                                    lv,
                                );
                                lemma_print_acts_all_print(step_acts);
                                assert(lines.deep_view() =~~= before.push(lv));
                                assert(lines.deep_view() =~= before + seq![lv]);
                                assert(lines_match(seq![lv], print_acts(step_acts)));
                            }
                        },
                        None => {
                            proof {
                                assert(step_acts =~= Seq::<Act>::empty());
                                assert(lines.deep_view() =~= before
                                    + Seq::<Seq<char>>::empty());
                                assert(lines_match(
                                    Seq::<Seq<char>>::empty(),
                                    print_acts(step_acts),
                                ));
                            }
                        },
                    }
                } else {
                    proof {
                        assert(st@ == spec_step(pre, stims[k as int]).0);
                        assert(step_acts =~= Seq::<Act>::empty());
                        assert(lines.deep_view() =~= before + Seq::<Seq<char>>::empty());
                        assert(lines_match(Seq::<Seq<char>>::empty(), print_acts(step_acts)));
                    }
                }
            },
            Stimulus::Output { command_idx, line } => {
                let ci = *command_idx;
                if ci < st.config.commands.len() {
                    let out = st.on_output(ci, line.as_str());
                    proof {
                        assert(st@ == spec_step(pre, stims[k as int]).0);
                    }
                    match out {
                        Some(l) => {
                            let ghost lv = l@;
                            lines.push(l);
                            proof {
                                let act = Act::OutputPrint {
                                    index: ci as int,
                                    pid: pre.rt[ci as int].pid as nat,
                                    cmd: pre.cmds[ci as int],
                                    line: line@,
                                };
                                assert(step_acts == seq![act]);
                                lemma_act_line_ok_output(
                                    ci as int,
                                    pre.rt[ci as int].pid as nat,
                                    pre.cmds[ci as int],
                                    line@,
                                    lv,
                                );
                                lemma_print_acts_all_print(step_acts);
                                assert(lines.deep_view() =~~= before.push(lv));
                                assert(lines.deep_view() =~= before + seq![lv]);
                                assert(lines_match(seq![lv], print_acts(step_acts)));
                            }
                        },
                        None => {
                            proof {
                                assert(step_acts =~= Seq::<Act>::empty());
                                assert(lines.deep_view() =~= before
                                    + Seq::<Seq<char>>::empty());
                                assert(lines_match(
                                    Seq::<Seq<char>>::empty(),
                                    print_acts(step_acts),
                                ));
                            }
                        },
                    }
                } else {
                    proof {
                        assert(st@ == spec_step(pre, stims[k as int]).0);
                        assert(step_acts =~= Seq::<Act>::empty());
                        assert(lines.deep_view() =~= before + Seq::<Seq<char>>::empty());
                        assert(lines_match(Seq::<Seq<char>>::empty(), print_acts(step_acts)));
                    }
                }
            },
            Stimulus::Exit { command_idx, status } => {
                let ci = *command_idx;
                if !st.stopped && ci < st.rt.len() && st.rt[ci].alive {
                    let outcome = st.on_exit(ci, *status);
                    proof {
                        assert(st@ == spec_step(pre, stims[k as int]).0);
                    }
                    let ghost t = choose|t: Seq<char>|
                        outcome.lines.deep_view() == crate::event_loop::spec_exit_lines(
                            pre,
                            ci as int,
                            *status,
                            t,
                        );
                    push_all(&mut lines, &outcome.lines);
                    proof {
                        lemma_exit_lines_match(pre, ci as int, *status, t);
                        assert(lines.deep_view() =~= before + outcome.lines.deep_view());
                        assert(lines_match(outcome.lines.deep_view(), print_acts(step_acts)));
                    }
                } else {
                    proof {
                        assert(st@ == spec_step(pre, stims[k as int]).0);
                        assert(step_acts =~= Seq::<Act>::empty());
                        assert(lines.deep_view() =~= before + Seq::<Seq<char>>::empty());
                        assert(lines_match(Seq::<Seq<char>>::empty(), print_acts(step_acts)));
                    }
                }
            },
            Stimulus::Interrupt => {
                if !st.stopped {
                    let outcome = st.on_interrupt();
                    proof {
                        assert(st@ == spec_step(pre, stims[k as int]).0);
                    }
                    push_all(&mut lines, &outcome.lines);
                    proof {
                        lemma_interrupt_lines_match(pre);
                        assert(lines.deep_view() =~= before + outcome.lines.deep_view());
                        assert(lines_match(outcome.lines.deep_view(), print_acts(step_acts)));
                    }
                } else {
                    proof {
                        assert(st@ == spec_step(pre, stims[k as int]).0);
                        assert(step_acts =~= Seq::<Act>::empty());
                        assert(lines.deep_view() =~= before + Seq::<Seq<char>>::empty());
                        assert(lines_match(Seq::<Seq<char>>::empty(), print_acts(step_acts)));
                    }
                }
            },
        }
        proof {
            let app = lines.deep_view().skip(before.len() as int);
            assert(app =~~= lines.deep_view().skip(before.len() as int));
            assert(lines.deep_view() =~= before + app);
            assert(lines_match(app, print_acts(step_acts)));
            lemma_lines_match_extend(before, acts_so_far, app, step_acts);
            let rest = spec_run_from(st@, stims, k + 1).1;
            assert(spec_run_from(pre, stims, k as int).1 == step_acts + rest);
            assert(spec_run_from(pre, stims, k as int).0 == spec_run_from(st@, stims, k + 1).0);
            assert((acts_so_far + step_acts) + rest =~= acts_so_far + (step_acts + rest));
            acts_so_far = acts_so_far + step_acts;
        }
        k += 1;
    }
    proof {
        assert(spec_run_from(st@, stims, k as int).1 =~= Seq::<Act>::empty());
        assert(acts_so_far + Seq::<Act>::empty() =~= acts_so_far);
    }
    lines
}

/// Appends every line of `src` to `dst`.
fn push_all(dst: &mut Vec<String>, src: &Vec<String>)
    ensures
        final(dst).deep_view() == old(dst).deep_view() + src.deep_view(),
{
    let mut li: usize = 0;
    while li < src.len()
        invariant
            li <= src@.len(),
            dst.deep_view() =~= old(dst).deep_view() + src.deep_view().take(li as int),
        decreases src@.len() - li,
    {
        let ghost prev = dst.deep_view();
        let l = src[li].clone();
        lines_push_helper(dst, l);
        proof {
            assert(dst.deep_view() =~~= prev.push(src.deep_view()[li as int]));
            assert(dst.deep_view() =~~= old(dst).deep_view() + src.deep_view().take(li + 1));
        }
        li += 1;
    }
    proof {
        assert(src.deep_view().take(src@.len() as int) =~= src.deep_view());
    }
}

/// Pushes one line; kept separate so the deep view of the push is stated
/// once.
fn lines_push_helper(dst: &mut Vec<String>, l: String)
    ensures
        final(dst).deep_view() == old(dst).deep_view().push(l@),
{
    let ghost prev = dst.deep_view();
    dst.push(l);
    proof {
        assert(dst.deep_view() =~~= prev.push(dst@.last()@));
    }
}

/// Corresponding line lists compose over concatenation of action lists.
proof fn lemma_lines_match_extend(l1: Seq<Seq<char>>, a1: Seq<Act>, l2: Seq<Seq<char>>, a2: Seq<Act>)
    requires
        lines_match(l1, print_acts(a1)),
        lines_match(l2, print_acts(a2)),
    ensures
        lines_match(l1 + l2, print_acts(a1 + a2)),
{
    lemma_print_acts_concat(a1, a2);
    let p1 = print_acts(a1);
    let p2 = print_acts(a2);
    assert forall|k: int| 0 <= k < (p1 + p2).len() implies act_line_ok(
        #[trigger] (p1 + p2)[k],
        (l1 + l2)[k],
    ) by {
        if k < p1.len() {
            assert((p1 + p2)[k] == p1[k]);
            assert((l1 + l2)[k] == l1[k]);
        } else {
            assert((p1 + p2)[k] == p2[k - p1.len()]);
            assert((l1 + l2)[k] == l2[k - p1.len()]);
        }
    }
}

/// The exit notice and the possible propagation notice line up with the
/// printing actions of the exit step.
proof fn lemma_exit_lines_match(s: StateView, i: int, st: ProcStatus, t: Seq<char>)
    requires
        0 <= i < s.rt.len(),
        s.rt.len() == s.cmds.len(),
    ensures
        lines_match(
            crate::event_loop::spec_exit_lines(s, i, st, t),
            print_acts(spec_exit_acts(s, i, st)),
        ),
{
    let acts = spec_exit_acts(s, i, st);
    let pa = print_acts(acts);
    let ls = crate::event_loop::spec_exit_lines(s, i, st, t);
    lemma_print_acts_mixed(s, i, st);
    let exit_act = Act::ExitPrint { index: i, pid: s.rt[i].pid as nat, cmd: s.cmds[i], status: st };
    if spec_suppressed(s.cmds, i) {
        assert(pa =~= Seq::<Act>::empty());
        assert(ls =~= Seq::<Seq<char>>::empty());
    } else {
        lemma_act_line_ok_exit(
            i,
            s.rt[i].pid as nat,
            s.cmds[i],
            st,
            spec_exit_line(s.cmds[i], s.rt[i].pid as nat, t, st),
        );
        if spec_exit_propagates(s, i, st) {
            assert(pa =~= seq![exit_act, Act::KillPrint]);
            assert(ls =~= seq![
                spec_exit_line(s.cmds[i], s.rt[i].pid as nat, t, st),
                "--> Sending SIGTERM to other processes.."@,
            ]);
            assert(act_line_ok(pa[0], ls[0]));
            assert(act_line_at(Act::KillPrint, ls[1], t));
            assert(act_line_ok(pa[1], ls[1]));
        } else {
            assert(pa =~= seq![exit_act]);
            assert(ls =~= seq![spec_exit_line(s.cmds[i], s.rt[i].pid as nat, t, st)]);
            assert(act_line_ok(pa[0], ls[0]));
        }
    }
}

/// Helper: the printing prefix of the exit actions, computed by splitting
/// the concatenation.
proof fn lemma_print_acts_mixed(s: StateView, i: int, st: ProcStatus)
    requires
        0 <= i < s.rt.len(),
        s.rt.len() == s.cmds.len(),
    ensures
        print_acts(spec_exit_acts(s, i, st)) =~= (if spec_suppressed(s.cmds, i) {
            Seq::<Act>::empty()
        } else {
            seq![Act::ExitPrint { index: i, pid: s.rt[i].pid as nat, cmd: s.cmds[i], status: st }]
        }) + (if spec_exit_propagates(s, i, st) && !spec_suppressed(s.cmds, i) {
            seq![Act::KillPrint]
        } else {
            Seq::<Act>::empty()
        }),
{
    let a1: Seq<Act> = if spec_suppressed(s.cmds, i) {
        Seq::<Act>::empty()
    } else {
        seq![Act::ExitPrint { index: i, pid: s.rt[i].pid as nat, cmd: s.cmds[i], status: st }]
    };
    let a2: Seq<Act> = if spec_exit_propagates(s, i, st) && !spec_suppressed(s.cmds, i) {
        seq![Act::KillPrint]
    } else {
        Seq::<Act>::empty()
    };
    let a3: Seq<Act> = spec_exit_kills(s, i, st).map_values(|j: int| Act::KillReq { index: j });
    let a4: Seq<Act> = if restart_granted(s.cmds[i], s.rt[i], st) {
        seq![Act::RestartReq { index: i }]
    } else {
        Seq::<Act>::empty()
    };
    lemma_print_acts_concat(a1 + a2 + a3, a4);
    lemma_print_acts_concat(a1 + a2, a3);
    lemma_print_acts_concat(a1, a2);
    lemma_print_acts_all_print(a1);
    lemma_print_acts_all_print(a2);
    lemma_print_acts_none_print(a3);
    lemma_print_acts_none_print(a4);
    assert(spec_exit_acts(s, i, st) == a1 + a2 + a3 + a4);
}

/// The interrupt lines line up with the printing actions of the interrupt
/// step.
proof fn lemma_interrupt_lines_match(s: StateView)
    ensures
        lines_match(spec_interrupt_lines(s), print_acts(spec_interrupt_acts(s))),
{
    let a1: Seq<Act> = seq![Act::CtrlCPrint];
    assert(act_line_at(Act::CtrlCPrint, "Ctrl-C issued"@, Seq::<char>::empty()));
    assert(act_line_ok(Act::CtrlCPrint, "Ctrl-C issued"@));
    if spec_interrupt_quiescent(s) {
        lemma_print_acts_concat(a1, Seq::<Act>::empty());
        lemma_print_acts_all_print(a1);
        assert(spec_interrupt_acts(s) =~= a1);
        assert(print_acts(spec_interrupt_acts(s)) =~= a1);
        assert(spec_interrupt_lines(s) =~= seq!["Ctrl-C issued"@]);
    } else {
        let a2: Seq<Act> = seq![Act::TermPrint];
        let a3: Seq<Act> = spec_interrupt_kills(s).map_values(|j: int| Act::KillReq { index: j });
        assert(spec_interrupt_acts(s) == a1 + (a2 + a3));
        lemma_print_acts_concat(a1, a2 + a3);
        lemma_print_acts_concat(a2, a3);
        lemma_print_acts_all_print(a1);
        lemma_print_acts_all_print(a2);
        lemma_print_acts_none_print(a3);
        assert(print_acts(spec_interrupt_acts(s)) =~= a1 + a2);
        assert(spec_interrupt_lines(s) =~= seq!["Ctrl-C issued"@, "Terminating all processes.."@]);
        assert(act_line_at(Act::TermPrint, "Terminating all processes.."@, Seq::<char>::empty()));
        assert(act_line_ok(Act::TermPrint, "Terminating all processes.."@));
        assert((a1 + a2)[0] == Act::CtrlCPrint);
        assert((a1 + a2)[1] == Act::TermPrint);
    }
}

/// Printing actions pass through `print_acts` unchanged.
proof fn lemma_print_acts_all_print(a: Seq<Act>)
    requires
        forall|k: int| 0 <= k < a.len() ==> is_print(#[trigger] a[k]),
    ensures
        print_acts(a) =~= a,
    decreases a.len(),
{
    if a.len() > 0 {
        lemma_print_acts_all_print(a.drop_last());
    }
}

/// Non-printing actions vanish in `print_acts`.
proof fn lemma_print_acts_none_print(a: Seq<Act>)
    requires
        forall|k: int| 0 <= k < a.len() ==> !is_print(#[trigger] a[k]),
    ensures
        print_acts(a) =~= Seq::<Act>::empty(),
    decreases a.len(),
{
    if a.len() > 0 {
        lemma_print_acts_none_print(a.drop_last());
    }
}


/// The printed line of a restart notice satisfies its action.
proof fn lemma_act_line_ok_restart(index: int, pid: nat, cmd: CmdView, l: Seq<char>)
    requires
        exists|t: Seq<char>| l == spec_restart_line(cmd, pid, t),
    ensures
        act_line_ok(Act::RestartPrint { index, pid, cmd }, l),
{
    let t = choose|t: Seq<char>| l == spec_restart_line(cmd, pid, t);
    assert(act_line_at(Act::RestartPrint { index, pid, cmd }, l, t));
}

/// The printed line of a captured output line satisfies its action.
proof fn lemma_act_line_ok_output(index: int, pid: nat, cmd: CmdView, line: Seq<char>, l: Seq<char>)
    requires
        exists|t: Seq<char>| l == spec_output_line(cmd, pid, t, line),
    ensures
        act_line_ok(Act::OutputPrint { index, pid, cmd, line }, l),
{
    let t = choose|t: Seq<char>| l == spec_output_line(cmd, pid, t, line);
    assert(act_line_at(Act::OutputPrint { index, pid, cmd, line }, l, t));
}

/// The printed line of an exit notice satisfies its action.
proof fn lemma_act_line_ok_exit(index: int, pid: nat, cmd: CmdView, status: ProcStatus, l: Seq<char>)
    requires
        exists|t: Seq<char>| l == spec_exit_line(cmd, pid, t, status),
    ensures
        act_line_ok(Act::ExitPrint { index, pid, cmd, status }, l),
{
    let t = choose|t: Seq<char>| l == spec_exit_line(cmd, pid, t, status);
    assert(act_line_at(Act::ExitPrint { index, pid, cmd, status }, l, t));
}

} // verus!
