//! The guarantees of the coordinator, stated over whole runs of the
//! model in `trace`: no output is lost, restart budgets are respected,
//! success is never restarted, kill-propagation fires at most once, and
//! an interrupt with nothing running stops the loop at once.

use vstd::prelude::*;
use crate::event_loop::{
    consume_switches, is_success, lemma_switch_indices_char, restart_granted, spec_exit_kills,
    spec_exit_propagates, spec_exit_rt1, spec_interrupt_quiescent, spec_suppressed,
    switch_indices, wf_state, ProcStatus, RuntimeState, StateView,
};
use crate::trace::{
    spec_interrupt_acts, spec_output_acts, spec_run, spec_run_from, spec_step, Act, StimView,
};

verus! {

/// How many restart requests for command `i` a list of actions holds.
pub open spec fn count_restart_reqs(acts: Seq<Act>, i: int) -> nat
    decreases acts.len(),
{
    if acts.len() == 0 {
        0
    } else {
        count_restart_reqs(acts.drop_last(), i) + if acts.last() == (Act::RestartReq { index: i }) {
            1nat
        } else {
            0nat
        }
    }
}

/// How many termination requests a list of actions holds.
pub open spec fn count_kill_reqs(acts: Seq<Act>) -> nat
    decreases acts.len(),
{
    if acts.len() == 0 {
        0
    } else {
        count_kill_reqs(acts.drop_last()) + if acts.last() is KillReq {
            1nat
        } else {
            0nat
        }
    }
}

/// An action that prints the output line `l` of command `i`.
pub open spec fn is_output_print_for(a: Act, i: int, l: Seq<char>) -> bool {
    match a {
        Act::OutputPrint { index, pid: _, cmd: _, line } => index == i && line == l,
        _ => false,
    }
}

/// How many times the output line `l` of command `i` is printed.
pub open spec fn count_output_prints(acts: Seq<Act>, i: int, l: Seq<char>) -> nat
    decreases acts.len(),
{
    if acts.len() == 0 {
        0
    } else {
        count_output_prints(acts.drop_last(), i, l) + if is_output_print_for(acts.last(), i, l) {
            1nat
        } else {
            0nat
        }
    }
}

/// A stimulus that delivers the output line `l` of command `i`.
pub open spec fn is_output_stim_for(ev: StimView, i: int, l: Seq<char>) -> bool {
    match ev {
        StimView::Output { index, line } => index == i && line == l,
        _ => false,
    }
}

/// How many stimuli from position `j` on deliver the output line `l` of
/// command `i`.
pub open spec fn count_output_stims_from(stims: Seq<StimView>, i: int, l: Seq<char>, j: int) -> nat
    decreases stims.len() - j,
{
    if j < 0 || j >= stims.len() {
        0
    } else {
        (if is_output_stim_for(stims[j], i, l) {
            1nat
        } else {
            0nat
        }) + count_output_stims_from(stims, i, l, j + 1)
    }
}

proof fn lemma_count_restart_reqs_concat(a: Seq<Act>, b: Seq<Act>, i: int)
    ensures
        count_restart_reqs(a + b, i) == count_restart_reqs(a, i) + count_restart_reqs(b, i),
    decreases b.len(),
{
    if b.len() == 0 {
        assert(a + b =~= a);
    } else {
        lemma_count_restart_reqs_concat(a, b.drop_last(), i);
        assert((a + b).drop_last() =~= a + b.drop_last());
    }
}

proof fn lemma_count_kill_reqs_concat(a: Seq<Act>, b: Seq<Act>)
    ensures
        count_kill_reqs(a + b) == count_kill_reqs(a) + count_kill_reqs(b),
    decreases b.len(),
{
    if b.len() == 0 {
        assert(a + b =~= a);
    } else {
        lemma_count_kill_reqs_concat(a, b.drop_last());
        assert((a + b).drop_last() =~= a + b.drop_last());
    }
}

proof fn lemma_count_output_prints_concat(a: Seq<Act>, b: Seq<Act>, i: int, l: Seq<char>)
    ensures
        count_output_prints(a + b, i, l) == count_output_prints(a, i, l) + count_output_prints(
            b,
            i,
            l,
        ),
    decreases b.len(),
{
    if b.len() == 0 {
        assert(a + b =~= a);
    } else {
        lemma_count_output_prints_concat(a, b.drop_last(), i, l);
        assert((a + b).drop_last() =~= a + b.drop_last());
    }
}

/// A list without restart requests for `i` counts zero.
proof fn lemma_count_restart_reqs_zero(a: Seq<Act>, i: int)
    requires
        forall|k: int| 0 <= k < a.len() ==> #[trigger] a[k] != (Act::RestartReq { index: i }),
    ensures
        count_restart_reqs(a, i) == 0,
    decreases a.len(),
{
    if a.len() > 0 {
        lemma_count_restart_reqs_zero(a.drop_last(), i);
    }
}

/// A list without termination requests counts zero.
proof fn lemma_count_kill_reqs_zero(a: Seq<Act>)
    requires
        forall|k: int| 0 <= k < a.len() ==> !(#[trigger] a[k] is KillReq),
    ensures
        count_kill_reqs(a) == 0,
    decreases a.len(),
{
    if a.len() > 0 {
        lemma_count_kill_reqs_zero(a.drop_last());
    }
}

/// A list without output prints of `(i, l)` counts zero.
proof fn lemma_count_output_prints_zero(a: Seq<Act>, i: int, l: Seq<char>)
    requires
        forall|k: int| 0 <= k < a.len() ==> !is_output_print_for(#[trigger] a[k], i, l),
    ensures
        count_output_prints(a, i, l) == 0,
    decreases a.len(),
{
    if a.len() > 0 {
        lemma_count_output_prints_zero(a.drop_last(), i, l);
    }
}

/// No slot holds a kill switch, so none is listed.
proof fn lemma_switch_indices_empty(rt: Seq<RuntimeState>)
    requires
        forall|j: int| 0 <= j < rt.len() ==> !(#[trigger] rt[j]).kill_switch,
    ensures
        switch_indices(rt) =~= Seq::<int>::empty(),
    decreases rt.len(),
{
    if rt.len() > 0 {
        lemma_switch_indices_empty(rt.drop_last());
    }
}

/// Every step keeps the state sound and leaves the configuration and the
/// number of slots untouched.
pub proof fn lemma_step_preserves_wf(s: StateView, ev: StimView)
    requires
        wf_state(s),
    ensures
        wf_state(spec_step(s, ev).0),
        spec_step(s, ev).0.cmds == s.cmds,
        spec_step(s, ev).0.kill_others == s.kill_others,
        spec_step(s, ev).0.kill_others_on_fail == s.kill_others_on_fail,
        spec_step(s, ev).0.rt.len() == s.rt.len(),
{
    let s1 = spec_step(s, ev).0;
    match ev {
        StimView::Spawn { index, is_restart, pid } => {
            assert(wf_state(s1));
        },
        StimView::Output { index, line } => {
            assert(wf_state(s1));
        },
        StimView::Exit { index, status } => {
            if !s.stopped && 0 <= index < s.rt.len() && s.rt[index].alive {
                let rt1 = spec_exit_rt1(s, index, status);
                assert(forall|j: int|
                    0 <= j < rt1.len() ==> ((#[trigger] rt1[j]).kill_switch ==> rt1[j].alive));
                assert(forall|j: int|
                    0 <= j < s.cmds.len() ==> (!(#[trigger] s.cmds[j]).restart_indefinitely
                        ==> rt1[j].restarts_remaining >= 0));
                if spec_exit_propagates(s, index, status) {
                    let rt2 = consume_switches(rt1);
                    assert(forall|j: int|
                        0 <= j < rt2.len() ==> ((#[trigger] rt2[j]).kill_switch ==> rt2[j].alive));
                    assert(forall|j: int|
                        0 <= j < s.cmds.len() ==> (!(#[trigger] s.cmds[j]).restart_indefinitely
                            ==> rt2[j].restarts_remaining >= 0));
                }
                assert(wf_state(s1));
            }
        },
        StimView::Interrupt => {
            if !s.stopped && !spec_interrupt_quiescent(s) {
                let rt2 = consume_switches(s.rt);
                assert(forall|j: int|
                    0 <= j < rt2.len() ==> ((#[trigger] rt2[j]).kill_switch ==> rt2[j].alive));
                assert(forall|j: int|
                    0 <= j < s.cmds.len() ==> (!(#[trigger] s.cmds[j]).restart_indefinitely
                        ==> rt2[j].restarts_remaining >= 0));
            }
            assert(wf_state(s1));
        },
    }
}

/// One step changes command `i`'s remaining budget by exactly the number
/// of restart requests it issues for `i` (whose budget is finite).
pub proof fn lemma_step_budget(s: StateView, ev: StimView, i: int)
    requires
        wf_state(s),
        0 <= i < s.rt.len(),
        !s.cmds[i].restart_indefinitely,
    ensures
        count_restart_reqs(spec_step(s, ev).1, i) + spec_step(s, ev).0.rt[i].restarts_remaining
            == s.rt[i].restarts_remaining,
{
    let (s1, acts) = spec_step(s, ev);
    match ev {
        StimView::Spawn { index, is_restart, pid } => {
            lemma_count_restart_reqs_zero(acts, i);
        },
        StimView::Output { index, line } => {
            lemma_count_restart_reqs_zero(acts, i);
        },
        StimView::Exit { index, status } => {
            if !s.stopped && 0 <= index < s.rt.len() && s.rt[index].alive {
                let a1: Seq<Act> = if spec_suppressed(s.cmds, index) {
                    Seq::<Act>::empty()
                } else {
                    seq![
                        Act::ExitPrint {
                            index,
                            pid: s.rt[index].pid as nat,
                            cmd: s.cmds[index],
                            status,
                        },
                    ]
                };
                let a2: Seq<Act> = if spec_exit_propagates(s, index, status) && !spec_suppressed(
                    s.cmds,
                    index,
                ) {
                    seq![Act::KillPrint]
                } else {
                    Seq::<Act>::empty()
                };
                let a3: Seq<Act> = spec_exit_kills(s, index, status).map_values(
                    |j: int| Act::KillReq { index: j },
                );
                let a4: Seq<Act> = if restart_granted(s.cmds[index], s.rt[index], status) {
                    seq![Act::RestartReq { index }]
                } else {
                    Seq::<Act>::empty()
                };
                assert(acts == a1 + a2 + a3 + a4);
                lemma_count_restart_reqs_concat(a1 + a2 + a3, a4, i);
                lemma_count_restart_reqs_concat(a1 + a2, a3, i);
                lemma_count_restart_reqs_concat(a1, a2, i);
                lemma_count_restart_reqs_zero(a1, i);
                lemma_count_restart_reqs_zero(a2, i);
                assert(forall|k: int|
                    0 <= k < a3.len() ==> #[trigger] a3[k] != (Act::RestartReq { index: i }));
                lemma_count_restart_reqs_zero(a3, i);
                if restart_granted(s.cmds[index], s.rt[index], status) {
                    assert(a4.drop_last() =~= Seq::<Act>::empty());
                    if index == i {
                        assert(count_restart_reqs(a4, i) == 1);
                        assert(s1.rt[i].restarts_remaining == s.rt[i].restarts_remaining - 1);
                    } else {
                        assert(count_restart_reqs(a4, i) == 0);
                        assert(s1.rt[i].restarts_remaining == s.rt[i].restarts_remaining);
                    }
                } else {
                    lemma_count_restart_reqs_zero(a4, i);
                    assert(s1.rt[i].restarts_remaining == s.rt[i].restarts_remaining);
                }
            } else {
                lemma_count_restart_reqs_zero(acts, i);
            }
        },
        StimView::Interrupt => {
            if !s.stopped {
                if spec_interrupt_quiescent(s) {
                    assert(forall|k: int|
                        0 <= k < acts.len() ==> #[trigger] acts[k] != (Act::RestartReq {
                            index: i,
                        }));
                    lemma_count_restart_reqs_zero(acts, i);
                } else {
                    assert(forall|k: int|
                        0 <= k < acts.len() ==> #[trigger] acts[k] != (Act::RestartReq {
                            index: i,
                        }));
                    lemma_count_restart_reqs_zero(acts, i);
                }
            } else {
                lemma_count_restart_reqs_zero(acts, i);
            }
        },
    }
}

/// Restart budget: over any whole run, a command with finite budget `k`
/// is granted restarts exactly as its remaining budget drains, so it is
/// granted at most `k` of them; a run whose budget is exhausted grants no
/// more.
pub proof fn lemma_restart_budget(s: StateView, stims: Seq<StimView>, i: int)
    requires
        wf_state(s),
        0 <= i < s.rt.len(),
        !s.cmds[i].restart_indefinitely,
    ensures
        count_restart_reqs(spec_run(s, stims).1, i) + spec_run(s, stims).0.rt[i].restarts_remaining
            == s.rt[i].restarts_remaining,
        spec_run(s, stims).0.rt[i].restarts_remaining >= 0,
        count_restart_reqs(spec_run(s, stims).1, i) <= s.rt[i].restarts_remaining,
{
    lemma_restart_budget_from(s, stims, 0, i);
}

proof fn lemma_restart_budget_from(s: StateView, stims: Seq<StimView>, j: int, i: int)
    requires
        wf_state(s),
        0 <= i < s.rt.len(),
        !s.cmds[i].restart_indefinitely,
    ensures
        count_restart_reqs(spec_run_from(s, stims, j).1, i) + spec_run_from(
            s,
            stims,
            j,
        ).0.rt[i].restarts_remaining == s.rt[i].restarts_remaining,
        spec_run_from(s, stims, j).0.rt[i].restarts_remaining >= 0,
        wf_state(spec_run_from(s, stims, j).0),
        spec_run_from(s, stims, j).0.cmds == s.cmds,
        spec_run_from(s, stims, j).0.rt.len() == s.rt.len(),
    decreases stims.len() - j,
{
    if j < 0 || j >= stims.len() {
        assert(spec_run_from(s, stims, j).1 =~= Seq::<Act>::empty());
    } else {
        let (s1, a1) = spec_step(s, stims[j]);
        lemma_step_preserves_wf(s, stims[j]);
        lemma_step_budget(s, stims[j], i);
        lemma_restart_budget_from(s1, stims, j + 1, i);
        lemma_count_restart_reqs_concat(a1, spec_run_from(s1, stims, j + 1).1, i);
    }
}

/// No restart on success: an exit with status zero never issues a restart
/// request, no matter the remaining budget.
pub proof fn lemma_no_restart_on_success(s: StateView, i: int, st: ProcStatus)
    requires
        wf_state(s),
        is_success(st),
    ensures
        forall|j: int|
            count_restart_reqs(
                #[trigger] spec_step(s, StimView::Exit { index: i, status: st }).1,
                j,
            ) == 0,
{
    let acts = spec_step(s, StimView::Exit { index: i, status: st }).1;
    assert forall|j: int| count_restart_reqs(acts, j) == 0 by {
        if !s.stopped && 0 <= i < s.rt.len() && s.rt[i].alive {
            assert(!restart_granted(s.cmds[i], s.rt[i], st));
            assert(forall|k: int|
                0 <= k < acts.len() ==> #[trigger] acts[k] != (Act::RestartReq { index: j }));
            lemma_count_restart_reqs_zero(acts, j);
        } else {
            lemma_count_restart_reqs_zero(acts, j);
        }
    }
}

/// A failed exit is restarted exactly once for as long as budget
/// remains, and always under unlimited restarts.
pub proof fn lemma_restart_while_budget_remains(s: StateView, i: int, st: ProcStatus)
    requires
        wf_state(s),
        !s.stopped,
        0 <= i < s.rt.len(),
        s.rt[i].alive,
        !is_success(st),
        s.cmds[i].restart_indefinitely || s.rt[i].restarts_remaining > 0,
    ensures
        count_restart_reqs(spec_step(s, StimView::Exit { index: i, status: st }).1, i) == 1,
{
    let acts = spec_step(s, StimView::Exit { index: i, status: st }).1;
    assert(restart_granted(s.cmds[i], s.rt[i], st));
    let a123: Seq<Act> = acts.drop_last();
    assert(acts.last() == (Act::RestartReq { index: i }));
    assert(forall|k: int|
        0 <= k < a123.len() ==> #[trigger] a123[k] != (Act::RestartReq { index: i }));
    lemma_count_restart_reqs_zero(a123, i);
}

/// A failed exit with its finite budget exhausted is not restarted.
pub proof fn lemma_no_restart_when_budget_exhausted(s: StateView, i: int, st: ProcStatus)
    requires
        wf_state(s),
        0 <= i < s.rt.len(),
        !s.cmds[i].restart_indefinitely,
        s.rt[i].restarts_remaining == 0,
    ensures
        count_restart_reqs(spec_step(s, StimView::Exit { index: i, status: st }).1, i) == 0,
{
    let acts = spec_step(s, StimView::Exit { index: i, status: st }).1;
    assert(!restart_granted(s.cmds[i], s.rt[i], st));
    assert(forall|k: int|
        0 <= k < acts.len() ==> #[trigger] acts[k] != (Act::RestartReq { index: i }));
    lemma_count_restart_reqs_zero(acts, i);
}

/// Within one exit, each still-armed process other than the exiting one
/// receives exactly one termination request, and nobody else any.
pub proof fn lemma_one_request_per_process(s: StateView, i: int, st: ProcStatus)
    requires
        wf_state(s),
        0 <= i < s.rt.len(),
    ensures
        spec_exit_kills(s, i, st).no_duplicates(),
        forall|j: int|
            #[trigger] spec_exit_kills(s, i, st).contains(j) ==> 0 <= j < s.rt.len() && j != i
                && s.rt[j].kill_switch && s.rt[j].alive,
{
    let rt1 = spec_exit_rt1(s, i, st);
    lemma_switch_indices_char(rt1);
    if spec_exit_propagates(s, i, st) {
        assert(forall|j: int|
            #[trigger] switch_indices(rt1).contains(j) ==> 0 <= j < rt1.len()
                && rt1[j].kill_switch);
        assert(!rt1[i].kill_switch);
        assert(forall|j: int| 0 <= j < rt1.len() && j != i ==> rt1[j] == s.rt[j]);
    } else {
        assert(spec_exit_kills(s, i, st) =~= Seq::<int>::empty());
    }
}

/// Any step that sends a termination request leaves no kill switch armed.
pub proof fn lemma_kill_consumes_all(s: StateView, ev: StimView)
    requires
        wf_state(s),
    ensures
        count_kill_reqs(spec_step(s, ev).1) > 0 ==> forall|j: int|
            0 <= j < spec_step(s, ev).0.rt.len() ==> !(#[trigger] spec_step(
                s,
                ev,
            ).0.rt[j]).kill_switch,
{
    let (s1, acts) = spec_step(s, ev);
    match ev {
        StimView::Spawn { index, is_restart, pid } => {
            lemma_count_kill_reqs_zero(acts);
        },
        StimView::Output { index, line } => {
            lemma_count_kill_reqs_zero(acts);
        },
        StimView::Exit { index, status } => {
            if !s.stopped && 0 <= index < s.rt.len() && s.rt[index].alive {
                if spec_exit_propagates(s, index, status) {
                    assert(s1.rt == consume_switches(spec_exit_rt1(s, index, status)));
                    assert(forall|j: int|
                        0 <= j < s1.rt.len() ==> !(#[trigger] s1.rt[j]).kill_switch);
                } else {
                    let a3: Seq<Act> = spec_exit_kills(s, index, status).map_values(
                        |j: int| Act::KillReq { index: j },
                    );
                    assert(a3 =~= Seq::<Act>::empty());
                    assert(forall|k: int| 0 <= k < acts.len() ==> !(#[trigger] acts[k] is KillReq));
                    lemma_count_kill_reqs_zero(acts);
                }
            } else {
                lemma_count_kill_reqs_zero(acts);
            }
        },
        StimView::Interrupt => {
            if !s.stopped && !spec_interrupt_quiescent(s) {
                assert(s1.rt == consume_switches(s.rt));
                assert(forall|j: int| 0 <= j < s1.rt.len() ==> !(#[trigger] s1.rt[j]).kill_switch);
            } else {
                lemma_count_kill_reqs_zero(acts);
            }
        },
    }
}

/// A state without armed kill switches sends no termination request,
/// whatever happens next.
pub proof fn lemma_no_switch_no_kill(s: StateView, ev: StimView)
    requires
        wf_state(s),
        forall|j: int| 0 <= j < s.rt.len() ==> !(#[trigger] s.rt[j]).kill_switch,
    ensures
        count_kill_reqs(spec_step(s, ev).1) == 0,
{
    let (s1, acts) = spec_step(s, ev);
    match ev {
        StimView::Spawn { index, is_restart, pid } => {
            lemma_count_kill_reqs_zero(acts);
        },
        StimView::Output { index, line } => {
            lemma_count_kill_reqs_zero(acts);
        },
        StimView::Exit { index, status } => {
            if !s.stopped && 0 <= index < s.rt.len() && s.rt[index].alive {
                let rt1 = spec_exit_rt1(s, index, status);
                assert(forall|j: int| 0 <= j < rt1.len() ==> !(#[trigger] rt1[j]).kill_switch);
                lemma_switch_indices_empty(rt1);
                assert(!spec_exit_propagates(s, index, status));
                let a3: Seq<Act> = spec_exit_kills(s, index, status).map_values(
                    |j: int| Act::KillReq { index: j },
                );
                assert(a3 =~= Seq::<Act>::empty());
                assert(forall|k: int| 0 <= k < acts.len() ==> !(#[trigger] acts[k] is KillReq));
                lemma_count_kill_reqs_zero(acts);
            } else {
                lemma_count_kill_reqs_zero(acts);
            }
        },
        StimView::Interrupt => {
            if !s.stopped {
                lemma_switch_indices_empty(s.rt);
                assert(spec_interrupt_quiescent(s));
                assert(forall|k: int| 0 <= k < acts.len() ==> !(#[trigger] acts[k] is KillReq));
                lemma_count_kill_reqs_zero(acts);
            } else {
                lemma_count_kill_reqs_zero(acts);
            }
        },
    }
}

/// Kill-propagation idempotence: once a step has sent termination
/// requests, the very next step sends none, however it is triggered — a
/// second concurrent failure or interrupt finds every switch consumed.
pub proof fn lemma_kill_propagation_idempotent(s: StateView, ev1: StimView, ev2: StimView)
    requires
        wf_state(s),
        count_kill_reqs(spec_step(s, ev1).1) > 0,
    ensures
        count_kill_reqs(spec_step(spec_step(s, ev1).0, ev2).1) == 0,
{
    lemma_kill_consumes_all(s, ev1);
    lemma_step_preserves_wf(s, ev1);
    lemma_no_switch_no_kill(spec_step(s, ev1).0, ev2);
}

/// Interrupt with nothing running: when every process has already
/// exited, an interrupt stops the loop at once, prints only the
/// interrupt notice, and asks nothing of anyone.
pub proof fn lemma_interrupt_with_nothing_running(s: StateView)
    requires
        wf_state(s),
        !s.stopped,
        forall|j: int| 0 <= j < s.rt.len() ==> !(#[trigger] s.rt[j]).alive,
    ensures
        spec_step(s, StimView::Interrupt).0.stopped,
        spec_step(s, StimView::Interrupt).1 == seq![Act::CtrlCPrint],
{
    assert(forall|j: int| 0 <= j < s.rt.len() ==> !(#[trigger] s.rt[j]).kill_switch);
    lemma_switch_indices_empty(s.rt);
    assert(spec_interrupt_quiescent(s));
    assert(spec_interrupt_acts(s) =~= seq![Act::CtrlCPrint]);
}

/// No lost output: over any whole run, each output line a process
/// delivers is printed exactly once — also when it arrives after the
/// loop has stopped — unless that command's output is suppressed, in
/// which case it is never printed.
pub proof fn lemma_no_lost_output(s: StateView, stims: Seq<StimView>, i: int, l: Seq<char>)
    requires
        wf_state(s),
        0 <= i < s.cmds.len(),
    ensures
        count_output_prints(spec_run(s, stims).1, i, l) == if spec_suppressed(s.cmds, i) {
            0nat
        } else {
            count_output_stims_from(stims, i, l, 0)
        },
{
    lemma_no_lost_output_from(s, stims, 0, i, l);
}

/// One step prints the line `(i, l)` exactly when the stimulus delivers
/// it and command `i` is not suppressed.
proof fn lemma_step_output_count(s: StateView, ev: StimView, i: int, l: Seq<char>)
    requires
        wf_state(s),
        0 <= i < s.cmds.len(),
    ensures
        count_output_prints(spec_step(s, ev).1, i, l) == if is_output_stim_for(ev, i, l)
            && !spec_suppressed(s.cmds, i) {
            1nat
        } else {
            0nat
        },
{
    let (s1, acts) = spec_step(s, ev);
    match ev {
        StimView::Spawn { index, is_restart, pid } => {
            assert(forall|k: int| 0 <= k < acts.len() ==> !is_output_print_for(#[trigger] acts[k], i, l));
            lemma_count_output_prints_zero(acts, i, l);
        },
        StimView::Output { index, line } => {
            if 0 <= index < s.cmds.len() && !spec_suppressed(s.cmds, index) {
                assert(acts == spec_output_acts(s, index, line));
                assert(acts.drop_last() =~= Seq::<Act>::empty());
                lemma_count_output_prints_zero(acts.drop_last(), i, l);
                if index == i && line == l {
                    assert(is_output_print_for(acts.last(), i, l));
                    assert(count_output_prints(acts, i, l) == 1);
                } else {
                    assert(!is_output_print_for(acts.last(), i, l));
                    assert(count_output_prints(acts, i, l) == 0);
                }
            } else {
                assert(acts =~= Seq::<Act>::empty());
                if is_output_stim_for(ev, i, l) {
                    assert(index == i);
                    assert(spec_suppressed(s.cmds, i));
                }
            }
        },
        StimView::Exit { index, status } => {
            assert(forall|k: int| 0 <= k < acts.len() ==> !is_output_print_for(#[trigger] acts[k], i, l));
            lemma_count_output_prints_zero(acts, i, l);
        },
        StimView::Interrupt => {
            assert(forall|k: int| 0 <= k < acts.len() ==> !is_output_print_for(#[trigger] acts[k], i, l));
            lemma_count_output_prints_zero(acts, i, l);
        },
    }
}

proof fn lemma_no_lost_output_from(s: StateView, stims: Seq<StimView>, j: int, i: int, l: Seq<char>)
    requires
        wf_state(s),
        0 <= i < s.cmds.len(),
    ensures
        count_output_prints(spec_run_from(s, stims, j).1, i, l) == if spec_suppressed(s.cmds, i) {
            0nat
        } else {
            count_output_stims_from(stims, i, l, j)
        },
    decreases stims.len() - j,
{
    if j < 0 || j >= stims.len() {
        assert(spec_run_from(s, stims, j).1 =~= Seq::<Act>::empty());
    } else {
        let (s1, a1) = spec_step(s, stims[j]);
        lemma_step_preserves_wf(s, stims[j]);
        lemma_step_output_count(s, stims[j], i, l);
        lemma_no_lost_output_from(s1, stims, j + 1, i, l);
        lemma_count_output_prints_concat(a1, spec_run_from(s1, stims, j + 1).1, i, l);
    }
}

} // verus!
