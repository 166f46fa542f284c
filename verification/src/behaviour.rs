//! What each operation is for: its result in terms of what it was given and of
//! the fields of the state, for every input, and how calls relate to each other.

use vstd::prelude::*;
#[allow(unused_imports)]
use vstd::utf8::{decode_utf8, valid_utf8};
#[allow(unused_imports)]
use crate::boundary::{stamped, tagged};
#[allow(unused_imports)]
use crate::error::DispatchError;
#[allow(unused_imports)]
use crate::json;
#[allow(unused_imports)]
use crate::json::Json;
#[allow(unused_imports)]
use crate::laws::{
    init_of, inits, lemma_all_signalled, lemma_drained_reminders_wf, lemma_drained_results_wf,
    lemma_launch_tracks, merged, settled_groups_go_out_whole, tracked_at, untouched, unused,
};
#[allow(unused_imports)]
use crate::nonce::{draw_failed, drawn_nonce, is_nonce};
#[allow(unused_imports)]
use crate::orchestrator::{
    all_nonces, emissions_of, live_answer, live_read, nonces_of, prepared_of, reminders_of,
    remindings, results_of, Emission, HeldGroup, Orchestrator, Reminder, TaskResult,
    TaskResultKind, WaitEvent,
};
#[allow(unused_imports)]
use crate::reminder::{ReminderEvent, ReminderTimer};
#[allow(unused_imports)]
use crate::signal::{
    latest, lines_of, window_keeps_the_latest, SignalEntry, SignalKind, SignalView,
};
#[allow(unused_imports)]
use crate::state::{
    all_resulted, all_signalled, any_running, call_session, context_of, dispatched, drained,
    drained_reminder, drained_reminders, drained_result, drained_results, goal_set, group_at,
    initial, joined_held, kills, nonce_of, or_null, pids_from, prevented, produced,
    remind_message, remind_signal, reminder_fired, resulted, running, session_of,
    session_pids_of, session_running, shut_down, singles, state_wf, timer_launched, wait_step,
    waits, window_text, Drain, EmissionView, Held, Reminding, State, TaskResultKindView,
    TaskResultView, WaitEventView, WaitOutcome,
};
#[allow(unused_imports)]
use crate::tail::{live_part, shows_exactly};
#[allow(unused_imports)]
use crate::task::{
    LiveTail, PreparedTask, PreparedView, TaskDefView, TaskKindView, TaskState, TaskView,
    TimerDefView,
};
#[allow(unused_imports)]
use crate::text::{decimal, last_of, utf8_lossy};

verus! {

/// Whether a task is known and in the state Running.
pub open spec fn runs(s: State, pid: u64) -> bool {
    s.tasks.contains_key(pid) && s.tasks[pid].state == TaskState::Running
}

/// Whether a task was dispatched in a session (`None`: in none).
pub open spec fn belongs(s: State, pid: u64, session: Option<Seq<char>>) -> bool {
    match session {
        Some(id) => s.sessions.contains_key(pid) && s.sessions[pid] == id,
        None => !s.sessions.contains_key(pid),
    }
}

/// Whether a task of a session is in the state Running.
pub open spec fn session_open(s: State, session: Option<Seq<char>>) -> bool {
    exists|pid: u64| #[trigger]
        s.tasks.contains_key(pid) && s.tasks[pid].state == TaskState::Running && belongs(
            s,
            pid,
            session,
        )
}

/// The last `n` items, or all of them where there are fewer.
pub open spec fn last_part<A>(items: Seq<A>, n: nat) -> Seq<A> {
    items.subrange(
        if items.len() <= n {
            0
        } else {
            items.len() - n
        },
        items.len() as int,
    )
}

/// The last `n` items are as many as there are up to `n`, and nothing stands behind
/// them.
pub proof fn the_last_part_ends_the_items<A>(items: Seq<A>, n: nat)
    ensures
        last_part(items, n).len() == (if items.len() < n {
            items.len()
        } else {
            n
        }),
        items == items.take(items.len() - last_part(items, n).len()) + last_part(items, n),
{
    assert(items =~= items.take(items.len() - last_part(items, n).len()) + last_part(items, n));
}

proof fn lemma_last_part(signals: Seq<SignalView>, n: nat)
    ensures
        latest(signals, n) == last_part(signals, n),
{
    assert(latest(signals, n) =~= last_part(signals, n));
}

proof fn lemma_runs(s: State)
    ensures
        forall|pid: u64| running(s, pid) == runs(s, pid),
        any_running(s) == (exists|pid: u64| runs(s, pid)),
{
    assert forall|pid: u64| running(s, pid) == runs(s, pid) by {}
    if any_running(s) {
        let pid = choose|pid: u64| running(s, pid);
        assert(runs(s, pid));
    }
    if exists|pid: u64| runs(s, pid) {
        let pid = choose|pid: u64| runs(s, pid);
        assert(running(s, pid));
    }
}

proof fn lemma_session_open(s: State, session: Option<Seq<char>>)
    ensures
        session_running(s, session) == session_open(s, session),
{
    if session_running(s, session) {
        let pid = choose|pid: u64| #[trigger] running(s, pid) && session_of(s, pid) == session;
        assert(s.tasks.contains_key(pid) && belongs(s, pid, session));
    }
    if session_open(s, session) {
        let pid = choose|pid: u64| #[trigger]
            s.tasks.contains_key(pid) && s.tasks[pid].state == TaskState::Running && belongs(
                s,
                pid,
                session,
            );
        assert(running(s, pid) && session_of(s, pid) == session);
    }
}

/// The window after signals one after the other is the end of the window and
/// them.
proof fn lemma_window_after(s: State, signals: Seq<SignalView>)
    requires
        s.window.len() <= 20,
    ensures
        all_signalled(s, signals).window == last_part(s.window + signals, 20),
    decreases signals.len(),
{
    if signals.len() == 0 {
        assert(s.window + signals =~= s.window);
        assert(last_part(s.window, 20) =~= s.window);
    } else {
        let front = signals.drop_last();
        lemma_window_after(s, front);
        window_keeps_the_latest(s.window + front, signals.last(), 20);
        lemma_last_part(s.window + front, 20);
        lemma_last_part((s.window + front).push(signals.last()), 20);
        assert((s.window + front).push(signals.last()) =~= s.window + signals);
    }
}

// ---- the beginning ----

/// At first there are no tasks, signals, reminders, output, strategy, sessions or
/// held signals, and the first PID is 1.
pub proof fn nothing_is_there_at_first()
    ensures
        initial().tasks == Map::<u64, TaskView>::empty(),
        initial().window.len() == 0,
        initial().reminders == Map::<u64, ReminderTimer>::empty(),
        initial().outputs == Map::<u64, Seq<char>>::empty(),
        initial().strategy is None,
        initial().sessions == Map::<u64, Seq<char>>::empty(),
        initial().current_session is None,
        initial().held.len() == 0,
        initial().next_pid == 1,
{
}

// ---- results ----

/// What is kept and shown of a call's output.
spec fn shown_output(out: Seq<char>) -> Seq<char> {
    if out.len() > 0 {
        out
    } else {
        "(no output)"@
    }
}

/// The tasks after one of them has come to a result: it has exited and dropped
/// its tail if it ran, and nothing else has changed.
spec fn exited(s: State, pid: u64) -> Map<u64, TaskView> {
    if runs(s, pid) {
        s.tasks.insert(
            pid,
            TaskView { state: TaskState::Exited, has_tail: false, ..s.tasks[pid] },
        )
    } else {
        s.tasks
    }
}

/// The result of a call gives one EXIT under the task's nonce. A call that
/// succeeded is announced with 200 and its output, or with 200 and that it is
/// deferred; a call that failed with 500 and the detail, deferred or not. The
/// output of the one is kept, nothing of the other.
pub proof fn a_call_exits_with_its_outcome(
    s: State,
    pid: u64,
    def: TaskDefView,
    h: Seq<char>,
    outcome: Result<Seq<char>, Seq<char>>,
)
    requires
        state_wf(s),
        s.tasks.contains_key(pid),
        s.tasks[pid].kind == TaskKindView::Mcp(def),
        s.tasks[pid].nonce == Some(h),
    ensures
        ({
            let r = TaskResultView { pid, kind: TaskResultKindView::McpComplete(outcome) };
            let head = "[hash="@ + h + "] "@;
            let message = match outcome {
                Ok(out) => if def.defer_output {
                    head + "200 (deferred)"@
                } else {
                    head + "200 "@ + "<"@ + h + ">"@ + (if out.len() > 0 {
                        out
                    } else {
                        "(no output)"@
                    }) + "</"@ + h + ">"@
                },
                Err(detail) => head + "500 "@ + "<"@ + h + ">"@ + detail + "</"@ + h + ">"@,
            };
            let exit = SignalView {
                pid,
                kind: SignalKind::Exit,
                message,
                payload: None,
                nonce: Some(h),
            };
            &&& produced(s, r) == seq![exit]
            &&& resulted(s, r) == (State {
                tasks: if s.tasks.contains_key(pid) && s.tasks[pid].state == TaskState::Running {
                    s.tasks.insert(
                        pid,
                        TaskView { state: TaskState::Exited, has_tail: false, ..s.tasks[pid] },
                    )
                } else {
                    s.tasks
                },
                window: last_part(s.window.push(exit), 20),
                reminders: s.reminders.remove(pid),
                outputs: match outcome {
                    Ok(out) => s.outputs.insert(pid, (if out.len() > 0 {
                        out
                    } else {
                        "(no output)"@
                    })),
                    Err(_) => s.outputs,
                },
                ..s
            })
        }),
{
    let r = TaskResultView { pid, kind: TaskResultKindView::McpComplete(outcome) };
    let head = "[hash="@ + h + "] "@;
    match outcome {
        Ok(out) => {
            assert(stamped(h, "200 "@ + tagged(h, shown_output(out))) =~= head + "200 "@ + "<"@ + h
                + ">"@ + shown_output(out) + "</"@ + h + ">"@);
        },
        Err(detail) => {
            assert(stamped(h, "500 "@ + tagged(h, detail)) =~= head + "500 "@ + "<"@ + h + ">"@
                + detail + "</"@ + h + ">"@);
        },
    }
    let signals = produced(s, r);
    assert(signals =~= seq![signals[0]]);
    lemma_window_after(s, signals);
    lemma_all_signalled(s, signals);
    assert(s.window + signals =~= s.window.push(signals[0]));
    assert(resulted(s, r).tasks =~= exited(s, pid));
}

/// The status in an EXIT tells success from failure: every success is announced
/// with 200 and every failure with 500, whatever the task's definition asks for.
pub proof fn the_status_tells_success_from_failure(
    s: State,
    pid: u64,
    def: TaskDefView,
    h: Seq<char>,
    outcome: Result<Seq<char>, Seq<char>>,
)
    requires
        state_wf(s),
        s.tasks.contains_key(pid),
        s.tasks[pid].kind == TaskKindView::Mcp(def),
        s.tasks[pid].nonce == Some(h),
    ensures
        ({
            let r = TaskResultView { pid, kind: TaskResultKindView::McpComplete(outcome) };
            let head = "[hash="@ + h + "] "@;
            &&& produced(s, r).len() == 1
            &&& outcome is Ok ==> (head + "200 "@).is_prefix_of(produced(s, r)[0].message)
            &&& outcome is Err ==> (head + "500 "@).is_prefix_of(produced(s, r)[0].message)
            &&& (head + "200 "@) != (head + "500 "@)
        }),
{
    a_call_exits_with_its_outcome(s, pid, def, h, outcome);
    let head = "[hash="@ + h + "] "@;
    reveal_strlit("200 ");
    reveal_strlit("500 ");
    reveal_strlit("200 (deferred)");
    let message = produced(
        s,
        TaskResultView { pid, kind: TaskResultKindView::McpComplete(outcome) },
    )[0].message;
    let good = head + "200 "@;
    let bad = head + "500 "@;
    match outcome {
        Ok(out) => {
            assert(message.subrange(0, good.len() as int) =~= good);
        },
        Err(detail) => {
            assert(message.subrange(0, bad.len() as int) =~= bad);
        },
    }
    assert(good[head.len() as int] == '2' && bad[head.len() as int] == '5');
}

/// The result of a call that belongs to no task, or to a task without a nonce, is
/// announced without one: with 200 and the output, or with 500 and the detail.
pub proof fn a_stray_result_is_announced_plainly(
    s: State,
    pid: u64,
    outcome: Result<Seq<char>, Seq<char>>,
)
    requires
        state_wf(s),
        s.tasks.contains_key(pid) ==> s.tasks[pid].kind is Timer && s.tasks[pid].state
            != TaskState::Killed,
    ensures
        ({
            let r = TaskResultView { pid, kind: TaskResultKindView::McpComplete(outcome) };
            let exit = SignalView {
                pid,
                kind: SignalKind::Exit,
                message: match outcome {
                    Ok(out) => "200 "@ + "<"@ + "raw"@ + ">"@ + (if out.len() > 0 {
                        out
                    } else {
                        "(no output)"@
                    }) + "</"@ + "raw"@
                        + ">"@,
                    Err(detail) => "500 "@ + detail,
                },
                payload: None,
                nonce: None,
            };
            &&& produced(s, r) == seq![exit]
            &&& resulted(s, r) == (State {
                tasks: if s.tasks.contains_key(pid) && s.tasks[pid].state == TaskState::Running {
                    s.tasks.insert(
                        pid,
                        TaskView { state: TaskState::Exited, has_tail: false, ..s.tasks[pid] },
                    )
                } else {
                    s.tasks
                },
                window: last_part(s.window.push(exit), 20),
                reminders: s.reminders.remove(pid),
                outputs: match outcome {
                    Ok(out) => s.outputs.insert(pid, (if out.len() > 0 {
                        out
                    } else {
                        "(no output)"@
                    })),
                    Err(_) => s.outputs,
                },
                ..s
            })
        }),
{
    let r = TaskResultView { pid, kind: TaskResultKindView::McpComplete(outcome) };
    match outcome {
        Ok(out) => {
            assert("200 "@ + tagged("raw"@, shown_output(out)) =~= "200 "@ + "<"@ + "raw"@ + ">"@
                + shown_output(out) + "</"@ + "raw"@ + ">"@);
        },
        Err(detail) => {},
    }
    let signals = produced(s, r);
    assert(signals =~= seq![signals[0]]);
    lemma_window_after(s, signals);
    lemma_all_signalled(s, signals);
    assert(s.window + signals =~= s.window.push(signals[0]));
    assert(resulted(s, r).tasks =~= exited(s, pid));
}

/// The structured detail of a timer's signal, member by member.
pub open spec fn timer_detail(
    pid: u64,
    word: Seq<char>,
    label: Seq<char>,
    metadata: Option<Json>,
    last: Seq<char>,
    secs: u64,
) -> Json {
    Json::Object(
        Map::empty().insert("pid"@, Json::Unsigned(pid)).insert("type"@, Json::Text(word)).insert(
            "label"@,
            Json::Text(label),
        ).insert(
            "metadata"@,
            match metadata {
                Some(value) => value,
                None => Json::Null,
            },
        ).insert(last, Json::Unsigned(secs)),
    )
}

proof fn lemma_five_fields(a: (Seq<char>, Json), b: (Seq<char>, Json), c: (Seq<char>, Json), d: (
    Seq<char>,
    Json,
), e: (Seq<char>, Json))
    ensures
        json::fields_of(seq![a, b, c, d, e]) == Map::<Seq<char>, Json>::empty().insert(
            a.0,
            a.1,
        ).insert(b.0, b.1).insert(c.0, c.1).insert(d.0, d.1).insert(e.0, e.1),
{
    let all = seq![a, b, c, d, e];
    assert(all.drop_last() =~= seq![a, b, c, d]);
    assert(seq![a, b, c, d].drop_last() =~= seq![a, b, c]);
    assert(seq![a, b, c].drop_last() =~= seq![a, b]);
    assert(seq![a, b].drop_last() =~= seq![a]);
    assert(seq![a].drop_last() =~= Seq::<(Seq<char>, Json)>::empty());
    reveal_with_fuel(json::fields_of, 6);
}

/// A timer that fires, and was not killed, gives a REMIND with its label, its
/// metadata and the seconds that have passed, and an EXIT, in this order; that of
/// a timer that was killed gives nothing and changes nothing.
pub proof fn a_timer_fires_unless_it_was_killed(
    s: State,
    pid: u64,
    label: Seq<char>,
    metadata: Option<Json>,
    elapsed: u64,
)
    requires
        state_wf(s),
    ensures
        ({
            let r = TaskResultView {
                pid,
                kind: TaskResultKindView::TimerExpired { label, metadata, elapsed },
            };
            let remind = SignalView {
                pid,
                kind: SignalKind::Remind,
                message: "timer \""@ + label + "\" — "@ + decimal(elapsed as nat) + "s elapsed"@,
                payload: Some(
                    timer_detail(pid, "REMIND"@, label, metadata, "elapsed"@, elapsed),
                ),
                nonce: None,
            };
            let exit = SignalView {
                pid,
                kind: SignalKind::Exit,
                message: "timer completed"@,
                payload: None,
                nonce: None,
            };
            if s.tasks.contains_key(pid) && s.tasks[pid].kind is Timer && s.tasks[pid].state
                == TaskState::Killed {
                produced(s, r).len() == 0 && resulted(s, r) == s
            } else {
                &&& produced(s, r) == seq![remind, exit]
                &&& resulted(s, r) == (State {
                    tasks: if s.tasks.contains_key(pid) && s.tasks[pid].state == TaskState::Running {
                    s.tasks.insert(
                        pid,
                        TaskView { state: TaskState::Exited, has_tail: false, ..s.tasks[pid] },
                    )
                } else {
                    s.tasks
                },
                    window: last_part(s.window.push(remind).push(exit), 20),
                    reminders: s.reminders.remove(pid),
                    ..s
                })
            }
        }),
{
    let r = TaskResultView {
        pid,
        kind: TaskResultKindView::TimerExpired { label, metadata, elapsed },
    };
    lemma_five_fields(
        ("pid"@, Json::Unsigned(pid)),
        ("type"@, Json::Text("REMIND"@)),
        ("label"@, Json::Text(label)),
        ("metadata"@, or_null(metadata)),
        ("elapsed"@, Json::Unsigned(elapsed)),
    );
    let signals = produced(s, r);
    if !prevented(s, pid) {
        assert(signals =~= seq![signals[0], signals[1]]);
        lemma_window_after(s, signals);
        lemma_all_signalled(s, signals);
        assert(s.window + signals =~= s.window.push(signals[0]).push(signals[1]));
        assert(resulted(s, r).tasks =~= exited(s, pid));
    }
}

/// Taking in results one list after the other is taking in both at once; of no
/// results, nothing; of one, what that one does.
pub proof fn results_are_taken_in_in_order(
    s: State,
    first: Seq<TaskResultView>,
    second: Seq<TaskResultView>,
    r: TaskResultView,
)
    ensures
        all_resulted(s, Seq::empty()) == s,
        all_resulted(s, seq![r]) == resulted(s, r),
        all_resulted(s, first + second) == all_resulted(all_resulted(s, first), second),
    decreases second.len(),
{
    assert(seq![r].drop_last() =~= Seq::<TaskResultView>::empty());
    reveal_with_fuel(all_resulted, 2);
    if second.len() == 0 {
        assert(first + second =~= first);
    } else {
        results_are_taken_in_in_order(s, first, second.drop_last(), r);
        assert((first + second).drop_last() =~= first + second.drop_last());
    }
}

// ---- draining ----

/// Whether held groups are what others were after signals of a session were added:
/// at the end of the session's group where it has one, else as a new group behind
/// the others; every other group as it was.
spec fn added(
    before: Seq<Held>,
    after: Seq<Held>,
    session: Option<Seq<char>>,
    signals: Seq<SignalView>,
) -> bool {
    &&& forall|i: int|
        0 <= i < before.len() && (#[trigger] before[i]).session == session ==> after
            == before.update(i, Held { session, signals: before[i].signals + signals })
    &&& (forall|i: int| 0 <= i < before.len() ==> (#[trigger] before[i]).session != session)
        ==> after == before.push(Held { session, signals })
}

proof fn lemma_added(held: Seq<Held>, session: Option<Seq<char>>, signals: Seq<SignalView>)
    requires
        forall|i: int, j: int|
            0 <= i < j < held.len() ==> (#[trigger] held[i]).session != (#[trigger] held[j]).session,
    ensures
        added(held, joined_held(held, session, signals), session, signals),
{
    let after = joined_held(held, session, signals);
    assert forall|i: int|
        0 <= i < held.len() && (#[trigger] held[i]).session == session implies after
        == held.update(i, Held { session, signals: held[i].signals + signals }) by {
        assert(group_at(held, session, i));
        let k = choose|k: int| group_at(held, session, k);
        assert(group_at(held, session, k));
        assert(held[k].session == held[i].session);
        assert(k == i);
    }
    if forall|i: int| 0 <= i < held.len() ==> (#[trigger] held[i]).session != session {
        assert forall|i: int| !group_at(held, session, i) by {
            if group_at(held, session, i) {
                assert(held[i].session == session);
            }
        }
    }
}

/// The `fire_wake` of a call's own definition is the sole merge control. Where it
/// is set, each signal of the call's result is emitted at once, on its own and in
/// order, whatever else the definition says and whatever else runs, and the held
/// groups stay as they were. Where it is not, nothing is emitted and the signals
/// are added to the end of the group of the call's session, or make a group of
/// their own behind the others.
pub proof fn fire_wake_is_the_sole_merge_control(
    d: Drain,
    r: TaskResultView,
    def: TaskDefView,
    session: Option<Seq<char>>,
    k: int,
)
    requires
        state_wf(d.state),
        d.state.tasks.contains_key(r.pid),
        d.state.tasks[r.pid].kind == TaskKindView::Mcp(def),
        match session {
            Some(id) => d.state.sessions.contains_key(r.pid) && d.state.sessions[r.pid] == id,
            None => !d.state.sessions.contains_key(r.pid),
        },
    ensures
        def.fire_wake ==> {
            &&& drained_result(d, r).out == d.out + Seq::new(
                produced(d.state, r).len(),
                |i: int| EmissionView::Single(produced(d.state, r)[i]),
            )
            &&& drained_result(d, r).state == resulted(d.state, r)
            &&& drained_result(d, r).state.held == d.state.held
        },
        !def.fire_wake ==> {
            &&& drained_result(d, r).out == d.out
            &&& drained_result(d, r).state == (State {
                held: drained_result(d, r).state.held,
                ..resulted(d.state, r)
            })
            &&& 0 <= k < d.state.held.len() && d.state.held[k].session == session
                ==> drained_result(d, r).state.held == d.state.held.update(
                k,
                Held { session, signals: d.state.held[k].signals + produced(d.state, r) },
            )
            &&& (forall|i: int|
                0 <= i < d.state.held.len() ==> (#[trigger] d.state.held[i]).session != session)
                ==> drained_result(d, r).state.held == d.state.held.push(
                Held { session, signals: produced(d.state, r) },
            )
        },
{
    let signals = produced(d.state, r);
    lemma_all_signalled(d.state, signals);
    lemma_added(d.state.held, session, signals);
    assert(belongs(d.state, r.pid, session));
    assert(added(
        d.state.held,
        joined_held(d.state.held, session, signals),
        session,
        signals,
    ));
}

/// The signals of a timer's result, and of one that belongs to no task, are
/// emitted at once, on their own and in order, and nothing is held; of a timer
/// that was killed there are none.
pub proof fn timers_and_strays_are_emitted_at_once(d: Drain, r: TaskResultView)
    requires
        state_wf(d.state),
        d.state.tasks.contains_key(r.pid) ==> d.state.tasks[r.pid].kind is Timer,
    ensures
        drained_result(d, r).out == d.out + Seq::new(
            produced(d.state, r).len(),
            |i: int| EmissionView::Single(produced(d.state, r)[i]),
        ),
        drained_result(d, r).state == resulted(d.state, r),
        drained_result(d, r).state.held == d.state.held,
        d.state.tasks.contains_key(r.pid) && d.state.tasks[r.pid].state == TaskState::Killed
            ==> drained_result(d, r) == d,
{
    let signals = produced(d.state, r);
    lemma_all_signalled(d.state, signals);
    if prevented(d.state, r.pid) {
        assert(d.out + singles(signals) =~= d.out);
    }
}

proof fn lemma_drained_result_prefix(d: Drain, r: TaskResultView)
    ensures
        drained_result(d, r).state == drained_result(
            Drain { state: d.state, out: Seq::empty() },
            r,
        ).state,
        drained_result(d, r).out == d.out + drained_result(
            Drain { state: d.state, out: Seq::empty() },
            r,
        ).out,
{
    let e = Drain { state: d.state, out: Seq::<EmissionView>::empty() };
    assert(drained_result(d, r).out =~= d.out + drained_result(e, r).out);
}

/// Draining results one list after the other is draining both at once, with what
/// they emit one after the other; no results emit nothing and change nothing, and
/// one does what that one does.
pub proof fn results_are_drained_in_order(
    s: State,
    first: Seq<TaskResultView>,
    second: Seq<TaskResultView>,
    r: TaskResultView,
)
    ensures
        drained_results(s, Seq::empty()) == (Drain { state: s, out: Seq::empty() }),
        drained_results(s, seq![r]) == drained_result(Drain { state: s, out: Seq::empty() }, r),
        drained_results(s, first + second).state == drained_results(
            drained_results(s, first).state,
            second,
        ).state,
        drained_results(s, first + second).out == drained_results(s, first).out + drained_results(
            drained_results(s, first).state,
            second,
        ).out,
    decreases second.len(),
{
    assert(seq![r].drop_last() =~= Seq::<TaskResultView>::empty());
    reveal_with_fuel(drained_results, 2);
    let x = drained_results(s, first);
    if second.len() == 0 {
        assert(first + second =~= first);
        assert(x.out + drained_results(x.state, second).out =~= x.out);
    } else {
        let front = second.drop_last();
        results_are_drained_in_order(s, first, front, r);
        assert((first + second).drop_last() =~= first + front);
        let all = drained_results(s, first + front);
        let part = drained_results(x.state, front);
        lemma_drained_result_prefix(all, second.last());
        lemma_drained_result_prefix(part, second.last());
        let e = drained_result(Drain { state: part.state, out: Seq::empty() }, second.last());
        assert(x.out + part.out + e.out =~= x.out + (part.out + e.out));
    }
}

/// A reminder of a task that runs is signalled and emitted on its own: how long
/// the task has been running, and, where a tail was read, the tail between the
/// tags of its nonce, which the signal carries. One of any other task is dropped
/// without a trace.
pub proof fn a_reminder_tells_how_long_a_task_runs(d: Drain, e: Reminding)
    requires
        state_wf(d.state),
    ensures
        ({
            let plain = "Running for "@ + decimal(e.elapsed as nat) + "s"@;
            let remind = SignalView {
                pid: e.pid,
                kind: SignalKind::Remind,
                message: match e.live {
                    Some((h, text)) => plain + " "@ + "[hash="@ + h + "] "@ + "<"@ + h + ">"@ + text
                        + "</"@ + h + ">"@,
                    None => plain,
                },
                payload: None,
                nonce: match e.live {
                    Some((h, _)) => Some(h),
                    None => None,
                },
            };
            if runs(d.state, e.pid) {
                &&& drained_reminder(d, e).out == d.out.push(EmissionView::Single(remind))
                &&& drained_reminder(d, e).state == (State {
                    window: last_part(d.state.window.push(remind), 20),
                    ..d.state
                })
            } else {
                drained_reminder(d, e) == d
            }
        }),
{
    let plain = "Running for "@ + decimal(e.elapsed as nat) + "s"@;
    match e.live {
        Some((h, text)) => {
            assert(remind_message(e.elapsed, e.live) =~= plain + " "@ + "[hash="@ + h + "] "@ + "<"@
                + h + ">"@ + text + "</"@ + h + ">"@);
        },
        None => {
            assert(remind_message(e.elapsed, e.live) =~= plain);
        },
    }
    lemma_last_part(
        d.state.window.push(remind_signal(e.pid, e.elapsed, e.live)),
        20,
    );
}

/// Draining reminders one list after the other is draining both at once; no
/// reminders change nothing, and one does what that one does.
pub proof fn reminders_are_drained_in_order(
    d: Drain,
    first: Seq<Reminding>,
    second: Seq<Reminding>,
    e: Reminding,
)
    ensures
        drained_reminders(d, Seq::empty()) == d,
        drained_reminders(d, seq![e]) == drained_reminder(d, e),
        drained_reminders(d, first + second) == drained_reminders(
            drained_reminders(d, first),
            second,
        ),
    decreases second.len(),
{
    assert(seq![e].drop_last() =~= Seq::<Reminding>::empty());
    reveal_with_fuel(drained_reminders, 2);
    if second.len() == 0 {
        assert(first + second =~= first);
    } else {
        reminders_are_drained_in_order(d, first, second.drop_last(), e);
        assert((first + second).drop_last() =~= first + second.drop_last());
    }
}

/// A drain takes in all results, next all reminders, and last emits the group of
/// every session none of whose tasks runs any more, each as one batch and in the
/// order in which the groups came to be. The groups of the other sessions stay
/// held, and nothing but the held groups changes by that.
pub proof fn a_drain_ends_with_what_has_settled(
    s: State,
    results: Seq<TaskResultView>,
    events: Seq<Reminding>,
)
    requires
        state_wf(s),
    ensures
        ({
            let before = drained_reminders(drained_results(s, results), events);
            let after = drained(s, results, events);
            let over = before.state.held.filter(|g: Held| !session_open(before.state, g.session));
            &&& after.out == before.out + Seq::new(
                over.len(),
                |i: int| EmissionView::Batch(over[i].signals),
            )
            &&& after.state == (State {
                held: before.state.held.filter(|g: Held| session_open(before.state, g.session)),
                ..before.state
            })
        }),
{
    let before = drained_reminders(drained_results(s, results), events);
    let t = before.state;
    lemma_drained_results_wf(s, results);
    lemma_drained_reminders_wf(drained_results(s, results), events);
    settled_groups_go_out_whole(before);
    assert forall|g: Held| session_running(t, g.session) == session_open(t, g.session) by {
        lemma_session_open(t, g.session);
    }
    let a = |g: Held| !session_running(t, g.session);
    let b = |g: Held| !session_open(t, g.session);
    let c = |g: Held| session_running(t, g.session);
    let e = |g: Held| session_open(t, g.session);
    assert(a =~= b);
    assert(c =~= e);
    let over = t.held.filter(b);
    assert(merged(over) =~= Seq::new(
        over.len(),
        |i: int| EmissionView::Batch(over[i].signals),
    ));
}

// ---- waiting and killing ----

/// The signals of a wait call: one for each of the PIDs, in order.
spec fn waitings(pids: Seq<u64>) -> Seq<SignalView> {
    pids.map_values(
        |pid: u64|
            SignalView {
                pid,
                kind: SignalKind::Wait,
                message: "LLM decided to continue waiting"@,
                payload: None,
                nonce: None,
            },
    )
}

/// A wait call acknowledges every running task that it names: where each PID is
/// that of a task, the acknowledged ones are the PIDs of running tasks, all of
/// them, in the order and as often as they are named. One WAIT for each enters the
/// window in that order, of which the last twenty signals stay, and nothing else
/// changes.
pub proof fn a_wait_acknowledges_every_running_task(s: State, pids: Seq<u64>)
    requires
        state_wf(s),
        forall|i: int| 0 <= i < pids.len() ==> s.tasks.contains_key(#[trigger] pids[i]),
    ensures
        ({
            let done = pids.filter(
                |pid: u64| s.tasks.contains_key(pid) && s.tasks[pid].state == TaskState::Running,
            );
            let all = s.window + Seq::new(
                done.len(),
                |i: int|
                    SignalView {
                        pid: done[i],
                        kind: SignalKind::Wait,
                        message: "LLM decided to continue waiting"@,
                        payload: None,
                        nonce: None,
                    },
            );
            &&& waits(s, pids).missing is None
            &&& waits(s, pids).done == done
            &&& waits(s, pids).state == (State {
                window: all.subrange(
                    if all.len() <= 20 {
                        0
                    } else {
                        all.len() - 20
                    },
                    all.len() as int,
                ),
                ..s
            })
        }),
{
    lemma_waits(s, pids);
    let done = waits(s, pids).done;
    assert(waitings(done) =~= Seq::new(
        done.len(),
        |i: int|
            SignalView {
                pid: done[i],
                kind: SignalKind::Wait,
                message: "LLM decided to continue waiting"@,
                payload: None,
                nonce: None,
            },
    ));
}

proof fn lemma_waits(s: State, pids: Seq<u64>)
    requires
        state_wf(s),
        forall|i: int| 0 <= i < pids.len() ==> s.tasks.contains_key(#[trigger] pids[i]),
    ensures
        waits(s, pids).missing is None,
        waits(s, pids).done == pids.filter(
            |pid: u64| s.tasks.contains_key(pid) && s.tasks[pid].state == TaskState::Running,
        ),
        waits(s, pids).state == (State {
            window: last_part(
                s.window + waitings(
                    pids.filter(
                        |pid: u64|
                            s.tasks.contains_key(pid) && s.tasks[pid].state == TaskState::Running,
                    ),
                ),
                20,
            ),
            ..s
        }),
    decreases pids.len(),
{
    let wanted = |pid: u64|
        s.tasks.contains_key(pid) && s.tasks[pid].state == TaskState::Running;
    reveal(Seq::filter);
    if pids.len() == 0 {
        assert(s.window + waitings(pids.filter(wanted)) =~= s.window);
        assert(last_part(s.window, 20) =~= s.window);
    } else {
        let front = pids.drop_last();
        let pid = pids.last();
        lemma_waits(s, front);
        let done = front.filter(wanted);
        assert(s.tasks.contains_key(pids[pids.len() - 1]));
        if wanted(pid) {
            let e = waitings(seq![pid])[0];
            assert(waitings(done.push(pid)) =~= waitings(done).push(e));
            assert((s.window + waitings(done)).push(e) =~= s.window + waitings(done.push(pid)));
            lemma_last_part(s.window + waitings(done), 20);
            lemma_last_part((s.window + waitings(done)).push(e), 20);
            lemma_last_part(waits(s, front).state.window.push(e), 20);
            window_keeps_the_latest(s.window + waitings(done), e, 20);
        }
    }
}

/// A wait call stops at the first PID that no task has: what it did before stands,
/// the PID is reported, and nothing that is named behind it counts.
pub proof fn a_wait_stops_at_an_unknown_pid(s: State, pids: Seq<u64>, k: int)
    requires
        state_wf(s),
        0 <= k < pids.len(),
        !s.tasks.contains_key(pids[k]),
        forall|i: int| 0 <= i < k ==> s.tasks.contains_key(#[trigger] pids[i]),
    ensures
        waits(s, pids).missing == Some(pids[k]),
        waits(s, pids).done == waits(s, pids.take(k)).done,
        waits(s, pids).state == waits(s, pids.take(k)).state,
    decreases pids.len(),
{
    let front = pids.drop_last();
    if k < front.len() {
        a_wait_stops_at_an_unknown_pid(s, front, k);
        assert(front.take(k) =~= pids.take(k));
    } else {
        assert(front =~= pids.take(k));
        a_wait_acknowledges_every_running_task(s, front);
    }
}

/// The KILL signals of tasks, in order.
spec fn killings(s: State, pids: Seq<u64>) -> Seq<SignalView> {
    pids.map_values(
        |pid: u64|
            SignalView {
                pid,
                kind: SignalKind::Kill,
                message: match s.tasks[pid].kind {
                    TaskKindView::Mcp(_) => "Terminated by LLM"@,
                    TaskKindView::Timer(def) => "timer \""@ + def.label + "\" cancelled"@,
                },
                payload: None,
                nonce: None,
            },
    )
}

/// Whether a task is in a later state what it was, but for being killed.
spec fn ended(s: State, after: State, pid: u64) -> bool {
    &&& after.tasks.contains_key(pid)
    &&& after.tasks[pid] == (TaskView {
        state: TaskState::Killed,
        has_tail: false,
        ..s.tasks[pid]
    })
    &&& !after.reminders.contains_key(pid)
}

/// Whether a task and its reminder are in a later state what they were.
pub open spec fn same(s: State, after: State, pid: u64) -> bool {
    &&& after.tasks.contains_key(pid) == s.tasks.contains_key(pid)
    &&& s.tasks.contains_key(pid) ==> after.tasks[pid] == s.tasks[pid]
    &&& after.reminders.contains_key(pid) == s.reminders.contains_key(pid)
    &&& s.reminders.contains_key(pid) ==> after.reminders[pid] == s.reminders[pid]
}

/// A kill call ends every running task that it names, once, and no other: where
/// each PID is that of a task, the ended ones are the running ones among them, in
/// the order in which they are first named. Each is killed and keeps the rest of
/// what it was but its tail and its reminder; one KILL for each enters the window
/// in that order; and nothing else changes.
pub proof fn a_kill_ends_every_running_task(s: State, pids: Seq<u64>)
    requires
        state_wf(s),
        forall|i: int| 0 <= i < pids.len() ==> s.tasks.contains_key(#[trigger] pids[i]),
    ensures
        kills(s, pids).missing is None,
        kills(s, pids).done.no_duplicates(),
        forall|pid: u64| #[trigger]
            kills(s, pids).done.contains(pid) <==> pids.contains(pid) && s.tasks.contains_key(pid)
                && s.tasks[pid].state == TaskState::Running,
        forall|i: int, j: int, b: int|
            0 <= i < j < kills(s, pids).done.len() && 0 <= b < pids.len() && #[trigger] pids[b]
                == #[trigger] kills(s, pids).done[j] ==> pids.take(b).contains(
                #[trigger] kills(s, pids).done[i],
            ),
        forall|pid: u64| #[trigger]
            kills(s, pids).done.contains(pid) ==> {
                &&& kills(s, pids).state.tasks.contains_key(pid)
                &&& kills(s, pids).state.tasks[pid] == (TaskView {
                    state: TaskState::Killed,
                    has_tail: false,
                    ..s.tasks[pid]
                })
                &&& !kills(s, pids).state.reminders.contains_key(pid)
            },
        forall|pid: u64|
            !kills(s, pids).done.contains(pid) ==> #[trigger] same(s, kills(s, pids).state, pid),
        kills(s, pids).state == (State {
            tasks: kills(s, pids).state.tasks,
            reminders: kills(s, pids).state.reminders,
            window: last_part(s.window + Seq::new(
                    kills(s, pids).done.len(),
                    |i: int|
                        SignalView {
                            pid: kills(s, pids).done[i],
                            kind: SignalKind::Kill,
                            message: match s.tasks[kills(s, pids).done[i]].kind {
                                TaskKindView::Mcp(_) => "Terminated by LLM"@,
                                TaskKindView::Timer(def) => "timer \""@ + def.label
                                    + "\" cancelled"@,
                            },
                            payload: None,
                            nonce: None,
                        },
                ), 20),
            ..s
        }),
{
    lemma_kills(s, pids);
    let done = kills(s, pids).done;
    assert forall|pid: u64| #[trigger] done.contains(pid) implies ended(
        s,
        kills(s, pids).state,
        pid,
    ) by {}
    assert(killings(s, done) =~= Seq::new(
        done.len(),
        |i: int|
            SignalView {
                pid: done[i],
                kind: SignalKind::Kill,
                message: match s.tasks[done[i]].kind {
                    TaskKindView::Mcp(_) => "Terminated by LLM"@,
                    TaskKindView::Timer(def) => "timer \""@ + def.label + "\" cancelled"@,
                },
                payload: None,
                nonce: None,
            },
    ));
}

proof fn lemma_kills(s: State, pids: Seq<u64>)
    requires
        state_wf(s),
        forall|i: int| 0 <= i < pids.len() ==> s.tasks.contains_key(#[trigger] pids[i]),
    ensures
        kills(s, pids).missing is None,
        kills(s, pids).done.no_duplicates(),
        forall|pid: u64| #[trigger]
            kills(s, pids).done.contains(pid) <==> pids.contains(pid) && s.tasks.contains_key(pid)
                && s.tasks[pid].state == TaskState::Running,
        forall|i: int, j: int, b: int|
            0 <= i < j < kills(s, pids).done.len() && 0 <= b < pids.len() && #[trigger] pids[b]
                == #[trigger] kills(s, pids).done[j] ==> pids.take(b).contains(
                #[trigger] kills(s, pids).done[i],
            ),
        forall|pid: u64| #[trigger]
            kills(s, pids).done.contains(pid) ==> ended(s, kills(s, pids).state, pid),
        forall|pid: u64|
            !kills(s, pids).done.contains(pid) ==> #[trigger] same(s, kills(s, pids).state, pid),
        kills(s, pids).state == (State {
            tasks: kills(s, pids).state.tasks,
            reminders: kills(s, pids).state.reminders,
            window: last_part(s.window + killings(s, kills(s, pids).done), 20),
            ..s
        }),
    decreases pids.len(),
{
    let after = kills(s, pids);
    if pids.len() == 0 {
        assert(s.window + killings(s, after.done) =~= s.window);
        assert(last_part(s.window, 20) =~= s.window);
    } else {
        let n = pids.len() - 1;
        let front = pids.drop_last();
        let pid = pids.last();
        let before = kills(s, front);
        lemma_kills(s, front);
        assert(pids[n] == pid && s.tasks.contains_key(pid));
        assert forall|p: u64| #[trigger] pids.contains(p) <==> front.contains(p) || p == pid by {
            if pids.contains(p) {
                let i = choose|i: int| 0 <= i < pids.len() && pids[i] == p;
                if i < n {
                    assert(front[i] == p);
                }
            }
            if front.contains(p) {
                let i = choose|i: int| 0 <= i < front.len() && front[i] == p;
                assert(pids[i] == p);
            }
        }
        assert(before.done.contains(pid) ==> ended(s, before.state, pid));
        assert(!before.done.contains(pid) ==> same(s, before.state, pid));
        if running(before.state, pid) {
            assert(!before.done.contains(pid));
            assert(!front.contains(pid));
            assert(after.done == before.done.push(pid));
            assert forall|p: u64| #[trigger]
                after.done.contains(p) <==> before.done.contains(p) || p == pid by {
                if after.done.contains(p) {
                    let i = choose|i: int| 0 <= i < after.done.len() && after.done[i] == p;
                    if i < before.done.len() {
                        assert(before.done[i] == p);
                    }
                }
                if before.done.contains(p) {
                    let i = choose|i: int| 0 <= i < before.done.len() && before.done[i] == p;
                    assert(after.done[i] == p);
                }
                assert(after.done[before.done.len() as int] == pid);
            }
            assert forall|p: u64| #[trigger] after.done.contains(p) implies ended(
                s,
                after.state,
                p,
            ) by {
                if before.done.contains(p) {
                    assert(ended(s, before.state, p));
                }
            }
            assert forall|p: u64| !after.done.contains(p) implies #[trigger] same(
                s,
                after.state,
                p,
            ) by {
                assert(!before.done.contains(p));
                assert(same(s, before.state, p));
            }
            let e = killings(s, seq![pid])[0];
            assert(killings(s, after.done) =~= killings(s, before.done).push(e));
            let all = s.window + killings(s, before.done);
            assert(all.push(e) =~= s.window + killings(s, after.done));
            lemma_last_part(all, 20);
            lemma_last_part(all.push(e), 20);
            lemma_last_part(before.state.window.push(e), 20);
            window_keeps_the_latest(all, e, 20);
        } else {
            assert(after == before);
        }
        assert forall|i: int, j: int, b: int|
            0 <= i < j < after.done.len() && 0 <= b < pids.len() && #[trigger] pids[b]
                == #[trigger] after.done[j] implies pids.take(b).contains(
            #[trigger] after.done[i],
        ) by {
            assert(before.done.contains(after.done[i])) by {
                assert(before.done[i] == after.done[i]);
            }
            if b < n {
                assert(front[b] == pids[b]);
                if j < before.done.len() {
                    assert(before.done[j] == after.done[j]);
                    assert(front.take(b).contains(before.done[i]));
                    assert(front.take(b) =~= pids.take(b));
                } else {
                    assert(front.contains(pid));
                }
            } else {
                assert(pids.take(n as int) =~= front);
                assert(front.contains(after.done[i]));
            }
        }
    }
}

/// A kill call stops at the first PID that no task has: what it did before stands,
/// the PID is reported, and nothing that is named behind it counts.
pub proof fn a_kill_stops_at_an_unknown_pid(s: State, pids: Seq<u64>, k: int)
    requires
        state_wf(s),
        0 <= k < pids.len(),
        !s.tasks.contains_key(pids[k]),
        forall|i: int| 0 <= i < k ==> s.tasks.contains_key(#[trigger] pids[i]),
    ensures
        kills(s, pids).missing == Some(pids[k]),
        kills(s, pids).done == kills(s, pids.take(k)).done,
        kills(s, pids).state == kills(s, pids.take(k)).state,
    decreases pids.len(),
{
    let front = pids.drop_last();
    if k < front.len() {
        a_kill_stops_at_an_unknown_pid(s, front, k);
        assert(front.take(k) =~= pids.take(k));
    } else {
        assert(front =~= pids.take(k));
        lemma_kills(s, front);
        let pid = pids[k];
        if kills(s, front).done.contains(pid) {
            assert(s.tasks.contains_key(pid));
        }
        assert(same(s, kills(s, front).state, pid));
    }
}

/// A shutdown kills every running task, which keeps the rest of what it was but
/// its tail, leaves the others as they are, disarms every reminder, and signals
/// nothing.
pub proof fn a_shutdown_kills_quietly(s: State)
    ensures
        shut_down(s).tasks.dom() == s.tasks.dom(),
        forall|pid: u64| #[trigger]
            s.tasks.contains_key(pid) ==> shut_down(s).tasks[pid] == (if s.tasks[pid].state
                == TaskState::Running {
                TaskView { state: TaskState::Killed, has_tail: false, ..s.tasks[pid] }
            } else {
                s.tasks[pid]
            }),
        shut_down(s) == (State {
            tasks: shut_down(s).tasks,
            reminders: Map::empty(),
            ..s
        }),
{
}

// ---- dispatching ----

/// The seconds of a reminder that dispatch arms unasked: the manifest's
/// suggestion for a blocking tool or half a minute, where the caller said nothing.
pub open spec fn unasked_secs(p: PreparedView) -> Option<u64> {
    match (p.def.remind_after, p.tool_meta) {
        (None, Some(meta)) => if meta.blocking {
            match meta.suggested_remind_after {
                Some(secs) => Some(secs),
                None => Some(30),
            }
        } else {
            None
        },
        _ => None,
    }
}

/// The seconds between a task's reminders; none at zero.
pub open spec fn armed_secs(p: PreparedView) -> u64 {
    match p.def.remind_after {
        Some(secs) => secs,
        None => match unasked_secs(p) {
            Some(secs) => secs,
            None => 0,
        },
    }
}

/// The INIT signal of a call: server, tool and parameters, and the reminder that
/// dispatch arms unasked.
pub open spec fn opening(pid: u64, p: PreparedView) -> SignalView {
    SignalView {
        pid,
        kind: SignalKind::Init,
        message: p.def.server + "/"@ + p.def.tool + (if p.def.params == Json::Null || p.def.params
            == Json::Object(Map::empty()) {
            Seq::empty()
        } else {
            " "@ + json::json_text(p.def.params)
        }) + (match unasked_secs(p) {
            Some(secs) => " "@ + "[auto-remind "@ + decimal(secs as nat) + (
            if p.tool_meta->0.suggested_remind_after is Some {
                "s — tool declares blocking, interval suggested by its manifest]"@
            } else {
                "s — tool declares blocking, manifest suggested none, dispatch default]"@
            }),
            None => Seq::empty(),
        }),
        payload: None,
        nonce: None,
    }
}

/// Dispatch arms a reminder unasked exactly for a blocking tool whose caller said
/// nothing: at the interval that the manifest suggests, or at half a minute. A
/// caller's own interval stands, and zero is none.
pub proof fn a_reminder_is_armed_unasked_for_blocking_tools(p: PreparedView)
    ensures
        p.def.remind_after matches Some(secs) ==> unasked_secs(p) is None && armed_secs(p) == secs,
        p.def.remind_after is None && (p.tool_meta matches Some(meta) ==> !meta.blocking)
            ==> unasked_secs(p) is None && armed_secs(p) == 0,
        p.def.remind_after is None && (p.tool_meta matches Some(meta) && meta.blocking && (
        meta.suggested_remind_after is Some)) ==> unasked_secs(p)
            == p.tool_meta->0.suggested_remind_after && Some(armed_secs(p))
            == p.tool_meta->0.suggested_remind_after,
        p.def.remind_after is None && (p.tool_meta matches Some(meta) && meta.blocking && (
        meta.suggested_remind_after is None)) ==> unasked_secs(p) == Some(30u64) && armed_secs(p)
            == 30,
{
}

/// Whether a call of a batch is under way in a state: its task runs as it was
/// asked for, belongs to the session and has the reminder that is due.
pub open spec fn under_way(
    after: State,
    pid: u64,
    p: PreparedView,
    session: Option<Seq<char>>,
    nonce: Seq<char>,
    now: u64,
) -> bool {
    &&& after.tasks.contains_key(pid)
    &&& after.tasks[pid] == (TaskView {
        pid,
        kind: TaskKindView::Mcp(p.def),
        state: TaskState::Running,
        started_at: now,
        nonce: Some(nonce),
        has_tail: true,
        auto_remind_after: unasked_secs(p),
    })
    &&& belongs(after, pid, session)
    &&& after.reminders.contains_key(pid) == (armed_secs(p) > 0)
    &&& armed_secs(p) > 0 ==> after.reminders[pid] == (ReminderTimer {
        pid,
        interval_secs: armed_secs(p),
        elapsed_secs: 0,
    })
}

/// An INIT tells what was asked for, and, where dispatch arms a reminder unasked,
/// behind it the interval and where it comes from.
pub proof fn an_opening_tells_what_is_under_way(pid: u64, p: PreparedView)
    ensures
        ({
            let asked = if p.def.params == Json::Null || p.def.params == Json::Object(
                Map::empty(),
            ) {
                p.def.server + "/"@ + p.def.tool
            } else {
                p.def.server + "/"@ + p.def.tool + " "@ + json::json_text(p.def.params)
            };
            let message = opening(pid, p).message;
            let unasked = p.def.remind_after is None && p.tool_meta is Some
                && p.tool_meta->0.blocking;
            &&& opening(pid, p).pid == pid
            &&& opening(pid, p).kind == SignalKind::Init
            &&& opening(pid, p).payload is None
            &&& opening(pid, p).nonce is None
            &&& !unasked ==> message == asked
            &&& unasked ==> match p.tool_meta->0.suggested_remind_after {
                Some(secs) => message == asked + " [auto-remind "@ + decimal(secs as nat)
                    + "s — tool declares blocking, interval suggested by its manifest]"@,
                None => message == asked + " [auto-remind "@ + decimal(30)
                    + "s — tool declares blocking, manifest suggested none, dispatch default]"@,
            }
        }),
{
    let asked = if p.def.params == Json::Null || p.def.params == Json::Object(Map::empty()) {
        p.def.server + "/"@ + p.def.tool
    } else {
        p.def.server + "/"@ + p.def.tool + " "@ + json::json_text(p.def.params)
    };
    let message = opening(pid, p).message;
    reveal_strlit(" ");
    reveal_strlit("[auto-remind ");
    reveal_strlit(" [auto-remind ");
    assert(" "@ + "[auto-remind "@ =~= " [auto-remind "@);
    match unasked_secs(p) {
        Some(secs) => {
            let rest = if p.tool_meta->0.suggested_remind_after is Some {
                "s — tool declares blocking, interval suggested by its manifest]"@
            } else {
                "s — tool declares blocking, manifest suggested none, dispatch default]"@
            };
            assert(message =~= asked + (" "@ + "[auto-remind "@) + decimal(secs as nat) + rest);
        },
        None => {
            assert(message =~= asked);
        },
    }
}

proof fn lemma_opening(pid: u64, p: PreparedView)
    ensures
        init_of(pid, p) == opening(pid, p),
{
    assert(init_of(pid, p).message =~= opening(pid, p).message);
}

/// A dispatch call puts each call of its batch under way, the `i`-th under the
/// `i`-th PID from the next one and with the `i`-th nonce; signals one INIT for
/// each in that order; replaces the strategy and the current session by those that
/// it names; and changes nothing else.
pub proof fn a_dispatch_puts_every_call_under_way(
    s: State,
    batch: Seq<PreparedView>,
    strategy: Option<Seq<char>>,
    session: Option<Seq<char>>,
    nonces: Seq<Seq<char>>,
    now: u64,
)
    requires
        state_wf(s),
        nonces.len() == batch.len(),
        s.next_pid + batch.len() <= u64::MAX,
    ensures
        dispatched(s, batch, strategy, session, nonces, now).next_pid == s.next_pid + batch.len(),
        forall|i: int|
            0 <= i < batch.len() ==> under_way(
                dispatched(s, batch, strategy, session, nonces, now),
                (s.next_pid + i) as u64,
                #[trigger] batch[i],
                session,
                nonces[i],
                now,
            ),
        forall|pid: u64|
            pid < s.next_pid || pid >= s.next_pid + batch.len() ==> #[trigger] same(
                s,
                dispatched(s, batch, strategy, session, nonces, now),
                pid,
            ),
        forall|pid: u64, any: Option<Seq<char>>|
            pid < s.next_pid || pid >= s.next_pid + batch.len() ==> #[trigger] belongs(
                dispatched(s, batch, strategy, session, nonces, now),
                pid,
                any,
            ) == belongs(s, pid, any),
        dispatched(s, batch, strategy, session, nonces, now).window == last_part(
            s.window + Seq::new(
                batch.len(),
                |i: int| opening((s.next_pid + i) as u64, batch[i]),
            ),
            20,
        ),
        dispatched(s, batch, strategy, session, nonces, now).outputs == s.outputs,
        dispatched(s, batch, strategy, session, nonces, now).held == s.held,
        dispatched(s, batch, strategy, session, nonces, now).strategy == (match strategy {
            Some(text) => Some(text),
            None => s.strategy,
        }),
        dispatched(s, batch, strategy, session, nonces, now).current_session == (match session {
            Some(id) => Some(id),
            None => s.current_session,
        }),
{
    let g = goal_set(s, strategy, session);
    let after = dispatched(s, batch, strategy, session, nonces, now);
    lemma_launch_tracks(g, batch, session, nonces, now);
    assert forall|i: int| 0 <= i < batch.len() implies under_way(
        after,
        (s.next_pid + i) as u64,
        #[trigger] batch[i],
        session,
        nonces[i],
        now,
    ) by {
        assert(tracked_at(g, after, batch, session, nonces, now, i));
    }
    assert forall|pid: u64|
        pid < s.next_pid || pid >= s.next_pid + batch.len() implies #[trigger] same(
        s,
        after,
        pid,
    ) by {
        if pid < s.next_pid {
            assert(untouched(g, after, pid));
        } else {
            assert(unused(after, pid));
            assert(!s.tasks.contains_key(pid));
        }
    }
    assert forall|pid: u64, any: Option<Seq<char>>|
        pid < s.next_pid || pid >= s.next_pid + batch.len() implies #[trigger] belongs(
        after,
        pid,
        any,
    ) == belongs(s, pid, any) by {
        if pid < s.next_pid {
            assert(untouched(g, after, pid));
        } else {
            assert(unused(after, pid));
            assert(!s.tasks.contains_key(pid));
        }
    }
    let openings = Seq::new(batch.len(), |i: int| opening((s.next_pid + i) as u64, batch[i]));
    assert forall|i: int| 0 <= i < batch.len() implies #[trigger] inits(s.next_pid, batch)[i]
        == openings[i] by {
        lemma_opening((s.next_pid + i) as u64, batch[i]);
    }
    assert(inits(s.next_pid, batch) =~= openings);
    lemma_last_part(s.window + openings, 20);
}

/// The PIDs of a batch are the next ones, one for each call, in the batch's order.
pub proof fn pids_are_handed_out_in_order(first: u64, count: nat)
    requires
        first + count <= u64::MAX,
    ensures
        pids_from(first, count).len() == count,
        forall|i: int| 0 <= i < count ==> #[trigger] pids_from(first, count)[i] == first + i,
{
}

/// A timer runs under the next PID, as it was asked for and with neither nonce,
/// tail nor reminder; its INIT names it and carries its detail; and nothing else
/// changes.
pub proof fn a_timer_is_started_as_asked(s: State, def: TimerDefView, now: u64)
    requires
        state_wf(s),
        s.next_pid < u64::MAX,
    ensures
        timer_launched(s, def, now) == (State {
            tasks: s.tasks.insert(
                s.next_pid,
                TaskView {
                    pid: s.next_pid,
                    kind: TaskKindView::Timer(def),
                    state: TaskState::Running,
                    started_at: now,
                    nonce: None,
                    has_tail: false,
                    auto_remind_after: None,
                },
            ),
            window: last_part(
                s.window.push(
                    SignalView {
                        pid: s.next_pid,
                        kind: SignalKind::Init,
                        message: "timer \""@ + def.label + "\" ("@ + decimal(def.duration as nat)
                            + "s)"@,
                        payload: Some(
                            timer_detail(
                                s.next_pid,
                                "INIT"@,
                                def.label,
                                def.metadata,
                                "duration"@,
                                def.duration,
                            ),
                        ),
                        nonce: None,
                    },
                ),
                20,
            ),
            next_pid: (s.next_pid + 1) as u64,
            ..s
        }),
{
    let pid = s.next_pid;
    lemma_five_fields(
        ("pid"@, Json::Unsigned(pid)),
        ("type"@, Json::Text("INIT"@)),
        ("label"@, Json::Text(def.label)),
        ("metadata"@, or_null(def.metadata)),
        ("duration"@, Json::Unsigned(def.duration)),
    );
    let t = timer_launched(s, def, now);
    let e = SignalView {
        pid,
        kind: SignalKind::Init,
        message: "timer \""@ + def.label + "\" ("@ + decimal(def.duration as nat) + "s)"@,
        payload: Some(
            timer_detail(pid, "INIT"@, def.label, def.metadata, "duration"@, def.duration),
        ),
        nonce: None,
    };
    lemma_last_part(s.window.push(e), 20);
}

/// A call runs in a dmcp session exactly where its definition is stateful and its
/// task belongs to a session, and in that one.
pub proof fn a_stateful_call_runs_in_its_session(s: State, pid: u64, def: TaskDefView)
    requires
        s.tasks.contains_key(pid),
        s.tasks[pid].kind == TaskKindView::Mcp(def),
    ensures
        !def.stateful ==> call_session(s, pid) is None,
        def.stateful ==> belongs(s, pid, call_session(s, pid)),
{
}

/// The firing of a reminder that is armed, and whose seconds can still be counted,
/// counts one interval more; any other changes nothing. Nothing else changes
/// either way.
pub proof fn a_firing_counts_one_interval(s: State, pid: u64)
    ensures
        s.reminders.contains_key(pid) && s.reminders[pid].elapsed_secs
            + s.reminders[pid].interval_secs <= u64::MAX ==> reminder_fired(s, pid) == (State {
            reminders: s.reminders.insert(
                pid,
                ReminderTimer {
                    pid: s.reminders[pid].pid,
                    interval_secs: s.reminders[pid].interval_secs,
                    elapsed_secs: (s.reminders[pid].elapsed_secs
                        + s.reminders[pid].interval_secs) as u64,
                },
            ),
            ..s
        }),
        !s.reminders.contains_key(pid) || s.reminders[pid].elapsed_secs
            + s.reminders[pid].interval_secs > u64::MAX ==> reminder_fired(s, pid) == s,
{
}

// ---- wakeups ----

/// The tasks of a session are those that were dispatched in it, and no others.
pub proof fn a_session_has_the_tasks_that_were_dispatched_in_it(
    s: State,
    session: Seq<char>,
    pid: u64,
)
    ensures
        session_pids_of(s, session).contains(pid) <==> s.sessions.contains_key(pid)
            && s.sessions[pid] == session,
{
}

/// With a session current, a wakeup of `count` shows exactly the last `count` of
/// the signals of that session's tasks in the window, or all of them where there
/// are fewer, each on its line and in the window's order. Without one it shows the
/// last of the whole window in the same way.
pub proof fn a_wakeup_shows_all_that_it_may(s: State, count: nat)
    ensures
        s.current_session matches Some(session) ==> ({
            let mine = s.window.filter(
                |e: SignalView| s.sessions.contains_key(e.pid) && s.sessions[e.pid] == session,
            );
            window_text(s, count) == lines_of(
                mine.subrange(
                    if mine.len() <= count {
                        0
                    } else {
                        mine.len() - count
                    },
                    mine.len() as int,
                ),
            )
        }),
        s.current_session is None ==> window_text(s, count) == lines_of(
            s.window.subrange(
                if s.window.len() <= count {
                    0
                } else {
                    s.window.len() - count
                },
                s.window.len() as int,
            ),
        ),
{
    match s.current_session {
        Some(session) => {
            let wanted = |e: SignalView|
                s.sessions.contains_key(e.pid) && s.sessions[e.pid] == session;
            let pids = session_pids_of(s, session);
            assert((|e: SignalView| pids.contains(e.pid)) =~= wanted);
            lemma_last_part(s.window.filter(wanted), count);
        },
        None => {
            lemma_last_part(s.window, count);
        },
    }
}

/// With a session current, every signal of that session's tasks that is among the
/// last `count` of the window is among those that a wakeup of `count` shows.
pub proof fn a_wakeup_leaves_no_signal_out(s: State, session: Seq<char>, count: nat, i: int)
    requires
        s.current_session == Some(session),
        0 <= i < s.window.len(),
        s.sessions.contains_key(s.window[i].pid),
        s.sessions[s.window[i].pid] == session,
        s.window.len() - i <= count,
    ensures
        exists|shown: Seq<SignalView>| #[trigger]
            lines_of(shown) == window_text(s, count) && shown.contains(s.window[i]),
{
    let wanted = |e: SignalView| s.sessions.contains_key(e.pid) && s.sessions[e.pid] == session;
    let mine = s.window.filter(wanted);
    a_wakeup_shows_all_that_it_may(s, count);
    let shown = last_part(mine, count);
    let before = s.window.take(i);
    let behind = s.window.skip(i);
    assert(s.window =~= before + behind);
    Seq::filter_distributes_over_add(before, behind, wanted);
    behind.lemma_filter_len(wanted);
    let tail = behind.filter(wanted);
    assert(behind[0] == s.window[i]);
    behind.lemma_filter_contains(wanted, 0);
    let k = choose|k: int| 0 <= k < tail.len() && tail[k] == s.window[i];
    let at = before.filter(wanted).len() + k;
    assert(mine[at] == s.window[i]);
    assert(mine.len() - at <= count);
    assert(shown[at - (mine.len() - shown.len())] == s.window[i]);
}

/// What the LLM is shown when it is woken begins with the strategy, where there is
/// one, and ends with the window.
pub proof fn a_wakeup_leads_with_the_strategy(s: State, count: nat)
    ensures
        s.strategy matches Some(strategy) ==> context_of(s, count) == "Current strategy: "@
            + strategy + "\n\n"@ + window_text(s, count),
        s.strategy is None ==> context_of(s, count) == window_text(s, count),
{
}

/// A wait that begins goes on exactly while something runs, and wakes with the
/// latest signals where nothing does; it changes nothing.
pub proof fn a_wait_begins_only_where_something_runs(s: State)
    ensures
        wait_step(s, WaitEventView::Started).0 == s,
        (exists|pid: u64| runs(s, pid)) ==> wait_step(s, WaitEventView::Started).1
            == WaitOutcome::Continue,
        !(exists|pid: u64| runs(s, pid)) ==> wait_step(s, WaitEventView::Started).1
            == WaitOutcome::Wake(context_of(s, 20)),
{
    lemma_runs(s);
}

/// A result during a wait is taken in. It wakes the caller exactly where nothing
/// runs any more, or where it is that of a call whose definition has `fire_wake`
/// set.
pub proof fn a_result_wakes_a_waiter(s: State, r: TaskResultView)
    ensures
        ({
            let after = resulted(s, r);
            let wakes = !(exists|pid: u64| runs(after, pid)) || (s.tasks.contains_key(r.pid) && (
            s.tasks[r.pid].kind matches TaskKindView::Mcp(def) && def.fire_wake == true));
            &&& wait_step(s, WaitEventView::Result(r)).0 == after
            &&& wakes ==> wait_step(s, WaitEventView::Result(r)).1 == WaitOutcome::Wake(
                context_of(after, 20),
            )
            &&& !wakes ==> wait_step(s, WaitEventView::Result(r)).1 == WaitOutcome::Continue
        }),
{
    lemma_runs(resulted(s, r));
}

/// A reminder during a wait is signalled as a drain would signal it. It wakes the
/// caller exactly where its task runs. A wait that can be told of nothing more
/// fails and changes nothing.
pub proof fn a_reminder_wakes_a_waiter(s: State, e: Reminding)
    ensures
        ({
            let d = Drain { state: s, out: Seq::empty() };
            let after = drained_reminder(d, e).state;
            &&& wait_step(s, WaitEventView::Reminder(e)).0 == after
            &&& runs(s, e.pid) ==> wait_step(s, WaitEventView::Reminder(e)).1
                == WaitOutcome::Wake(context_of(after, 20))
            &&& !runs(s, e.pid) ==> wait_step(s, WaitEventView::Reminder(e)).1
                == WaitOutcome::Continue
        }),
        wait_step(s, WaitEventView::Closed) == (s, WaitOutcome::Closed),
{
}

// ---- what the questions about a state mean ----

/// A task runs where it is known and in the state Running; something runs where
/// some task does, and something of a session where some task of it does. A task
/// has the nonce that it was given and the session that it was dispatched in.
pub proof fn questions_are_answered_of_the_tasks(s: State, pid: u64, session: Option<Seq<char>>)
    ensures
        running(s, pid) <==> s.tasks.contains_key(pid) && s.tasks[pid].state == TaskState::Running,
        any_running(s) <==> exists|p: u64| #[trigger]
            s.tasks.contains_key(p) && s.tasks[p].state == TaskState::Running,
        session_running(s, session) <==> session_open(s, session),
        session_of(s, pid) == session <==> belongs(s, pid, session),
        s.tasks.contains_key(pid) ==> nonce_of(s, pid) == s.tasks[pid].nonce,
        !s.tasks.contains_key(pid) ==> nonce_of(s, pid) is None,
{
    lemma_session_open(s, session);
    if any_running(s) {
        let p = choose|p: u64| running(s, p);
        assert(s.tasks.contains_key(p) && s.tasks[p].state == TaskState::Running);
    }
    if exists|p: u64| #[trigger]
        s.tasks.contains_key(p) && s.tasks[p].state == TaskState::Running {
        let p = choose|p: u64| #[trigger]
            s.tasks.contains_key(p) && s.tasks[p].state == TaskState::Running;
        assert(running(s, p));
    }
}

/// Whatever comes of a timer after it was killed, nothing is announced and nothing
/// changes.
pub proof fn a_killed_timer_is_never_heard_of(s: State, r: TaskResultView)
    requires
        s.tasks.contains_key(r.pid),
        s.tasks[r.pid].kind is Timer,
        s.tasks[r.pid].state == TaskState::Killed,
    ensures
        produced(s, r).len() == 0,
        resulted(s, r) == s,
{
}

// ---- live tails ----

/// A live tail that was seen is exactly the last `n` characters of what the task's
/// own ring held, and none was seen only where the ring held nothing or the task is
/// not a running call.
pub proof fn a_live_tail_is_what_the_ring_held(
    o: Orchestrator,
    pid: u64,
    n: nat,
    live: Option<(Seq<char>, Seq<char>)>,
)
    requires
        o.live_seen(pid, n, live),
    ensures
        !(runs(o@, pid) && o@.tasks[pid].kind is Mcp) ==> live is None,
        runs(o@, pid) && o@.tasks[pid].kind is Mcp && live is None ==> exists|ring: Seq<u8>|
            #[trigger] o.tail_of(pid)->0.held(ring) && ring.len() == 0,
        live matches Some((_, text)) ==> exists|ring: Seq<u8>| #[trigger]
            o.tail_of(pid)->0.held(ring) && ring.len() > 0 && text == last_part(
                utf8_lossy(ring),
                n,
            ) && (valid_utf8(ring) ==> text == last_part(decode_utf8(ring), n)),
{
    if running(o@, pid) && o@.tasks[pid].kind is Mcp {
        let ring = choose|ring: Seq<u8>| #[trigger]
            o.tail_of(pid)->0.held(ring) && match live_part(ring, n) {
                Some(text) => live matches Some((_, shown)) && shown == text && shows_exactly(
                    ring,
                    n,
                    shown,
                ),
                None => live is None,
            };
        assert(o.tail_of(pid)->0.held(ring));
        assert(last_of(utf8_lossy(ring), n) =~= last_part(utf8_lossy(ring), n));
        assert(last_of(decode_utf8(ring), n) =~= last_part(decode_utf8(ring), n));
    }
}

/// A live tail is that of a running call, and goes out under a nonce that is not
/// the call's own.
pub proof fn a_live_tail_has_a_nonce_of_its_own(
    s: State,
    pid: u64,
    n: nat,
    h: Seq<char>,
    text: Seq<char>,
)
    requires
        live_read(s, pid, n, Some((h, text))),
    ensures
        runs(s, pid),
        s.tasks[pid].kind is Mcp,
        is_nonce(h),
        s.tasks[pid].nonce != Some(h),
        text.len() <= n,
{
}

/// The answer to a request for a live tail of a running call is the last `n`
/// characters of its ring under a nonce that is not its own, nothing for an empty
/// ring, and an error only where the random source gave no fresh nonce. For any
/// other task it is nothing.
pub proof fn a_request_for_a_live_tail_is_answered(
    s: State,
    pid: u64,
    n: nat,
    ring: Seq<u8>,
    r: Result<Option<LiveTail>, DispatchError>,
)
    requires
        live_answer(s, pid, n, ring, r),
    ensures
        !(runs(s, pid) && s.tasks[pid].kind is Mcp) || ring.len() == 0 ==> r is Ok && r->Ok_0
            is None,
        runs(s, pid) && s.tasks[pid].kind is Mcp && ring.len() > 0 ==> match r {
            Ok(Some(live)) => {
                &&& live.text@ == last_part(utf8_lossy(ring), n)
                &&& valid_utf8(ring) ==> live.text@ == last_part(decode_utf8(ring), n)
                &&& is_nonce(live.nonce@)
                &&& s.tasks[pid].nonce != Some(live.nonce@)
            },
            Ok(None) => false,
            Err(e) => e is EntropyUnavailable && (draw_failed() || (s.tasks[pid].nonce matches Some(
                own,
            ) && drawn_nonce(own))),
        },
{
    assert(last_of(utf8_lossy(ring), n) =~= last_part(utf8_lossy(ring), n));
    assert(last_of(decode_utf8(ring), n) =~= last_part(decode_utf8(ring), n));
}

/// Reading a live tail fails only for a running call whose ring held something,
/// where the random source gave no nonce or gave the call's own.
pub proof fn a_live_tail_fails_only_for_want_of_a_nonce(o: Orchestrator, pid: u64)
    requires
        o.live_failed(pid),
    ensures
        runs(o@, pid),
        o@.tasks[pid].kind is Mcp,
        draw_failed() || (o@.tasks[pid].nonce matches Some(own) && drawn_nonce(own)),
        exists|ring: Seq<u8>| #[trigger] o.tail_of(pid)->0.held(ring) && ring.len() > 0,
{
}

/// A task that runs before and after a step keeps its ring.
pub proof fn running_tasks_keep_their_rings(before: Orchestrator, after: Orchestrator, pid: u64)
    requires
        after.keeps_tails(before),
        runs(before@, pid),
        runs(after@, pid),
    ensures
        after.tail_of(pid) == before.tail_of(pid),
{
    assert(running(before@, pid) && running(after@, pid));
}

// ---- views ----

/// The views of results, reminders, emissions and events show each of their
/// parts.
pub proof fn events_are_seen_whole(r: TaskResult, e: Reminder, single: SignalEntry, batch: Vec<
    SignalEntry,
>, held: HeldGroup)
    ensures
        r@.pid == r.pid,
        r.kind matches TaskResultKind::McpComplete(Ok(out)) ==> r@.kind
            == TaskResultKindView::McpComplete(Ok(out@)),
        r.kind matches TaskResultKind::McpComplete(Err(detail)) ==> r@.kind
            == TaskResultKindView::McpComplete(Err(detail@)),
        r.kind matches TaskResultKind::TimerExpired { label, metadata, elapsed } ==> r@.kind == (
        TaskResultKindView::TimerExpired {
            label: label@,
            metadata: match metadata {
                Some(value) => Some(json::json_of(value)),
                None => None,
            },
            elapsed,
        }),
        e@.pid == e.event.pid,
        e@.elapsed == e.event.elapsed_secs,
        e.live matches Some(live) ==> e@.live == Some((live.nonce@, live.text@)),
        e.live is None ==> e@.live is None,
        Emission::Single(single)@ == EmissionView::Single(single@),
        Emission::Batch(batch)@ matches EmissionView::Batch(all) && all.len() == batch@.len() && (
        forall|i: int| 0 <= i < all.len() ==> #[trigger] all[i] == batch@[i]@),
        held.session matches Some(id) ==> held@.session == Some(id@),
        held.session is None ==> held@.session is None,
        held@.signals.len() == held.signals@.len(),
        forall|i: int|
            0 <= i < held.signals@.len() ==> #[trigger] held@.signals[i] == held.signals@[i]@,
        WaitEvent::Started@ == WaitEventView::Started,
        WaitEvent::Result(r)@ == WaitEventView::Result(r@),
        WaitEvent::Reminder(e)@ == WaitEventView::Reminder(e@),
        WaitEvent::Closed@ == WaitEventView::Closed,
{
}

/// The views of lists show each item in its place.
pub proof fn lists_are_seen_whole(
    results: Seq<TaskResult>,
    reminders: Seq<Reminder>,
    emissions: Seq<Emission>,
    prepared: Seq<PreparedTask>,
    nonces: Seq<String>,
    events: Seq<ReminderEvent>,
    lives: Seq<Option<(Seq<char>, Seq<char>)>>,
)
    ensures
        results_of(results).len() == results.len(),
        forall|i: int| 0 <= i < results.len() ==> #[trigger] results_of(results)[i] == results[i]@,
        reminders_of(reminders).len() == reminders.len(),
        forall|i: int|
            0 <= i < reminders.len() ==> #[trigger] reminders_of(reminders)[i] == reminders[i]@,
        emissions_of(emissions).len() == emissions.len(),
        forall|i: int|
            0 <= i < emissions.len() ==> #[trigger] emissions_of(emissions)[i] == emissions[i]@,
        prepared_of(prepared).len() == prepared.len(),
        forall|i: int|
            0 <= i < prepared.len() ==> #[trigger] prepared_of(prepared)[i] == prepared[i]@,
        nonces_of(nonces).len() == nonces.len(),
        forall|i: int| 0 <= i < nonces.len() ==> #[trigger] nonces_of(nonces)[i] == nonces[i]@,
        remindings(events, lives).len() == events.len(),
        forall|i: int|
            0 <= i < events.len() ==> #[trigger] remindings(events, lives)[i] == (Reminding {
                pid: events[i].pid,
                elapsed: events[i].elapsed_secs,
                live: lives[i],
            }),
        all_nonces(nonces_of(nonces)) <==> forall|i: int|
            0 <= i < nonces.len() ==> is_nonce((#[trigger] nonces[i])@),
{
    if all_nonces(nonces_of(nonces)) {
        assert forall|i: int| 0 <= i < nonces.len() implies is_nonce((#[trigger] nonces[i])@) by {
            assert(is_nonce(nonces_of(nonces)[i]));
        }
    }
}

} // verus!
