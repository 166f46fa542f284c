//! The orchestrator's state as a mathematical value, and every step on it.

use vstd::prelude::*;
#[allow(unused_imports)]
use crate::json;
use crate::json::Json;
use crate::signal::{SignalKind, SignalView};
#[allow(unused_imports)]
use crate::boundary::{stamped, tagged, tail_form};
#[allow(unused_imports)]
use crate::nonce::is_nonce;
use crate::reminder::ReminderTimer;
#[allow(unused_imports)]
use crate::reminder::{armed, fired, own_pids};
#[allow(unused_imports)]
use crate::signal::{latest, lines_of, of_pids, plain_signal};
use crate::task::{PreparedView, TaskKindView, TaskState, TaskView, TimerDefView};
#[allow(unused_imports)]
use crate::task::{description_of, settled, started_mcp, started_timer, task_wf};
#[allow(unused_imports)]
use crate::text::decimal;
use crate::tool_meta::RemindPlan;
#[allow(unused_imports)]
use crate::tool_meta::{applied_note_of, auto_applied_of, interval_of, planned};

verus! {

/// Signals that the window retains, and that a wakeup shows.
pub const DEFAULT_WINDOW_SIZE: usize = 20;

/// Signals of fire_wake=false tasks of one session (`None`: of no session) that
/// wait for the session to settle.
pub struct Held {
    pub session: Option<Seq<char>>,
    pub signals: Seq<SignalView>,
}

/// The orchestrator's state.
#[verifier::ext_equal]
pub struct State {
    /// Every task that was ever dispatched, by PID.
    pub tasks: Map<u64, TaskView>,
    /// The latest signals, oldest first.
    pub window: Seq<SignalView>,
    /// The armed reminder timers, by PID.
    pub reminders: Map<u64, ReminderTimer>,
    /// Output of MCP calls that succeeded, by PID.
    pub outputs: Map<u64, Seq<char>>,
    /// The current goal strategy.
    pub strategy: Option<Seq<char>>,
    /// The session that a task belongs to, by PID.
    pub sessions: Map<u64, Seq<char>>,
    /// The session of the most recent dispatch call that named one.
    pub current_session: Option<Seq<char>>,
    /// Held signals, a group per session, in the order in which the sessions
    /// first had one.
    pub held: Seq<Held>,
    /// The PID that the next task gets.
    pub next_pid: u64,
}

/// The state before anything was dispatched.
pub open spec fn initial() -> State {
    State {
        tasks: Map::empty(),
        window: Seq::empty(),
        reminders: Map::empty(),
        outputs: Map::empty(),
        strategy: None,
        sessions: Map::empty(),
        current_session: None,
        held: Seq::empty(),
        next_pid: 1,
    }
}

/// Whether a task is there and runs.
pub open spec fn running(s: State, pid: u64) -> bool {
    s.tasks.contains_key(pid) && s.tasks[pid].state is Running
}

/// The session that a task belongs to.
pub open spec fn session_of(s: State, pid: u64) -> Option<Seq<char>> {
    if s.sessions.contains_key(pid) {
        Some(s.sessions[pid])
    } else {
        None
    }
}

/// Whether any task runs.
pub open spec fn any_running(s: State) -> bool {
    exists|pid: u64| running(s, pid)
}

/// Whether any task of a session (`None`: of no session) runs.
pub open spec fn session_running(s: State, session: Option<Seq<char>>) -> bool {
    exists|pid: u64| #[trigger] running(s, pid) && session_of(s, pid) == session
}

/// What holds of the state between any two steps:
/// - the window is bounded;
/// - a task stands under its own PID, which is below the next one, is what a
///   task of its kind must be, and its nonce, where it has one, is one;
/// - only running tasks have a reminder timer, which is their own;
/// - only tasks belong to sessions;
/// - held signals stand in one group per session, none of them empty, and announce
///   ends and reminders only, of fire_wake=false tasks of that session.
pub open spec fn state_wf(s: State) -> bool {
    &&& s.window.len() <= DEFAULT_WINDOW_SIZE
    &&& forall|pid: u64| #[trigger]
        s.tasks.contains_key(pid) ==> s.tasks[pid].pid == pid && pid < s.next_pid && task_wf(
            s.tasks[pid],
        ) && (s.tasks[pid].nonce matches Some(h) ==> is_nonce(h))
    &&& forall|pid: u64| #[trigger] s.reminders.contains_key(pid) ==> running(s, pid)
    &&& own_pids(s.reminders)
    &&& forall|pid: u64| #[trigger] s.sessions.contains_key(pid) ==> s.tasks.contains_key(pid)
    &&& forall|i: int, j: int|
        0 <= i < j < s.held.len() ==> (#[trigger] s.held[i]).session != (
        #[trigger] s.held[j]).session
    &&& forall|i: int| 0 <= i < s.held.len() ==> (#[trigger] s.held[i]).signals.len() > 0
        && all_emittable(s.held[i].signals) && all_quiet(s, s.held[i].session, s.held[i].signals)
}

/// Whether all of the signals are of fire_wake=false tasks of a session.
pub open spec fn all_quiet(
    s: State,
    session: Option<Seq<char>>,
    signals: Seq<SignalView>,
) -> bool {
    forall|i: int|
        0 <= i < signals.len() ==> session_of(s, (#[trigger] signals[i]).pid) == session
            && !fires_wake(s, signals[i].pid)
}

/// Whether a signal announces an end or a reminder: what is pushed unasked.
pub open spec fn emittable(e: SignalView) -> bool {
    e.kind is Exit || e.kind is Remind
}

/// Whether all of the signals are such.
pub open spec fn all_emittable(signals: Seq<SignalView>) -> bool {
    forall|i: int| 0 <= i < signals.len() ==> emittable(#[trigger] signals[i])
}

/// A signal enters the window.
pub open spec fn signalled(s: State, e: SignalView) -> State {
    State { window: latest(s.window.push(e), DEFAULT_WINDOW_SIZE as nat), ..s }
}

/// Signals enter the window one after the other.
pub open spec fn all_signalled(s: State, signals: Seq<SignalView>) -> State
    decreases signals.len(),
{
    if signals.len() == 0 {
        s
    } else {
        signalled(all_signalled(s, signals.drop_last()), signals.last())
    }
}

// ---- dispatch ----

/// The INIT message of a call: its description, and the disclosure of a reminder
/// that dispatch armed by itself.
pub open spec fn init_message(description: Seq<char>, plan: RemindPlan) -> Seq<char> {
    description + (match applied_note_of(plan) {
        Some(note) => " "@ + note,
        None => Seq::empty(),
    })
}

/// The strategy and the session that a dispatch call names replace the current
/// ones.
pub open spec fn goal_set(
    s: State,
    strategy: Option<Seq<char>>,
    session: Option<Seq<char>>,
) -> State {
    State {
        strategy: if strategy is Some {
            strategy
        } else {
            s.strategy
        },
        current_session: if session is Some {
            session
        } else {
            s.current_session
        },
        ..s
    }
}

/// One call starts: its task is tracked, it belongs to the session, INIT is
/// signalled, and its reminder is armed.
pub open spec fn launched(
    s: State,
    p: PreparedView,
    session: Option<Seq<char>>,
    nonce: Seq<char>,
    now: u64,
) -> State {
    let pid = s.next_pid;
    let plan = planned(p.def.remind_after, p.tool_meta);
    let kind = TaskKindView::Mcp(p.def);
    let task = TaskView {
        auto_remind_after: auto_applied_of(plan),
        ..started_mcp(pid, p.def, nonce, now)
    };
    let t = signalled(
        s,
        plain_signal(pid, SignalKind::Init, init_message(description_of(kind), plan)),
    );
    State {
        tasks: s.tasks.insert(pid, task),
        reminders: match interval_of(plan) {
            Some(secs) => if secs > 0 {
                s.reminders.insert(pid, armed(pid, secs))
            } else {
                s.reminders
            },
            None => s.reminders,
        },
        sessions: match session {
            Some(id) => s.sessions.insert(pid, id),
            None => s.sessions,
        },
        next_pid: (pid + 1) as u64,
        ..t
    }
}

/// Calls start one after the other, each with its own nonce.
pub open spec fn all_launched(
    s: State,
    batch: Seq<PreparedView>,
    session: Option<Seq<char>>,
    nonces: Seq<Seq<char>>,
    now: u64,
) -> State
    decreases batch.len(),
{
    if batch.len() == 0 {
        s
    } else {
        launched(
            all_launched(s, batch.drop_last(), session, nonces, now),
            batch.last(),
            session,
            nonces[batch.len() - 1],
            now,
        )
    }
}

/// The PIDs that a batch of `count` tasks gets: the next ones, in order.
pub open spec fn pids_from(first: u64, count: nat) -> Seq<u64> {
    Seq::new(count, |i: int| (first + i) as u64)
}

/// A dispatch call.
pub open spec fn dispatched(
    s: State,
    batch: Seq<PreparedView>,
    strategy: Option<Seq<char>>,
    session: Option<Seq<char>>,
    nonces: Seq<Seq<char>>,
    now: u64,
) -> State {
    all_launched(goal_set(s, strategy, session), batch, session, nonces, now)
}

/// The dmcp session that a task's call runs in: the task's own, where the call is
/// stateful.
pub open spec fn call_session(s: State, pid: u64) -> Option<Seq<char>> {
    if s.tasks[pid].kind matches TaskKindView::Mcp(def) && def.stateful {
        session_of(s, pid)
    } else {
        None
    }
}

/// An optional value as JSON: null where it is absent.
pub open spec fn or_null(v: Option<Json>) -> Json {
    match v {
        Some(j) => j,
        None => Json::Null,
    }
}

/// The structured detail of a timer's INIT signal.
pub open spec fn timer_init_payload(pid: u64, def: TimerDefView) -> Json {
    Json::Object(
        json::fields_of(
            seq![
                ("pid"@, Json::Unsigned(pid)),
                ("type"@, Json::Text("INIT"@)),
                ("label"@, Json::Text(def.label)),
                ("metadata"@, or_null(def.metadata)),
                ("duration"@, Json::Unsigned(def.duration)),
            ],
        ),
    )
}

/// A timer starts: it is tracked, and INIT is signalled.
pub open spec fn timer_launched(s: State, def: TimerDefView, now: u64) -> State {
    let pid = s.next_pid;
    let e = SignalView {
        payload: Some(timer_init_payload(pid, def)),
        ..plain_signal(pid, SignalKind::Init, description_of(TaskKindView::Timer(def)))
    };
    State {
        tasks: s.tasks.insert(pid, started_timer(pid, def, now)),
        next_pid: (pid + 1) as u64,
        ..signalled(s, e)
    }
}

// ---- reminders ----

/// A task's reminder timer fires.
pub open spec fn reminder_fired(s: State, pid: u64) -> State {
    State { reminders: fired(s.reminders, pid), ..s }
}

// ---- kill and wait ----

/// A walk over PIDs that acts on those of running tasks and stops at the first
/// that no task has.
pub struct Walk {
    pub state: State,
    /// The PIDs that were acted on.
    pub done: Seq<u64>,
    /// The PID that no task has.
    pub missing: Option<u64>,
}

/// The message of a KILL signal.
pub open spec fn kill_message(kind: TaskKindView) -> Seq<char> {
    match kind {
        TaskKindView::Mcp(_) => "Terminated by LLM"@,
        TaskKindView::Timer(def) => "timer \""@ + def.label + "\" cancelled"@,
    }
}

/// A running task is ended by the LLM.
pub open spec fn killed(s: State, pid: u64) -> State {
    State {
        tasks: s.tasks.insert(pid, settled(s.tasks[pid], TaskState::Killed)),
        reminders: s.reminders.remove(pid),
        ..signalled(s, plain_signal(pid, SignalKind::Kill, kill_message(s.tasks[pid].kind)))
    }
}

/// A kill call.
pub open spec fn kills(s: State, pids: Seq<u64>) -> Walk
    decreases pids.len(),
{
    if pids.len() == 0 {
        Walk { state: s, done: Seq::empty(), missing: None }
    } else {
        let before = kills(s, pids.drop_last());
        let pid = pids.last();
        if before.missing is Some {
            before
        } else if !before.state.tasks.contains_key(pid) {
            Walk { missing: Some(pid), ..before }
        } else if running(before.state, pid) {
            Walk { state: killed(before.state, pid), done: before.done.push(pid), missing: None }
        } else {
            before
        }
    }
}

/// The LLM goes on waiting for a running task.
pub open spec fn waited(s: State, pid: u64) -> State {
    signalled(s, plain_signal(pid, SignalKind::Wait, "LLM decided to continue waiting"@))
}

/// A wait call.
pub open spec fn waits(s: State, pids: Seq<u64>) -> Walk
    decreases pids.len(),
{
    if pids.len() == 0 {
        Walk { state: s, done: Seq::empty(), missing: None }
    } else {
        let before = waits(s, pids.drop_last());
        let pid = pids.last();
        if before.missing is Some {
            before
        } else if !before.state.tasks.contains_key(pid) {
            Walk { missing: Some(pid), ..before }
        } else if running(before.state, pid) {
            Walk { state: waited(before.state, pid), done: before.done.push(pid), missing: None }
        } else {
            before
        }
    }
}

/// Every running task is ended without a signal, and no reminder stays armed.
pub open spec fn shut_down(s: State) -> State {
    State {
        tasks: s.tasks.map_values(
            |t: TaskView|
                if t.state is Running {
                    settled(t, TaskState::Killed)
                } else {
                    t
                },
        ),
        reminders: Map::empty(),
        ..s
    }
}

// ---- results ----

/// What a background task came to.
pub struct TaskResultView {
    pub pid: u64,
    pub kind: TaskResultKindView,
}

/// What a task of either kind comes to: the output of a call or the text of its
/// failure, or the expiry of a timer.
pub enum TaskResultKindView {
    McpComplete(Result<Seq<char>, Seq<char>>),
    TimerExpired { label: Seq<char>, metadata: Option<Json>, elapsed: u64 },
}

/// The nonce of a task, where it is there and has one.
pub open spec fn nonce_of(s: State, pid: u64) -> Option<Seq<char>> {
    if s.tasks.contains_key(pid) {
        s.tasks[pid].nonce
    } else {
        None
    }
}

/// Whether a task's output is kept out of its EXIT signal.
pub open spec fn defers(s: State, pid: u64) -> bool {
    s.tasks.contains_key(pid) && (s.tasks[pid].kind matches TaskKindView::Mcp(def)
        && def.defer_output)
}

/// The output of a call that succeeded, as it is kept and shown.
pub open spec fn raw_output(out: Seq<char>) -> Seq<char> {
    if out.len() == 0 {
        "(no output)"@
    } else {
        out
    }
}

/// The message of an MCP call's EXIT signal: status 200 with the output, or 500
/// with the failure, between the tags of the task's nonce where it has one.
pub open spec fn exit_message(
    nonce: Option<Seq<char>>,
    defer: bool,
    outcome: Result<Seq<char>, Seq<char>>,
) -> Seq<char> {
    match outcome {
        Ok(out) => if defer {
            match nonce {
                Some(h) => stamped(h, "200 (deferred)"@),
                None => "200 (deferred)"@,
            }
        } else {
            match nonce {
                Some(h) => stamped(h, "200 "@ + tagged(h, raw_output(out))),
                None => "200 "@ + tagged("raw"@, raw_output(out)),
            }
        },
        Err(e) => match nonce {
            Some(h) => stamped(h, "500 "@ + tagged(h, e)),
            None => "500 "@ + e,
        },
    }
}

/// The message of a REMIND signal of a timer that fired.
pub open spec fn timer_message(label: Seq<char>, elapsed: u64) -> Seq<char> {
    "timer \""@ + label + "\" — "@ + decimal(elapsed as nat) + "s elapsed"@
}

/// The structured detail of a REMIND signal of a timer that fired.
pub open spec fn timer_remind_payload(
    pid: u64,
    label: Seq<char>,
    metadata: Option<Json>,
    elapsed: u64,
) -> Json {
    Json::Object(
        json::fields_of(
            seq![
                ("pid"@, Json::Unsigned(pid)),
                ("type"@, Json::Text("REMIND"@)),
                ("label"@, Json::Text(label)),
                ("metadata"@, or_null(metadata)),
                ("elapsed"@, Json::Unsigned(elapsed)),
            ],
        ),
    )
}

/// Whether a task is a timer that was killed: the kill prevents what its expiry
/// would have announced.
pub open spec fn prevented(s: State, pid: u64) -> bool {
    s.tasks.contains_key(pid) && s.tasks[pid].kind is Timer && s.tasks[pid].state is Killed
}

/// The signals that a result produces: EXIT of a call, REMIND and EXIT of a
/// timer, and none of a timer that was killed.
pub open spec fn produced(s: State, r: TaskResultView) -> Seq<SignalView> {
    if prevented(s, r.pid) {
        Seq::empty()
    } else {
        announced(s, r)
    }
}

/// The signals that a result produces where no kill prevents it.
pub open spec fn announced(s: State, r: TaskResultView) -> Seq<SignalView> {
    match r.kind {
        TaskResultKindView::McpComplete(outcome) => {
            let nonce = nonce_of(s, r.pid);
            seq![
                SignalView {
                    nonce,
                    ..plain_signal(
                        r.pid,
                        SignalKind::Exit,
                        exit_message(nonce, defers(s, r.pid), outcome),
                    )
                },
            ]
        },
        TaskResultKindView::TimerExpired { label, metadata, elapsed } => seq![
            SignalView {
                payload: Some(timer_remind_payload(r.pid, label, metadata, elapsed)),
                ..plain_signal(r.pid, SignalKind::Remind, timer_message(label, elapsed))
            },
            plain_signal(r.pid, SignalKind::Exit, "timer completed"@),
        ],
    }
}

/// A result is taken in: its reminder is cancelled, the output of a call that
/// succeeded is kept, its signals enter the window, and its task, where it still
/// ran, has exited: a kill is final, though the result of a killed call that was
/// already on its way is still announced. That of a killed timer changes nothing.
pub open spec fn resulted(s: State, r: TaskResultView) -> State {
    if prevented(s, r.pid) {
        s
    } else {
        State {
            tasks: if running(s, r.pid) {
                s.tasks.insert(r.pid, settled(s.tasks[r.pid], TaskState::Exited))
            } else {
                s.tasks
            },
            reminders: s.reminders.remove(r.pid),
            outputs: match r.kind {
                TaskResultKindView::McpComplete(Ok(out)) => s.outputs.insert(
                    r.pid,
                    raw_output(out),
                ),
                _ => s.outputs,
            },
            ..all_signalled(s, produced(s, r))
        }
    }
}

/// Results are taken in one after the other.
pub open spec fn all_resulted(s: State, results: Seq<TaskResultView>) -> State
    decreases results.len(),
{
    if results.len() == 0 {
        s
    } else {
        resulted(all_resulted(s, results.drop_last()), results.last())
    }
}

// ---- emissions ----

/// What the serve loop pushes: a signal on its own, or signals that are merged
/// into one.
pub enum EmissionView {
    Single(SignalView),
    Batch(Seq<SignalView>),
}

/// Each signal on its own.
pub open spec fn singles(signals: Seq<SignalView>) -> Seq<EmissionView> {
    Seq::new(signals.len(), |i: int| EmissionView::Single(signals[i]))
}

/// A state, and what has been emitted on the way to it.
pub struct Drain {
    pub state: State,
    pub out: Seq<EmissionView>,
}

/// Whether the signals of a task's result are emitted at once. Those of a timer
/// are, and those of a result that belongs to no task.
pub open spec fn fires_wake(s: State, pid: u64) -> bool {
    if s.tasks.contains_key(pid) {
        match s.tasks[pid].kind {
            TaskKindView::Mcp(def) => def.fire_wake,
            TaskKindView::Timer(_) => true,
        }
    } else {
        true
    }
}

/// The group of a session, if there is one, is the `i`-th.
pub open spec fn group_at(held: Seq<Held>, session: Option<Seq<char>>, i: int) -> bool {
    0 <= i < held.len() && held[i].session == session
}

/// Signals join the group of their session.
pub open spec fn joined_held(
    held: Seq<Held>,
    session: Option<Seq<char>>,
    signals: Seq<SignalView>,
) -> Seq<Held> {
    if exists|i: int| group_at(held, session, i) {
        let i = choose|i: int| group_at(held, session, i);
        held.update(i, Held { session, signals: held[i].signals + signals })
    } else {
        held.push(Held { session, signals })
    }
}

/// A result is drained: its signals are emitted one by one, or held for their
/// session. That of a killed timer is dropped.
pub open spec fn drained_result(d: Drain, r: TaskResultView) -> Drain {
    let signals = produced(d.state, r);
    let after = resulted(d.state, r);
    if prevented(d.state, r.pid) {
        d
    } else if fires_wake(d.state, r.pid) {
        Drain { state: after, out: d.out + singles(signals) }
    } else {
        Drain {
            state: State {
                held: joined_held(after.held, session_of(d.state, r.pid), signals),
                ..after
            },
            out: d.out,
        }
    }
}

/// Results are drained one after the other.
pub open spec fn drained_results(s: State, results: Seq<TaskResultView>) -> Drain
    decreases results.len(),
{
    if results.len() == 0 {
        Drain { state: s, out: Seq::empty() }
    } else {
        drained_result(drained_results(s, results.drop_last()), results.last())
    }
}

/// The message of a reminder: how long the task has been running, and its live
/// tail where it had one.
pub open spec fn remind_message(elapsed: u64, live: Option<(Seq<char>, Seq<char>)>) -> Seq<char> {
    "Running for "@ + decimal(elapsed as nat) + "s"@ + (match live {
        Some((nonce, text)) => " "@ + tail_form(nonce, text),
        None => Seq::empty(),
    })
}

/// The REMIND signal of a task that still runs.
pub open spec fn remind_signal(
    pid: u64,
    elapsed: u64,
    live: Option<(Seq<char>, Seq<char>)>,
) -> SignalView {
    SignalView {
        nonce: match live {
            Some((nonce, _)) => Some(nonce),
            None => None,
        },
        ..plain_signal(pid, SignalKind::Remind, remind_message(elapsed, live))
    }
}

/// A fired reminder, and the live tail that was read for it.
pub struct Reminding {
    pub pid: u64,
    pub elapsed: u64,
    pub live: Option<(Seq<char>, Seq<char>)>,
}

/// A reminder of a task that still runs is signalled and emitted; any other is
/// dropped.
pub open spec fn drained_reminder(d: Drain, e: Reminding) -> Drain {
    if running(d.state, e.pid) {
        let signal = remind_signal(e.pid, e.elapsed, e.live);
        Drain {
            state: signalled(d.state, signal),
            out: d.out.push(EmissionView::Single(signal)),
        }
    } else {
        d
    }
}

/// Reminders are drained one after the other.
pub open spec fn drained_reminders(d: Drain, events: Seq<Reminding>) -> Drain
    decreases events.len(),
{
    if events.len() == 0 {
        d
    } else {
        drained_reminder(drained_reminders(d, events.drop_last()), events.last())
    }
}

/// The batches of the sessions that have settled, one for each group that holds
/// anything.
pub open spec fn batches(s: State, held: Seq<Held>) -> Seq<EmissionView>
    decreases held.len(),
{
    if held.len() == 0 {
        Seq::empty()
    } else {
        let before = batches(s, held.drop_last());
        if session_running(s, held.last().session) || held.last().signals.len() == 0 {
            before
        } else {
            before.push(EmissionView::Batch(held.last().signals))
        }
    }
}

/// The groups of the sessions that have not settled.
pub open spec fn still_held(s: State, held: Seq<Held>) -> Seq<Held>
    decreases held.len(),
{
    if held.len() == 0 {
        Seq::empty()
    } else {
        let before = still_held(s, held.drop_last());
        if session_running(s, held.last().session) {
            before.push(held.last())
        } else {
            before
        }
    }
}

/// The groups of the sessions that have settled are emitted, each as one batch.
pub open spec fn flushed(d: Drain) -> Drain {
    Drain {
        state: State { held: still_held(d.state, d.state.held), ..d.state },
        out: d.out + batches(d.state, d.state.held),
    }
}

/// A drain: results first, then reminders, then what has settled.
pub open spec fn drained(s: State, results: Seq<TaskResultView>, events: Seq<Reminding>) -> Drain {
    flushed(drained_reminders(drained_results(s, results), events))
}

// ---- wakeups ----

/// The tasks of a session.
pub open spec fn session_pids_of(s: State, session: Seq<char>) -> Set<u64> {
    s.sessions.dom().filter(|pid: u64| s.sessions[pid] == session)
}

/// The window as a wakeup shows it: with a session current, the signals of that
/// session's tasks and no others, else all of them.
pub open spec fn window_text(s: State, count: nat) -> Seq<char> {
    match s.current_session {
        Some(session) => lines_of(
            latest(of_pids(s.window, session_pids_of(s, session)), count),
        ),
        None => lines_of(latest(s.window, count)),
    }
}

/// What the LLM is shown when it is woken: the strategy, where there is one, and
/// the window.
pub open spec fn context_of(s: State, count: nat) -> Seq<char> {
    match s.strategy {
        Some(strategy) => "Current strategy: "@ + strategy + "\n\n"@ + window_text(s, count),
        None => window_text(s, count),
    }
}

/// Something that a caller who waits is told of.
pub enum WaitEventView {
    /// The wait begins.
    Started,
    /// A background task came to a result.
    Result(TaskResultView),
    /// A reminder fired.
    Reminder(Reminding),
    /// No event can come any more.
    Closed,
}

/// What becomes of a wait.
pub enum WaitOutcome {
    /// The caller is woken with a text.
    Wake(Seq<char>),
    /// The wait goes on.
    Continue,
    /// The wait fails.
    Closed,
}

/// Whether a task's result wakes a caller that waits, though other tasks run.
pub open spec fn wakes_waiter(s: State, pid: u64) -> bool {
    s.tasks.contains_key(pid) && (s.tasks[pid].kind matches TaskKindView::Mcp(def)
        && def.fire_wake)
}

/// A step of a wait: the next state, and what becomes of the wait.
pub open spec fn wait_step(s: State, event: WaitEventView) -> (State, WaitOutcome) {
    match event {
        WaitEventView::Started => if any_running(s) {
            (s, WaitOutcome::Continue)
        } else {
            (s, WaitOutcome::Wake(context_of(s, DEFAULT_WINDOW_SIZE as nat)))
        },
        WaitEventView::Result(r) => {
            let after = resulted(s, r);
            if !any_running(after) || wakes_waiter(s, r.pid) {
                (after, WaitOutcome::Wake(context_of(after, DEFAULT_WINDOW_SIZE as nat)))
            } else {
                (after, WaitOutcome::Continue)
            }
        },
        WaitEventView::Reminder(e) => if running(s, e.pid) {
            let after = signalled(s, remind_signal(e.pid, e.elapsed, e.live));
            (after, WaitOutcome::Wake(context_of(after, DEFAULT_WINDOW_SIZE as nat)))
        } else {
            (s, WaitOutcome::Continue)
        },
        WaitEventView::Closed => (s, WaitOutcome::Closed),
    }
}

} // verus!
