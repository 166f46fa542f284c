//! The orchestrator: every decision that dispatch takes about tasks, signals,
//! reminders and completed output.

use std::collections::{HashMap, HashSet};
use vstd::prelude::*;
#[allow(unused_imports)]
use vstd::std_specs::iter::IteratorSpec;
use serde_json::Value;
use crate::boundary::{stamp, tag, tail_message};
use crate::error::DispatchError;
use crate::json;
#[allow(unused_imports)]
use crate::laws::{lemma_same_tasks, lemma_still_held, lemma_still_held_distinct};
use crate::nonce;
#[allow(unused_imports)]
use crate::nonce::{draw_failed, drawn_nonce, is_nonce, none_fresh};
use crate::reminder::{ReminderEvent, ReminderManager};
#[allow(unused_imports)]
use crate::reminder::report;
use crate::signal::{SignalEntry, SignalKind, SignalWindow};
#[allow(unused_imports)]
use crate::signal::signals_of;
use crate::state::{State, DEFAULT_WINDOW_SIZE};
#[allow(unused_imports)]
use crate::state::{
    all_emittable, all_launched, all_quiet, all_resulted, all_signalled, any_running, batches,
    call_session, context_of, defers, dispatched, drained, drained_reminder, drained_reminders,
    drained_result, drained_results, exit_message, fires_wake, flushed, goal_set, group_at,
    init_message, initial, joined_held, killed, kills, launched, nonce_of, pids_from, prevented,
    produced, raw_output, remind_message, remind_signal, reminder_fired, resulted, running,
    session_of, session_pids_of, session_running, shut_down, signalled, singles, state_wf,
    still_held, timer_init_payload, timer_launched, timer_message, timer_remind_payload,
    wait_step, waits, wakes_waiter, window_text, Drain, EmissionView, Held, Reminding,
    TaskResultKindView, TaskResultView, WaitEventView, WaitOutcome,
};
use crate::tail::{TaskTail, REMIND_TAIL_CHARS};
#[allow(unused_imports)]
use crate::tail::{live_part, live_text, shows_exactly, TAIL_BUFFER_CAP};
use crate::task::{
    live_tail, LiveTail, PreparedTask, Task, TaskKind, TaskState, TaskStatus, TimerDef,
};
#[allow(unused_imports)]
use crate::task::{live_of, settled, status_of, status_with, PreparedView, TaskKindView, TaskView};
use crate::text::decimal_string;
#[allow(unused_imports)]
use crate::text::text_of;
use crate::tool_meta::{plan_reminder, RemindPlan};

verus! {

broadcast use vstd::std_specs::hash::group_hash_axioms;

/// What a background task came to.
#[derive(Debug)]
pub struct TaskResult {
    pub pid: u64,
    pub kind: TaskResultKind,
}

#[derive(Debug)]
pub enum TaskResultKind {
    /// An MCP call ended: its output, or the text of its failure.
    McpComplete(Result<String, String>),
    /// A timer fired.
    TimerExpired { label: String, metadata: Option<Value>, elapsed: u64 },
}

/// A call's outcome, by what it holds.
pub open spec fn outcome_of(outcome: Result<String, String>) -> Result<Seq<char>, Seq<char>> {
    match outcome {
        Ok(out) => Ok(out@),
        Err(e) => Err(e@),
    }
}

impl View for TaskResult {
    type V = TaskResultView;

    open spec fn view(&self) -> TaskResultView {
        TaskResultView {
            pid: self.pid,
            kind: match self.kind {
                TaskResultKind::McpComplete(outcome) => TaskResultKindView::McpComplete(
                    outcome_of(outcome),
                ),
                TaskResultKind::TimerExpired { label, metadata, elapsed } =>
                    TaskResultKindView::TimerExpired {
                    label: label@,
                    metadata: json::json_of_opt(metadata),
                    elapsed,
                },
            },
        }
    }
}

/// How the serve loop should push a drained signal.
///
/// `fire_wake` is the sole merge control: `fire_wake=true` signals (and
/// reminders) flow one by one as `Single`; a `fire_wake=false` group, held until
/// its session settles, is merged into one `Batch` so the daemon runs it as a
/// single LLM turn.
pub enum Emission {
    Single(SignalEntry),
    Batch(Vec<SignalEntry>),
}

impl View for Emission {
    type V = EmissionView;

    open spec fn view(&self) -> EmissionView {
        match self {
            Emission::Single(e) => EmissionView::Single(e@),
            Emission::Batch(es) => EmissionView::Batch(signals_of(es@)),
        }
    }
}

/// Emissions, by what they hold.
pub open spec fn emissions_of(emissions: Seq<Emission>) -> Seq<EmissionView> {
    Seq::new(emissions.len(), |i: int| emissions[i]@)
}

/// Signals that are held for a session.
pub struct HeldGroup {
    pub session: Option<String>,
    pub signals: Vec<SignalEntry>,
}

impl View for HeldGroup {
    type V = Held;

    open spec fn view(&self) -> Held {
        Held { session: text_of(self.session), signals: signals_of(self.signals@) }
    }
}

/// Tasks by PID, by what they hold.
pub open spec fn tasks_of(tasks: Map<u64, Task>) -> Map<u64, TaskView> {
    tasks.map_values(|t: Task| t@)
}

/// Texts by PID, by what they hold.
pub open spec fn texts_of(texts: Map<u64, String>) -> Map<u64, Seq<char>> {
    texts.map_values(|s: String| s@)
}

/// Held groups, by what they hold.
pub open spec fn groups_of(groups: Seq<HeldGroup>) -> Seq<Held> {
    Seq::new(groups.len(), |i: int| groups[i]@)
}

/// The orchestrator manages tasks, signals, reminders, and completed output.
pub struct Orchestrator {
    tasks: HashMap<u64, Task>,
    signal_window: SignalWindow,
    reminder_mgr: ReminderManager,
    /// Output store for completed MCP tasks.
    outputs: HashMap<u64, String>,
    /// Current goal strategy set by the LLM via the dispatch tool's `strategy`
    /// field.
    strategy: Option<String>,
    /// Maps each dispatched PID to the session_id it belongs to. Used to scope
    /// signal window output per goal/session.
    pid_to_session: HashMap<u64, String>,
    /// The session_id from the most recent dispatch call that named one.
    /// `format_wakeup_context` filters the window to this session when set.
    current_session_id: Option<String>,
    /// EXIT signals from fire_wake=false tasks, held until their session settles
    /// (no task in that session still running) and flushed together, so that a
    /// coalesced batch is delivered as a group instead of dropped. One group per
    /// session (`None`: the no-session group).
    held: Vec<HeldGroup>,
    /// The PID that the next task gets.
    next_pid: u64,
}

impl View for Orchestrator {
    type V = State;

    closed spec fn view(&self) -> State {
        State {
            tasks: tasks_of(self.tasks@),
            window: self.signal_window@,
            reminders: self.reminder_mgr@,
            outputs: texts_of(self.outputs@),
            strategy: text_of(self.strategy),
            sessions: texts_of(self.pid_to_session@),
            current_session: text_of(self.current_session_id),
            held: groups_of(self.held@),
            next_pid: self.next_pid,
        }
    }
}

/// A task enters under a PID.
proof fn lemma_tasks_insert(tasks: Map<u64, Task>, pid: u64, task: Task)
    ensures
        tasks_of(tasks.insert(pid, task)) == tasks_of(tasks).insert(pid, task@),
{
    assert(tasks_of(tasks.insert(pid, task)) =~= tasks_of(tasks).insert(pid, task@));
}

/// A text enters under a PID.
proof fn lemma_texts_insert(texts: Map<u64, String>, pid: u64, text: String)
    ensures
        texts_of(texts.insert(pid, text)) == texts_of(texts).insert(pid, text@),
{
    assert(texts_of(texts.insert(pid, text)) =~= texts_of(texts).insert(pid, text@));
}

/// A copy of an optional text.
fn copy_text(text: &Option<String>) -> (r: Option<String>)
    ensures
        text_of(r) == text_of(*text),
{
    match text {
        Some(s) => Some(s.clone()),
        None => None,
    }
}

/// The message of an MCP call's EXIT signal.
fn exit_text(nonce: &Option<String>, defer: bool, outcome: &Result<String, String>) -> (r: String)
    ensures
        r@ == exit_message(text_of(*nonce), defer, outcome_of(*outcome)),
{
    match outcome {
        Ok(out) => if defer {
            match nonce {
                Some(h) => stamp(h.as_str(), "200 (deferred)"),
                None => "200 (deferred)".to_owned(),
            }
        } else {
            let raw: String = raw_text(out.as_str());
            let mut s: String = "200 ".to_owned();
            match nonce {
                Some(h) => {
                    s.append(tag(h.as_str(), raw.as_str()).as_str());
                    stamp(h.as_str(), s.as_str())
                },
                None => {
                    s.append(tag("raw", raw.as_str()).as_str());
                    s
                },
            }
        },
        Err(e) => {
            let mut s: String = "500 ".to_owned();
            match nonce {
                Some(h) => {
                    s.append(tag(h.as_str(), e.as_str()).as_str());
                    stamp(h.as_str(), s.as_str())
                },
                None => {
                    s.append(e.as_str());
                    s
                },
            }
        },
    }
}

/// The output of a call that succeeded, as it is kept and shown.
fn raw_text(out: &str) -> (r: String)
    ensures
        r@ == raw_output(out@),
{
    if out.unicode_len() == 0 {
        "(no output)".to_owned()
    } else {
        out.to_owned()
    }
}

/// The structured detail of a REMIND signal of a timer that fired.
fn remind_payload(pid: u64, label: &str, metadata: Option<Value>, elapsed: u64) -> (r: Value)
    ensures
        json::json_of(r) == timer_remind_payload(pid, label@, json::json_of_opt(metadata), elapsed),
{
    let mut fields: Vec<(&str, Value)> = Vec::new();
    fields.push(("pid", json::number(pid)));
    fields.push(("type", json::text("REMIND")));
    fields.push(("label", json::text(label)));
    fields.push(("metadata", json::or_null(metadata)));
    fields.push(("elapsed", json::number(elapsed)));
    proof {
        assert(json::named_json(fields@) =~= seq![
            ("pid"@, json::Json::Unsigned(pid)),
            ("type"@, json::Json::Text("REMIND"@)),
            ("label"@, json::Json::Text(label@)),
            ("metadata"@, crate::state::or_null(json::json_of_opt(metadata))),
            ("elapsed"@, json::Json::Unsigned(elapsed)),
        ]);
        reveal_strlit("pid");
        reveal_strlit("type");
        reveal_strlit("label");
        reveal_strlit("metadata");
        reveal_strlit("elapsed");
        assert("pid"@[0] == 'p' && "type"@[0] == 't' && "label"@[0] == 'l' && "metadata"@[0] == 'm'
            && "elapsed"@[0] == 'e');
    }
    json::object(fields)
}

/// The message of a REMIND signal of a timer that fired.
fn timer_text(label: &str, elapsed: u64) -> (r: String)
    ensures
        r@ == timer_message(label@, elapsed),
{
    let mut s: String = "timer \"".to_owned();
    s.append(label);
    s.append("\" — ");
    s.append(decimal_string(elapsed).as_str());
    s.append("s elapsed");
    s
}

impl Orchestrator {
    /// What holds of the orchestrator between any two calls.
    pub closed spec fn wf(&self) -> bool {
        &&& state_wf(self@)
        &&& forall|pid: u64| #[trigger]
            self.tasks@.contains_key(pid) ==> self.tasks@[pid].wf()
        &&& self.signal_window.wf()
        &&& self.signal_window.size() == DEFAULT_WINDOW_SIZE
    }

    /// The ring that a task's stderr goes to.
    pub closed spec fn tail_of(&self, pid: u64) -> Option<TaskTail> {
        if self.tasks@.contains_key(pid) {
            self.tasks@[pid].tail
        } else {
            None
        }
    }

    /// Whether every task that still runs has the ring that it had before.
    pub open spec fn keeps_tails(&self, before: Self) -> bool {
        forall|pid: u64|
            running(before@, pid) && running(self@, pid) ==> #[trigger] self.tail_of(pid)
                == before.tail_of(pid)
    }

    /// Whether a live tail is what a reader of the task's own ring saw in it: the
    /// latest `n` characters, and none where the ring was empty or the task is not a
    /// running MCP task.
    pub open spec fn live_seen(
        &self,
        pid: u64,
        n: nat,
        live: Option<(Seq<char>, Seq<char>)>,
    ) -> bool {
        if running(self@, pid) && self@.tasks[pid].kind is Mcp {
            exists|ring: Seq<u8>| #[trigger]
                self.tail_of(pid)->0.held(ring) && match live_part(ring, n) {
                    Some(text) => live matches Some((_, shown)) && shown == text && shows_exactly(
                        ring,
                        n,
                        shown,
                    ),
                    None => live is None,
                }
        } else {
            live is None
        }
    }

    /// Whether reading a task's live tail can fail: it is a running MCP task whose
    /// ring can be read as holding something, and no nonce could be had for it.
    pub open spec fn live_failed(&self, pid: u64) -> bool {
        &&& running(self@, pid)
        &&& self@.tasks[pid].kind is Mcp
        &&& none_fresh(nonce_of(self@, pid))
        &&& exists|ring: Seq<u8>| #[trigger] self.tail_of(pid)->0.held(ring) && ring.len() > 0
    }

    /// The invariant, as it is seen of the state.
    pub proof fn wf_of_state(&self)
        requires
            self.wf(),
        ensures
            state_wf(self@),
    {
    }

    pub fn new() -> (r: Self)
        ensures
            r.wf(),
            r@ == initial(),
    {
        let r = Orchestrator {
            tasks: HashMap::new(),
            signal_window: SignalWindow::new(DEFAULT_WINDOW_SIZE),
            reminder_mgr: ReminderManager::new(),
            outputs: HashMap::new(),
            strategy: None,
            pid_to_session: HashMap::new(),
            current_session_id: None,
            held: Vec::new(),
            next_pid: 1,
        };
        proof {
            assert(r@ =~= initial());
        }
        r
    }

    /// A signal enters the window.
    fn signal(&mut self, entry: SignalEntry)
        requires
            old(self).wf(),
        ensures
            final(self).wf(),
            final(self).keeps_tails(*old(self)),
            final(self)@ == signalled(old(self)@, entry@),
    {
        self.signal_window.push(entry);
    }

    /// The nonce of a task, where it is there and has one.
    pub fn get_nonce(&self, pid: u64) -> (r: Option<&str>)
        ensures
            match r {
                Some(nonce) => nonce_of(self@, pid) == Some(nonce@),
                None => nonce_of(self@, pid) is None,
            },
    {
        match self.tasks.get(&pid) {
            Some(task) => match &task.nonce {
                Some(nonce) => Some(nonce.as_str()),
                None => None,
            },
            None => None,
        }
    }

    /// Whether a task's output is kept out of its EXIT signal.
    fn defers_output(&self, pid: u64) -> (r: bool)
        ensures
            r == defers(self@, pid),
    {
        match self.tasks.get(&pid) {
            Some(task) => match &task.kind {
                TaskKind::Mcp(def) => def.defer_output,
                TaskKind::Timer(_) => false,
            },
            None => false,
        }
    }

    /// Whether a task is a timer that was killed.
    fn is_prevented(&self, pid: u64) -> (r: bool)
        ensures
            r == prevented(self@, pid),
    {
        match self.tasks.get(&pid) {
            Some(task) => match &task.kind {
                TaskKind::Mcp(_) => false,
                TaskKind::Timer(_) => task.state == TaskState::Killed,
            },
            None => false,
        }
    }

    /// A result is taken in: its reminder is cancelled, the output of a call that
    /// succeeded is kept, its signals enter the window, and its task, where it
    /// still ran, has exited. Returns the signals. A kill is final: the result of a
    /// killed call that was already on its way is announced, and the call stays
    /// killed; that of a killed timer changes nothing.
    pub fn handle_task_result(&mut self, result: TaskResult) -> (r: Vec<SignalEntry>)
        requires
            old(self).wf(),
        ensures
            final(self).wf(),
            final(self).keeps_tails(*old(self)),
            final(self)@ == resulted(old(self)@, result@),
            signals_of(r@) == produced(old(self)@, result@),
    {
        let pid: u64 = result.pid;
        let ghost before = self@;
        let ghost view = result@;
        if self.is_prevented(pid) {
            let none: Vec<SignalEntry> = Vec::new();
            proof {
                assert(signals_of(none@) =~= produced(before, view));
            }
            return none;
        }
        let nonce: Option<String> = match self.get_nonce(pid) {
            Some(h) => Some(h.to_owned()),
            None => None,
        };
        let defer: bool = self.defers_output(pid);
        let mut signals: Vec<SignalEntry> = Vec::new();
        match result.kind {
            TaskResultKind::McpComplete(outcome) => {
                let message: String = exit_text(&nonce, defer, &outcome);
                let plain: SignalEntry = SignalEntry::new(pid, SignalKind::Exit, message);
                let entry: SignalEntry = match nonce {
                    Some(h) => plain.with_nonce(h),
                    None => plain,
                };
                match outcome {
                    Ok(out) => {
                        let raw: String = raw_text(out.as_str());
                        proof {
                            lemma_texts_insert(self.outputs@, pid, raw);
                        }
                        let _ = self.outputs.insert(pid, raw);
                    },
                    Err(_) => {},
                }
                signals.push(entry.clone());
                self.signal_window.push(entry);
            },
            TaskResultKind::TimerExpired { label, metadata, elapsed } => {
                let message: String = timer_text(label.as_str(), elapsed);
                let payload: Value = remind_payload(pid, label.as_str(), metadata, elapsed);
                let remind: SignalEntry = SignalEntry::with_payload(
                    pid,
                    SignalKind::Remind,
                    message,
                    payload,
                );
                let exit: SignalEntry = SignalEntry::new(
                    pid,
                    SignalKind::Exit,
                    "timer completed".to_owned(),
                );
                signals.push(remind.clone());
                signals.push(exit.clone());
                self.signal_window.push(remind);
                self.signal_window.push(exit);
            },
        }
        proof {
            assert(signals_of(signals@) =~= produced(before, view));
        }
        let _ = self.reminder_mgr.cancel(pid);
        match self.tasks.remove(&pid) {
            Some(mut task) => {
                let ghost was = task@;
                if task.is_running() {
                    task.mark_exited();
                }
                proof {
                    lemma_tasks_insert(self.tasks@, pid, task);
                    assert(tasks_of(self.tasks@).insert(pid, task@) =~= before.tasks.insert(
                        pid,
                        task@,
                    ));
                    if !running(before, pid) {
                        assert(before.tasks.insert(pid, was) =~= before.tasks);
                    }
                }
                let _ = self.tasks.insert(pid, task);
            },
            None => {},
        }
        proof {
            reveal_with_fuel(all_signalled, 3);
            assert(self@ =~= resulted(before, view));
        }
        signals
    }
}

/// Prepared tasks, by what they hold.
pub open spec fn prepared_of(tasks: Seq<PreparedTask>) -> Seq<PreparedView> {
    Seq::new(tasks.len(), |i: int| tasks[i]@)
}

/// Nonces, by their texts.
pub open spec fn nonces_of(nonces: Seq<String>) -> Seq<Seq<char>> {
    Seq::new(nonces.len(), |i: int| nonces[i]@)
}

/// Whether every one of the texts is a nonce.
pub open spec fn all_nonces(nonces: Seq<Seq<char>>) -> bool {
    forall|i: int| 0 <= i < nonces.len() ==> is_nonce(#[trigger] nonces[i])
}

/// Whether every one of the texts is the nonce of bytes that a draw can have
/// given.
pub open spec fn all_drawn(nonces: Seq<Seq<char>>) -> bool {
    forall|i: int| 0 <= i < nonces.len() ==> drawn_nonce(#[trigger] nonces[i])
}

/// The INIT message of a call.
fn init_text(description: String, plan: RemindPlan) -> (r: String)
    ensures
        r@ == init_message(description@, plan),
{
    let mut s: String = description;
    match plan.applied_note() {
        Some(note) => {
            s.append(" ");
            s.append(note.as_str());
        },
        None => {},
    }
    proof {
        assert(s@ =~= init_message(description@, plan));
    }
    s
}

/// The structured detail of a timer's INIT signal.
fn init_payload(pid: u64, def: &TimerDef) -> (r: Value)
    ensures
        json::json_of(r) == timer_init_payload(pid, def@),
{
    let mut fields: Vec<(&str, Value)> = Vec::new();
    fields.push(("pid", json::number(pid)));
    fields.push(("type", json::text("INIT")));
    fields.push(("label", json::text(def.label.as_str())));
    fields.push(("metadata", json::or_null(json::copy_opt(&def.metadata))));
    fields.push(("duration", json::number(def.duration)));
    proof {
        assert(json::named_json(fields@) =~= seq![
            ("pid"@, json::Json::Unsigned(pid)),
            ("type"@, json::Json::Text("INIT"@)),
            ("label"@, json::Json::Text(def@.label)),
            ("metadata"@, crate::state::or_null(def@.metadata)),
            ("duration"@, json::Json::Unsigned(def@.duration)),
        ]);
        reveal_strlit("pid");
        reveal_strlit("type");
        reveal_strlit("label");
        reveal_strlit("metadata");
        reveal_strlit("duration");
        assert("pid"@[0] == 'p' && "type"@[0] == 't' && "label"@[0] == 'l' && "metadata"@[0] == 'm'
            && "duration"@[0] == 'd');
    }
    json::object(fields)
}

/// What a background runner needs to perform one MCP call.
pub struct Launch {
    pub pid: u64,
    pub server: String,
    pub tool: String,
    pub params: Value,
    /// The dmcp session to run the call in.
    pub session: Option<String>,
    /// Where the call's stderr goes while it runs.
    pub tail: TaskTail,
}

impl Orchestrator {
    /// Whether `count` more tasks can get PIDs.
    pub fn has_pids(&self, count: usize) -> (r: bool)
        ensures
            r == (self@.next_pid + count <= u64::MAX),
    {
        count as u64 <= u64::MAX - self.next_pid
    }

    /// One call starts.
    fn launch_one(
        &mut self,
        prepared: PreparedTask,
        session_id: &Option<String>,
        nonce: String,
        now: u64,
    ) -> (r: u64)
        requires
            old(self).wf(),
            old(self)@.next_pid < u64::MAX,
            is_nonce(nonce@),
        ensures
            final(self).wf(),
            final(self).keeps_tails(*old(self)),
            final(self)@ == launched(old(self)@, prepared@, text_of(*session_id), nonce@, now),
            r == old(self)@.next_pid,
    {
        let ghost before = self@;
        let pid: u64 = self.next_pid;
        self.next_pid = pid + 1;
        let plan: RemindPlan = plan_reminder(prepared.def.remind_after, prepared.tool_meta);
        let mut task: Task = Task::new_mcp(pid, prepared.def, nonce, now);
        task.auto_remind_after = plan.auto_applied();
        match session_id {
            Some(id) => {
                let id: String = id.clone();
                proof {
                    lemma_texts_insert(self.pid_to_session@, pid, id);
                }
                let _ = self.pid_to_session.insert(pid, id);
            },
            None => {},
        }
        let message: String = init_text(task.description(), plan);
        self.signal_window.push(SignalEntry::new(pid, SignalKind::Init, message));
        match plan.interval() {
            Some(secs) => if secs > 0 {
                self.reminder_mgr.start(pid, secs);
            },
            None => {},
        }
        proof {
            lemma_tasks_insert(self.tasks@, pid, task);
        }
        let _ = self.tasks.insert(pid, task);
        proof {
            assert(self@ =~= launched(before, prepared@, text_of(*session_id), nonce@, now));
        }
        pid
    }

    /// Dispatch a batch of MCP tasks, each under the nonce at its place.
    pub fn dispatch_with_nonces(
        &mut self,
        tasks: Vec<PreparedTask>,
        strategy: Option<String>,
        session_id: Option<String>,
        nonces: Vec<String>,
        now: u64,
    ) -> (r: Vec<u64>)
        requires
            old(self).wf(),
            old(self)@.next_pid + tasks@.len() <= u64::MAX,
            nonces@.len() == tasks@.len(),
            all_nonces(nonces_of(nonces@)),
        ensures
            final(self).wf(),
            final(self).keeps_tails(*old(self)),
            final(self)@ == dispatched(
                old(self)@,
                prepared_of(tasks@),
                text_of(strategy),
                text_of(session_id),
                nonces_of(nonces@),
                now,
            ),
            r@ == pids_from(old(self)@.next_pid, tasks@.len()),
    {
        let ghost before = self@;
        let ghost batch = prepared_of(tasks@);
        let ghost session = text_of(session_id);
        let ghost tokens = nonces_of(nonces@);
        let ghost set = goal_set(before, text_of(strategy), session);
        if strategy.is_some() {
            self.strategy = strategy;
        }
        if session_id.is_some() {
            self.current_session_id = copy_text(&session_id);
        }
        let mut pids: Vec<u64> = Vec::new();
        proof {
            assert(self@ =~= set);
            assert(batch.take(0) =~= Seq::<PreparedView>::empty());
        }
        for prepared in it: tasks.into_iter()
            invariant
                self.wf(),
                self.keeps_tails(*old(self)),
                old(self).wf(),
                before == old(self)@,
                session == text_of(session_id),
                it.seq() == tasks@,
                batch == prepared_of(tasks@),
                tokens == nonces_of(nonces@),
                all_nonces(tokens),
                nonces@.len() == tasks@.len(),
                before.next_pid + tasks@.len() <= u64::MAX,
                set.next_pid == before.next_pid,
                pids@ == pids_from(before.next_pid, it.index() as nat),
                self@.next_pid == before.next_pid + it.index(),
                self@ == all_launched(set, batch.take(it.index()), session, tokens, now),
        {
            let i: usize = pids.len();
            let nonce: String = nonces[i].clone();
            assert(is_nonce(tokens[i as int]));
            let ghost here = *self;
            let pid: u64 = self.launch_one(prepared, &session_id, nonce, now);
            pids.push(pid);
            proof {
                assert forall|k: u64| running(before, k) && running(self@, k) implies #[trigger]
                    self.tail_of(k) == old(self).tail_of(k) by {
                    assert(before.tasks.contains_key(k));
                    assert(running(here@, k));
                    assert(here.tail_of(k) == old(self).tail_of(k));
                }
                let upto = batch.take(i + 1);
                assert(upto.drop_last() =~= batch.take(i as int));
                assert(upto.last() == prepared@);
                assert(pids@ =~= pids_from(before.next_pid, (i + 1) as nat));
            }
        }
        proof {
            assert(batch.take(batch.len() as int) =~= batch);
        }
        pids
    }

    /// Dispatch a batch of MCP tasks for concurrent execution.
    /// `strategy` replaces the current goal strategy if provided.
    /// `session_id` scopes the signal window for this batch: only PIDs
    /// belonging to this session appear in wakeup responses.
    ///
    /// Each task gets a nonce of its own from the OS random source. Where that
    /// fails nothing is dispatched.
    pub fn dispatch(
        &mut self,
        tasks: Vec<PreparedTask>,
        strategy: Option<String>,
        session_id: Option<String>,
        now: u64,
    ) -> (r: Result<Vec<u64>, DispatchError>)
        requires
            old(self).wf(),
            old(self)@.next_pid + tasks@.len() <= u64::MAX,
        ensures
            final(self).wf(),
            final(self).keeps_tails(*old(self)),
            match r {
                Ok(pids) => {
                    &&& pids@ == pids_from(old(self)@.next_pid, tasks@.len())
                    &&& exists|nonces: Seq<Seq<char>>|
                        nonces.len() == tasks@.len() && all_nonces(nonces) && all_drawn(nonces)
                            && final(self)@
                            == #[trigger] dispatched(
                            old(self)@,
                            prepared_of(tasks@),
                            text_of(strategy),
                            text_of(session_id),
                            nonces,
                            now,
                        )
                },
                Err(e) => e is EntropyUnavailable && draw_failed() && final(self)@ == old(self)@,
            },
            tasks@.len() == 0 ==> r is Ok,
    {
        match nonce::generate_many(tasks.len()) {
            Ok(nonces) => {
                proof {
                    assert(all_nonces(nonces_of(nonces@)));
                    assert(all_drawn(nonces_of(nonces@)));
                }
                Ok(self.dispatch_with_nonces(tasks, strategy, session_id, nonces, now))
            },
            Err(e) => Err(e),
        }
    }

    /// Start a timer.
    pub fn dispatch_timer(&mut self, def: TimerDef, now: u64) -> (r: u64)
        requires
            old(self).wf(),
            old(self)@.next_pid < u64::MAX,
        ensures
            final(self).wf(),
            final(self).keeps_tails(*old(self)),
            final(self)@ == timer_launched(old(self)@, def@, now),
            r == old(self)@.next_pid,
    {
        let ghost before = self@;
        let pid: u64 = self.next_pid;
        self.next_pid = pid + 1;
        let payload: Value = init_payload(pid, &def);
        let task: Task = Task::new_timer(pid, def, now);
        self.signal_window.push(
            SignalEntry::with_payload(pid, SignalKind::Init, task.description(), payload),
        );
        proof {
            lemma_tasks_insert(self.tasks@, pid, task);
        }
        let _ = self.tasks.insert(pid, task);
        proof {
            assert(self@ =~= timer_launched(before, def@, now));
        }
        pid
    }

    /// What a background runner needs to perform the MCP call of a running task.
    pub fn launch(&self, pid: u64) -> (r: Option<Launch>)
        requires
            self.wf(),
        ensures
            match r {
                Some(l) => {
                    &&& running(self@, pid)
                    &&& l.pid == pid
                    &&& self@.tasks[pid].kind matches TaskKindView::Mcp(def)
                    &&& l.server@ == def.server
                    &&& l.tool@ == def.tool
                    &&& json::json_of(l.params) == def.params
                    &&& text_of(l.session) == call_session(self@, pid)
                    &&& self.tail_of(pid) == Some(l.tail)
                    &&& l.tail.cap() == TAIL_BUFFER_CAP
                    &&& l.tail.began_with(Seq::empty())
                },
                None => !(running(self@, pid) && self@.tasks[pid].kind is Mcp),
            },
    {
        match self.tasks.get(&pid) {
            Some(task) => match &task.kind {
                TaskKind::Mcp(def) => match &task.tail {
                    Some(tail) => {
                        let session: Option<String> = if def.stateful {
                            match self.pid_to_session.get(&pid) {
                                Some(id) => Some(id.clone()),
                                None => None,
                            }
                        } else {
                            None
                        };
                        Some(
                            Launch {
                                pid,
                                server: def.server.clone(),
                                tool: def.tool.clone(),
                                params: def.params.clone(),
                                session,
                                tail: tail.clone(),
                            },
                        )
                    },
                    None => {
                        proof {
                            assert(self@.tasks.contains_key(pid));
                        }
                        None
                    },
                },
                TaskKind::Timer(_) => None,
            },
            None => None,
        }
    }
}

/// The keys of a map, each once.
fn keys_of<V>(m: &HashMap<u64, V>) -> (r: Vec<u64>)
    ensures
        r@.no_duplicates(),
        forall|k: u64| r@.contains(k) <==> m@.contains_key(k),
{
    let mut keys: Vec<u64> = Vec::new();
    for key in it: m.keys()
        invariant
            it.seq() == vstd::std_specs::hash::spec_keys_iter(m).remaining(),
            keys@ == it.seq().take(it.index()).unref(),
    {
        proof {
            assert(it.seq().take(it.index() + 1).unref() =~= keys@.push(*key));
        }
        keys.push(*key);
    }
    proof {
        let all = vstd::std_specs::hash::spec_keys_iter(m).remaining();
        assert(all.take(all.len() as int) =~= all);
        assert(keys@ == all.unref());
        assert(all.unref().to_set() == m@.dom());
        assert forall|k: u64| keys@.contains(k) <==> m@.contains_key(k) by {
            assert(keys@.to_set().contains(k) <==> keys@.contains(k));
        }
    }
    keys
}

/// A walk that has met a PID that no task has stays as it is.
proof fn lemma_kills_stop(s: State, pids: Seq<u64>, i: int)
    requires
        0 <= i <= pids.len(),
        kills(s, pids.take(i)).missing is Some,
    ensures
        kills(s, pids) == kills(s, pids.take(i)),
    decreases pids.len() - i,
{
    if i < pids.len() {
        assert(pids.take(i + 1).drop_last() =~= pids.take(i));
        lemma_kills_stop(s, pids, i + 1);
    } else {
        assert(pids.take(i) =~= pids);
    }
}

/// A walk that has met a PID that no task has stays as it is.
proof fn lemma_waits_stop(s: State, pids: Seq<u64>, i: int)
    requires
        0 <= i <= pids.len(),
        waits(s, pids.take(i)).missing is Some,
    ensures
        waits(s, pids) == waits(s, pids.take(i)),
    decreases pids.len() - i,
{
    if i < pids.len() {
        assert(pids.take(i + 1).drop_last() =~= pids.take(i));
        lemma_waits_stop(s, pids, i + 1);
    } else {
        assert(pids.take(i) =~= pids);
    }
}

impl Orchestrator {
    /// Whether a task is there and runs.
    pub fn is_running(&self, pid: u64) -> (r: bool)
        ensures
            r == running(self@, pid),
    {
        match self.tasks.get(&pid) {
            Some(task) => task.is_running(),
            None => false,
        }
    }

    /// A running task is ended by the LLM.
    fn kill_running(&mut self, pid: u64)
        requires
            old(self).wf(),
            running(old(self)@, pid),
        ensures
            final(self).wf(),
            final(self).keeps_tails(*old(self)),
            final(self)@ == killed(old(self)@, pid),
    {
        let ghost before = self@;
        match self.tasks.remove(&pid) {
            Some(mut task) => {
                let ghost was = task@;
                let message: String = match &task.kind {
                    TaskKind::Mcp(_) => "Terminated by LLM".to_owned(),
                    TaskKind::Timer(def) => {
                        let mut s: String = "timer \"".to_owned();
                        s.append(def.label.as_str());
                        s.append("\" cancelled");
                        s
                    },
                };
                task.mark_killed();
                proof {
                    lemma_tasks_insert(self.tasks@, pid, task);
                    assert(tasks_of(self.tasks@).insert(pid, task@) =~= before.tasks.insert(
                        pid,
                        settled(was, TaskState::Killed),
                    ));
                }
                let _ = self.tasks.insert(pid, task);
                let _ = self.reminder_mgr.cancel(pid);
                self.signal_window.push(SignalEntry::new(pid, SignalKind::Kill, message));
            },
            None => {},
        }
        proof {
            assert(self@ =~= killed(before, pid));
        }
    }

    /// End the running ones of the given tasks, and say which those were. Stops
    /// at the first PID that no task has; tasks before it stay ended.
    pub fn kill(&mut self, pids: &[u64]) -> (r: Result<Vec<u64>, DispatchError>)
        requires
            old(self).wf(),
        ensures
            final(self).wf(),
            final(self).keeps_tails(*old(self)),
            final(self)@ == kills(old(self)@, pids@).state,
            match r {
                Ok(done) => kills(old(self)@, pids@).missing is None && done@ == kills(
                    old(self)@,
                    pids@,
                ).done,
                Err(e) => e matches DispatchError::TaskNotFound(pid) && kills(
                    old(self)@,
                    pids@,
                ).missing == Some(pid),
            },
    {
        let ghost before = self@;
        let mut done: Vec<u64> = Vec::new();
        let mut i: usize = 0;
        proof {
            assert(pids@.take(0) =~= Seq::<u64>::empty());
        }
        while i < pids.len()
            invariant
                i <= pids@.len(),
                self.wf(),
                self.keeps_tails(*old(self)),
                before == old(self)@,
                self@ == kills(before, pids@.take(i as int)).state,
                done@ == kills(before, pids@.take(i as int)).done,
                kills(before, pids@.take(i as int)).missing is None,
            decreases pids@.len() - i,
        {
            let pid: u64 = pids[i];
            proof {
                assert(pids@.take(i + 1).drop_last() =~= pids@.take(i as int));
                assert(pids@.take(i + 1).last() == pid);
            }
            if !self.tasks.contains_key(&pid) {
                proof {
                    lemma_kills_stop(before, pids@, i + 1);
                }
                return Err(DispatchError::TaskNotFound(pid));
            }
            if self.is_running(pid) {
                self.kill_running(pid);
                done.push(pid);
            }
            i = i + 1;
        }
        proof {
            assert(pids@.take(i as int) =~= pids@);
        }
        Ok(done)
    }

    /// Note that the LLM goes on waiting for the running ones of the given tasks,
    /// and say which those were. Stops at the first PID that no task has.
    pub fn wait(&mut self, pids: &[u64]) -> (r: Result<Vec<u64>, DispatchError>)
        requires
            old(self).wf(),
        ensures
            final(self).wf(),
            final(self).keeps_tails(*old(self)),
            final(self)@ == waits(old(self)@, pids@).state,
            match r {
                Ok(done) => waits(old(self)@, pids@).missing is None && done@ == waits(
                    old(self)@,
                    pids@,
                ).done,
                Err(e) => e matches DispatchError::TaskNotFound(pid) && waits(
                    old(self)@,
                    pids@,
                ).missing == Some(pid),
            },
    {
        let ghost before = self@;
        let mut done: Vec<u64> = Vec::new();
        let mut i: usize = 0;
        proof {
            assert(pids@.take(0) =~= Seq::<u64>::empty());
        }
        while i < pids.len()
            invariant
                i <= pids@.len(),
                self.wf(),
                self.keeps_tails(*old(self)),
                before == old(self)@,
                self@ == waits(before, pids@.take(i as int)).state,
                done@ == waits(before, pids@.take(i as int)).done,
                waits(before, pids@.take(i as int)).missing is None,
            decreases pids@.len() - i,
        {
            let pid: u64 = pids[i];
            proof {
                assert(pids@.take(i + 1).drop_last() =~= pids@.take(i as int));
                assert(pids@.take(i + 1).last() == pid);
            }
            if !self.tasks.contains_key(&pid) {
                proof {
                    lemma_waits_stop(before, pids@, i + 1);
                }
                return Err(DispatchError::TaskNotFound(pid));
            }
            if self.is_running(pid) {
                self.signal(
                    SignalEntry::new(
                        pid,
                        SignalKind::Wait,
                        "LLM decided to continue waiting".to_owned(),
                    ),
                );
                done.push(pid);
            }
            i = i + 1;
        }
        proof {
            assert(pids@.take(i as int) =~= pids@);
        }
        Ok(done)
    }

    /// Whether any task runs.
    pub fn has_running_tasks(&self) -> (r: bool)
        ensures
            r == any_running(self@),
    {
        let pids: Vec<u64> = keys_of(&self.tasks);
        let mut i: usize = 0;
        while i < pids.len()
            invariant
                i <= pids@.len(),
                forall|k: int| 0 <= k < i ==> !running(self@, #[trigger] pids@[k]),
            decreases pids@.len() - i,
        {
            if self.is_running(pids[i]) {
                return true;
            }
            i = i + 1;
        }
        proof {
            assert forall|pid: u64| !running(self@, pid) by {
                if self.tasks@.contains_key(pid) {
                    assert(pids@.contains(pid));
                }
            }
        }
        false
    }

    /// True if any task in the given session is still running (`None`: the
    /// no-session group). Scopes fire_wake=false "settle" per session so a held
    /// batch in one goal isn't kept waiting by an unrelated running task in
    /// another concurrent goal.
    pub fn session_has_running(&self, session: &Option<String>) -> (r: bool)
        ensures
            r == session_running(self@, text_of(*session)),
    {
        let pids: Vec<u64> = keys_of(&self.tasks);
        let mut i: usize = 0;
        while i < pids.len()
            invariant
                i <= pids@.len(),
                forall|k: int|
                    0 <= k < i ==> !(running(self@, #[trigger] pids@[k]) && session_of(
                        self@,
                        pids@[k],
                    ) == text_of(*session)),
            decreases pids@.len() - i,
        {
            if self.is_running(pids[i]) && self.in_session(pids[i], session) {
                return true;
            }
            i = i + 1;
        }
        proof {
            assert forall|pid: u64|
                !(#[trigger] running(self@, pid) && session_of(self@, pid) == text_of(*session)) by {
                if self.tasks@.contains_key(pid) {
                    assert(pids@.contains(pid));
                }
            }
        }
        false
    }

    /// Whether a task belongs to a session (`None`: to no session).
    fn in_session(&self, pid: u64, session: &Option<String>) -> (r: bool)
        ensures
            r == (session_of(self@, pid) == text_of(*session)),
    {
        match self.pid_to_session.get(&pid) {
            Some(id) => match session {
                Some(wanted) => *id == *wanted,
                None => false,
            },
            None => session.is_none(),
        }
    }

    /// All PIDs belonging to a given session.
    pub fn session_pids(&self, session_id: &str) -> (r: HashSet<u64>)
        ensures
            r@ == session_pids_of(self@, session_id@),
    {
        let wanted: Option<String> = Some(session_id.to_owned());
        let pids: Vec<u64> = keys_of(&self.pid_to_session);
        let mut found: HashSet<u64> = HashSet::new();
        let mut i: usize = 0;
        while i < pids.len()
            invariant
                i <= pids@.len(),
                text_of(wanted) == Some(session_id@),
                forall|pid: u64|
                    found@.contains(pid) <==> (pids@.take(i as int).contains(pid) && session_of(
                        self@,
                        pid,
                    ) == Some(session_id@)),
            decreases pids@.len() - i,
        {
            let pid: u64 = pids[i];
            if self.in_session(pid, &wanted) {
                let _ = found.insert(pid);
            }
            i = i + 1;
            proof {
                let upto = pids@.take(i as int);
                assert(upto =~= pids@.take(i - 1).push(pid));
                assert forall|p: u64| upto.contains(p) <==> (pids@.take(i - 1).contains(p) || p
                    == pid) by {
                    if pids@.take(i - 1).contains(p) {
                        let k = pids@.take(i - 1).index_of(p);
                        assert(upto[k] == p);
                    }
                    assert(upto[i - 1] == pid);
                }
            }
        }
        proof {
            assert(pids@.take(i as int) =~= pids@);
            assert(found@ =~= session_pids_of(self@, session_id@));
        }
        found
    }

    /// Status of every task, in no particular order.
    pub fn status(&self, now: u64) -> (r: Vec<TaskStatus>)
        requires
            self.wf(),
        ensures
            forall|i: int|
                0 <= i < r@.len() ==> self@.tasks.contains_key((#[trigger] r@[i]).pid) && r@[i]@
                    == status_of(self@.tasks[r@[i].pid], now),
            forall|i: int, j: int|
                0 <= i < j < r@.len() ==> (#[trigger] r@[i]).pid != (#[trigger] r@[j]).pid,
            forall|pid: u64| #[trigger]
                self@.tasks.contains_key(pid) ==> exists|i: int|
                    0 <= i < r@.len() && (#[trigger] r@[i]).pid == pid,
    {
        let pids: Vec<u64> = keys_of(&self.tasks);
        let mut statuses: Vec<TaskStatus> = Vec::new();
        let mut i: usize = 0;
        while i < pids.len()
            invariant
                i <= pids@.len(),
                self.wf(),
                forall|k: u64| pids@.contains(k) <==> self.tasks@.contains_key(k),
                statuses@.len() == i,
                forall|k: int|
                    0 <= k < i ==> (#[trigger] statuses@[k])@ == status_of(
                        self@.tasks[pids@[k]],
                        now,
                    ) && statuses@[k].pid == pids@[k],
            decreases pids@.len() - i,
        {
            let pid: u64 = pids[i];
            proof {
                assert(pids@.contains(pid));
            }
            match self.tasks.get(&pid) {
                Some(task) => {
                    proof {
                        assert(self@.tasks.contains_key(pid));
                    }
                    statuses.push(TaskStatus::from_task(task, now));
                },
                None => {},
            }
            i = i + 1;
        }
        proof {
            assert forall|k: int| 0 <= k < statuses@.len() implies self@.tasks.contains_key(
                (#[trigger] statuses@[k]).pid,
            ) by {
                assert(pids@.contains(pids@[k]));
            }
            assert forall|pid: u64| #[trigger] self@.tasks.contains_key(pid) implies exists|k: int|
                0 <= k < statuses@.len() && (#[trigger] statuses@[k]).pid == pid by {
                assert(pids@.contains(pid));
                let k = pids@.index_of(pid);
                assert(statuses@[k].pid == pid);
            }
        }
        statuses
    }

    /// The output of an MCP task that completed.
    pub fn get_output(&self, pid: u64) -> (r: Option<&str>)
        ensures
            match r {
                Some(out) => self@.outputs.contains_key(pid) && self@.outputs[pid] == out@,
                None => !self@.outputs.contains_key(pid),
            },
    {
        match self.outputs.get(&pid) {
            Some(out) => Some(out.as_str()),
            None => None,
        }
    }

    /// The retained signals.
    pub fn signal_window(&self) -> (r: &SignalWindow)
        ensures
            r@ == self@.window,
    {
        &self.signal_window
    }

    /// The interval of a task's reminder timer, where it has one.
    pub fn reminder_interval(&self, pid: u64) -> (r: Option<u64>)
        ensures
            r == (if self@.reminders.contains_key(pid) {
                Some(self@.reminders[pid].interval_secs)
            } else {
                None
            }),
    {
        self.reminder_mgr.interval(pid)
    }

    /// A task's reminder interval has passed: the event to drain, or nothing for a
    /// task without a timer, as one whose timer was cancelled.
    pub fn fire_reminder(&mut self, pid: u64) -> (r: Option<ReminderEvent>)
        requires
            old(self).wf(),
        ensures
            final(self).wf(),
            final(self).keeps_tails(*old(self)),
            final(self)@ == reminder_fired(old(self)@, pid),
            r == report(old(self)@.reminders, pid),
            r is Some ==> running(old(self)@, pid) && r->0.pid == pid,
    {
        self.reminder_mgr.fire(pid)
    }

    /// The latest `count` signals as text, one line each.
    pub fn log_text(&self, count: usize) -> (r: String)
        ensures
            r@ == crate::signal::lines_of(crate::signal::latest(self@.window, count as nat)),
    {
        self.signal_window.format_window(count)
    }

    /// The latest `count` signals as a JSON array.
    pub fn log_json(&self, count: usize) -> (r: Value)
        ensures
            json::json_of(r) == crate::signal::signals_json(
                crate::signal::latest(self@.window, count as nat),
            ),
    {
        self.signal_window.to_json(count)
    }

    /// Format the signal window prepended with the current strategy (if set).
    /// When a session is current, the window is filtered to only show entries for
    /// PIDs belonging to that session.
    pub fn format_wakeup_context(&self, count: usize) -> (r: String)
        ensures
            r@ == context_of(self@, count as nat),
    {
        let window: String = match &self.current_session_id {
            None => self.signal_window.format_window(count),
            Some(id) => {
                let pids: HashSet<u64> = self.session_pids(id.as_str());
                self.signal_window.format_window_for_pids(count, &pids)
            },
        };
        assert(window@ == window_text(self@, count as nat));
        match &self.strategy {
            Some(strategy) => {
                let mut s: String = "Current strategy: ".to_owned();
                s.append(strategy.as_str());
                s.append("\n\n");
                s.append(window.as_str());
                s
            },
            None => window,
        }
    }

    /// Render the current signal window for the request path without draining:
    /// completed results are folded in and pushed by the serve loop's wake path
    /// (`drain_emittable`), so dispatching must not block or steal them here.
    pub fn wakeup_context(&self) -> (r: String)
        ensures
            r@ == context_of(self@, DEFAULT_WINDOW_SIZE as nat),
    {
        self.format_wakeup_context(DEFAULT_WINDOW_SIZE)
    }

    /// End every running task without a signal, and cancel all reminders.
    pub fn shutdown(&mut self)
        requires
            old(self).wf(),
        ensures
            final(self).wf(),
            final(self).keeps_tails(*old(self)),
            final(self)@ == shut_down(old(self)@),
    {
        let ghost before = self@;
        let ghost after = shut_down(before).tasks;
        self.reminder_mgr.cancel_all();
        let pids: Vec<u64> = keys_of(&self.tasks);
        let mut i: usize = 0;
        while i < pids.len()
            invariant
                i <= pids@.len(),
                pids@.no_duplicates(),
                before == old(self)@,
                after == shut_down(before).tasks,
                forall|k: u64| pids@.contains(k) <==> before.tasks.contains_key(k),
                self@ == (State { tasks: self@.tasks, reminders: Map::empty(), ..before }),
                forall|k: u64| #[trigger] self.tasks@.contains_key(k) ==> self.tasks@[k].wf(),
                self.signal_window.wf(),
                self.signal_window.size() == DEFAULT_WINDOW_SIZE,
                self@.tasks.dom() == before.tasks.dom(),
                forall|k: int|
                    0 <= k < pids@.len() ==> self@.tasks[#[trigger] pids@[k]] == (if k < i {
                        after[pids@[k]]
                    } else {
                        before.tasks[pids@[k]]
                    }),
            decreases pids@.len() - i,
        {
            let pid: u64 = pids[i];
            let ghost here = self@;
            proof {
                assert(pids@.contains(pid));
            }
            match self.tasks.remove(&pid) {
                Some(mut task) => {
                    if task.is_running() {
                        task.mark_killed();
                    }
                    proof {
                        lemma_tasks_insert(self.tasks@, pid, task);
                        assert(tasks_of(self.tasks@).insert(pid, task@) =~= here.tasks.insert(
                            pid,
                            task@,
                        ));
                    }
                    let _ = self.tasks.insert(pid, task);
                },
                None => {},
            }
            i = i + 1;
            proof {
                assert(self@.tasks == here.tasks.insert(pid, after[pid]));
                assert(self@.tasks.dom() =~= before.tasks.dom());
            }
        }
        proof {
            assert forall|pid: u64| before.tasks.contains_key(pid) implies self@.tasks[pid]
                == after[pid] by {
                assert(pids@.contains(pid));
                let k = pids@.index_of(pid);
                assert(pids@[k] == pid);
            }
            assert(self@.tasks =~= after);
            assert(self@ =~= shut_down(before));
        }
    }
}

/// Results, by what they hold.
pub open spec fn results_of(results: Seq<TaskResult>) -> Seq<TaskResultView> {
    Seq::new(results.len(), |i: int| results[i]@)
}

/// A fired reminder, with the live tail that was read for it.
pub struct Reminder {
    pub event: ReminderEvent,
    pub live: Option<LiveTail>,
}

impl View for Reminder {
    type V = Reminding;

    open spec fn view(&self) -> Reminding {
        Reminding {
            pid: self.event.pid,
            elapsed: self.event.elapsed_secs,
            live: live_of(self.live),
        }
    }
}

/// Reminders, by what they hold.
pub open spec fn reminders_of(reminders: Seq<Reminder>) -> Seq<Reminding> {
    Seq::new(reminders.len(), |i: int| reminders[i]@)
}

/// Fired reminders, each with the live tail at its place.
pub open spec fn remindings(
    events: Seq<ReminderEvent>,
    lives: Seq<Option<(Seq<char>, Seq<char>)>>,
) -> Seq<Reminding> {
    Seq::new(
        events.len(),
        |i: int|
            Reminding { pid: events[i].pid, elapsed: events[i].elapsed_secs, live: lives[i] },
    )
}

/// Whether a live tail can be what was read of a task: only a running MCP task
/// has one, it goes out under a nonce that is not the task's own, which EXIT will
/// use, and it is the end of what the task's ring held.
pub open spec fn live_read(
    s: State,
    pid: u64,
    n: nat,
    live: Option<(Seq<char>, Seq<char>)>,
) -> bool {
    live matches Some((nonce, text)) ==> running(s, pid) && s.tasks[pid].kind is Mcp && is_nonce(
        nonce,
    ) && drawn_nonce(nonce) && nonce_of(s, pid) != Some(nonce) && live_text(text, n)
}

/// What reading the live tail of a task answers where its ring held `ring` at
/// that moment: the latest `n` characters under a nonce that is not the task's
/// own, or the failure to draw one. Where the ring was empty no nonce is needed and
/// nothing is answered, and so it is of a task that is not a running MCP task.
pub open spec fn live_answer(
    s: State,
    pid: u64,
    n: nat,
    ring: Seq<u8>,
    r: Result<Option<LiveTail>, DispatchError>,
) -> bool {
    if running(s, pid) && s.tasks[pid].kind is Mcp {
        match live_part(ring, n) {
            Some(text) => match r {
                Ok(Some(live)) => is_nonce(live.nonce@) && drawn_nonce(live.nonce@) && nonce_of(
                    s,
                    pid,
                ) != Some(live.nonce@) && live.text@ == text && shows_exactly(ring, n, live.text@),
                Ok(None) => false,
                Err(e) => e is EntropyUnavailable && none_fresh(nonce_of(s, pid)),
            },
            None => r matches Ok(None),
        }
    } else {
        r matches Ok(None)
    }
}

/// Something that a caller who waits is told of.
pub enum WaitEvent {
    /// The wait begins.
    Started,
    /// A background task came to a result.
    Result(TaskResult),
    /// A reminder fired.
    Reminder(Reminder),
    /// No event can come any more.
    Closed,
}

impl View for WaitEvent {
    type V = WaitEventView;

    open spec fn view(&self) -> WaitEventView {
        match self {
            WaitEvent::Started => WaitEventView::Started,
            WaitEvent::Result(result) => WaitEventView::Result(result@),
            WaitEvent::Reminder(reminder) => WaitEventView::Reminder(reminder@),
            WaitEvent::Closed => WaitEventView::Closed,
        }
    }
}

/// What becomes of a wait.
#[derive(Debug)]
pub enum WaitStep {
    /// The caller is woken with this text.
    Wake(String),
    /// The wait goes on.
    Continue,
}

/// The REMIND signal of a task that still runs.
fn remind_entry(reminder: Reminder) -> (r: SignalEntry)
    ensures
        r@ == remind_signal(reminder@.pid, reminder@.elapsed, reminder@.live),
{
    let mut s: String = "Running for ".to_owned();
    s.append(decimal_string(reminder.event.elapsed_secs).as_str());
    s.append("s");
    match reminder.live {
        Some(live) => {
            s.append(" ");
            s.append(tail_message(live.nonce.as_str(), live.text.as_str()).as_str());
            proof {
                assert(s@ =~= remind_message(reminder@.elapsed, reminder@.live));
            }
            SignalEntry::new(reminder.event.pid, SignalKind::Remind, s).with_nonce(live.nonce)
        },
        None => {
            proof {
                assert(s@ =~= remind_message(reminder@.elapsed, reminder@.live));
            }
            SignalEntry::new(reminder.event.pid, SignalKind::Remind, s)
        },
    }
}

/// Whether two sessions are the same.
fn same_session(a: &Option<String>, b: &Option<String>) -> (r: bool)
    ensures
        r == (text_of(*a) == text_of(*b)),
{
    match a {
        Some(x) => match b {
            Some(y) => *x == *y,
            None => false,
        },
        None => b.is_none(),
    }
}

impl Orchestrator {
    /// The live tail of a task: the latest `n` characters of its ring, under a
    /// fresh nonce. Nothing for a task that is not a running MCP task, or whose
    /// ring is empty.
    pub fn read_live(&self, pid: u64, n: usize) -> (r: Result<Option<LiveTail>, DispatchError>)
        requires
            self.wf(),
        ensures
            match r {
                Ok(live) => live_read(self@, pid, n as nat, live_of(live)) && self.live_seen(
                    pid,
                    n as nat,
                    live_of(live),
                ),
                Err(e) => e is EntropyUnavailable && self.live_failed(pid),
            },
            running(self@, pid) && self@.tasks[pid].kind is Mcp ==> exists|ring: Seq<u8>| #[trigger]
                self.tail_of(pid)->0.held(ring) && ring.len() <= TAIL_BUFFER_CAP && live_answer(
                    self@,
                    pid,
                    n as nat,
                    ring,
                    r,
                ),
            r matches Ok(Some(live)) ==> nonce_of(self@, pid) != Some(live.nonce@),
            !(running(self@, pid) && self@.tasks[pid].kind is Mcp) ==> r is Ok,
    {
        let mut own: Option<String> = None;
        let tail: Option<TaskTail> = match self.tasks.get(&pid) {
            Some(task) => {
                own = copy_text(&task.nonce);
                match &task.tail {
                    Some(tail) => Some(tail.clone()),
                    None => None,
                }
            },
            None => None,
        };
        match tail {
            Some(tail) => {
                proof {
                    assert(self@.tasks.contains_key(pid));
                }
                let ring: Vec<u8> = tail.contents();
                let drawn: Result<String, DispatchError> = nonce::other_than(
                    nonce::generate(),
                    &own,
                );
                let r: Result<Option<LiveTail>, DispatchError> = live_tail(
                    ring.as_slice(),
                    n,
                    drawn,
                );
                proof {
                    assert(self.tail_of(pid)->0.held(ring@));
                    assert(live_answer(self@, pid, n as nat, ring@, r));
                }
                r
            },
            None => Ok(None),
        }
    }

    /// Status of every task, in no particular order, with the latest `n`
    /// characters of what each running MCP task has written to stderr.
    pub fn status_with_tail(&self, n: usize, now: u64) -> (r: Result<
        Vec<TaskStatus>,
        DispatchError,
    >)
        requires
            self.wf(),
        ensures
            match r {
                Ok(statuses) => {
                    &&& forall|i: int|
                        0 <= i < statuses@.len() ==> self@.tasks.contains_key(
                            (#[trigger] statuses@[i]).pid,
                        ) && exists|live: Option<(Seq<char>, Seq<char>)>|
                            live_read(self@, statuses@[i].pid, n as nat, live) && self.live_seen(
                                statuses@[i].pid,
                                n as nat,
                                live,
                            ) && statuses@[i]@ == #[trigger] status_with(
                                self@.tasks[statuses@[i].pid],
                                now,
                                live,
                            )
                    &&& forall|i: int, j: int|
                        0 <= i < j < statuses@.len() ==> (#[trigger] statuses@[i]).pid != (
                        #[trigger] statuses@[j]).pid
                    &&& forall|pid: u64| #[trigger]
                        self@.tasks.contains_key(pid) ==> exists|i: int|
                            0 <= i < statuses@.len() && (#[trigger] statuses@[i]).pid == pid
                },
                Err(e) => e is EntropyUnavailable && exists|pid: u64| #[trigger]
                    self.live_failed(pid),
            },
            !any_running(self@) ==> r is Ok,
    {
        let pids: Vec<u64> = keys_of(&self.tasks);
        let mut statuses: Vec<TaskStatus> = Vec::new();
        let mut i: usize = 0;
        while i < pids.len()
            invariant
                i <= pids@.len(),
                self.wf(),
                forall|k: u64| pids@.contains(k) <==> self.tasks@.contains_key(k),
                statuses@.len() == i,
                forall|k: int|
                    0 <= k < i ==> (#[trigger] statuses@[k]).pid == pids@[k] && exists|
                        live: Option<(Seq<char>, Seq<char>)>,
                    |
                        live_read(self@, pids@[k], n as nat, live) && self.live_seen(
                            pids@[k],
                            n as nat,
                            live,
                        ) && statuses@[k]@ == #[trigger] status_with(
                            self@.tasks[pids@[k]],
                            now,
                            live,
                        ),
            decreases pids@.len() - i,
        {
            let pid: u64 = pids[i];
            proof {
                assert(pids@.contains(pid));
            }
            let live: Option<LiveTail> = match self.read_live(pid, n) {
                Ok(live) => live,
                Err(e) => {
                    proof {
                        assert(running(self@, pid));
                    }
                    return Err(e);
                },
            };
            match self.tasks.get(&pid) {
                Some(task) => {
                    proof {
                        assert(self@.tasks.contains_key(pid));
                    }
                    let status: TaskStatus = TaskStatus::with_tail(task, now, live);
                    proof {
                        assert(status@ == status_with(self@.tasks[pid], now, live_of(live)));
                    }
                    statuses.push(status);
                },
                None => {},
            }
            i = i + 1;
        }
        proof {
            assert forall|k: int| 0 <= k < statuses@.len() implies self@.tasks.contains_key(
                (#[trigger] statuses@[k]).pid,
            ) by {
                assert(pids@.contains(pids@[k]));
            }
            assert forall|pid: u64| #[trigger] self@.tasks.contains_key(pid) implies exists|k: int|
                0 <= k < statuses@.len() && (#[trigger] statuses@[k]).pid == pid by {
                assert(pids@.contains(pid));
                let k = pids@.index_of(pid);
                assert(statuses@[k].pid == pid);
            }
        }
        Ok(statuses)
    }

    /// Whether the signals of a task's result are emitted at once.
    fn emits_at_once(&self, pid: u64) -> (r: bool)
        ensures
            r == fires_wake(self@, pid),
    {
        match self.tasks.get(&pid) {
            Some(task) => match &task.kind {
                TaskKind::Mcp(def) => def.fire_wake,
                TaskKind::Timer(_) => true,
            },
            None => true,
        }
    }

    /// Whether a task's result wakes a caller that waits, though other tasks run.
    fn wakes_waiting(&self, pid: u64) -> (r: bool)
        ensures
            r == wakes_waiter(self@, pid),
    {
        match self.tasks.get(&pid) {
            Some(task) => match &task.kind {
                TaskKind::Mcp(def) => def.fire_wake,
                TaskKind::Timer(_) => false,
            },
            None => false,
        }
    }

    /// Signals join the group of their session.
    fn hold(&mut self, session: Option<String>, signals: Vec<SignalEntry>)
        requires
            old(self).wf(),
            signals@.len() > 0,
            all_emittable(signals_of(signals@)),
            all_quiet(old(self)@, text_of(session), signals_of(signals@)),
        ensures
            final(self).wf(),
            final(self).keeps_tails(*old(self)),
            final(self)@ == (State {
                held: joined_held(old(self)@.held, text_of(session), signals_of(signals@)),
                ..old(self)@
            }),
    {
        let ghost before = self@;
        let ghost key = text_of(session);
        let ghost new = signals_of(signals@);
        let mut more: Vec<SignalEntry> = signals;
        let mut i: usize = 0;
        while i < self.held.len()
            invariant
                i <= self.held@.len(),
                before == old(self)@,
                *self == *old(self),
                self.wf(),
                key == text_of(session),
                new == signals_of(signals@),
                more@ == signals@,
                new.len() > 0,
                all_emittable(new),
                all_quiet(before, key, new),
                forall|k: int| 0 <= k < i ==> !group_at(before.held, key, k),
            decreases self.held@.len() - i,
        {
            if same_session(&self.held[i].session, &session) {
                proof {
                    assert(group_at(before.held, key, i as int));
                    let c = choose|k: int| group_at(before.held, key, k);
                    assert(group_at(before.held, key, c));
                    assert(before.held[i as int].session == before.held[c].session);
                    assert(c == i);
                }
                self.held[i].signals.append(&mut more);
                proof {
                    assert(signals_of(self.held@[i as int].signals@) =~= before.held[i as int].signals
                        + new);
                    assert(self@.held =~= joined_held(before.held, key, new));
                }
                return;
            }
            i = i + 1;
        }
        self.held.push(HeldGroup { session, signals: more });
        proof {
            assert forall|k: int| 0 <= k < before.held.len() implies before.held[k].session != key by {
                assert(!group_at(before.held, key, k));
            }
            assert(self@.held =~= joined_held(before.held, key, new));
        }
    }

    /// Drain one result: its signals are emitted one by one, or held for their
    /// session.
    fn drain_result(&mut self, result: TaskResult, emit: &mut Vec<Emission>)
        requires
            old(self).wf(),
        ensures
            final(self).wf(),
            final(self).keeps_tails(*old(self)),
            ({
                let d = drained_result(
                    Drain { state: old(self)@, out: emissions_of(old(emit)@) },
                    result@,
                );
                final(self)@ == d.state && emissions_of(final(emit)@) == d.out
            }),
    {
        let pid: u64 = result.pid;
        let ghost before = self@;
        let ghost emitted = emit@;
        if self.is_prevented(pid) {
            return;
        }
        let at_once: bool = self.emits_at_once(pid);
        let session: Option<String> = match self.pid_to_session.get(&pid) {
            Some(id) => Some(id.clone()),
            None => None,
        };
        let signals: Vec<SignalEntry> = self.handle_task_result(result);
        let ghost made = signals_of(signals@);
        if at_once {
            for signal in it: signals.into_iter()
                invariant
                    it.seq() == signals@,
                    made == signals_of(signals@),
                    emissions_of(emit@) == emissions_of(emitted) + singles(made).take(it.index()),
            {
                let ghost so_far = emit@;
                emit.push(Emission::Single(signal));
                proof {
                    assert(signal@ == made[it.index() as int]);
                    assert(emissions_of(emit@) =~= emissions_of(so_far).push(
                        singles(made)[it.index() as int],
                    ));
                    assert(emissions_of(emit@) =~= emissions_of(emitted) + singles(made).take(
                        it.index() + 1,
                    ));
                }
            }
            proof {
                assert(singles(made).take(made.len() as int) =~= singles(made));
            }
        } else {
            proof {
                let after = resulted(before, result@);
                assert(after.sessions == before.sessions) by {
                    reveal_with_fuel(all_signalled, 3);
                }
                assert forall|i: int| 0 <= i < made.len() implies session_of(
                    after,
                    (#[trigger] made[i]).pid,
                ) == text_of(session) && !fires_wake(after, made[i].pid) by {
                    assert(made[i].pid == pid);
                }
            }
            self.hold(session, signals);
        }
    }

    /// Drain one reminder: that of a task that still runs is signalled and
    /// emitted, any other is dropped.
    fn drain_reminder(&mut self, reminder: Reminder, emit: &mut Vec<Emission>)
        requires
            old(self).wf(),
        ensures
            final(self).wf(),
            final(self).keeps_tails(*old(self)),
            ({
                let d = drained_reminder(
                    Drain { state: old(self)@, out: emissions_of(old(emit)@) },
                    reminder@,
                );
                final(self)@ == d.state && emissions_of(final(emit)@) == d.out
            }),
    {
        let ghost emitted = emit@;
        if self.is_running(reminder.event.pid) {
            let entry: SignalEntry = remind_entry(reminder);
            self.signal(entry.clone());
            emit.push(Emission::Single(entry));
            proof {
                assert(emissions_of(emit@) =~= emissions_of(emitted).push(
                    EmissionView::Single(
                        remind_signal(reminder@.pid, reminder@.elapsed, reminder@.live),
                    ),
                ));
            }
        }
    }

    /// Move held fire_wake=false signals into `emit` for every session whose
    /// tasks have all finished. Killing a session's last running task settles it
    /// too.
    fn flush_settled_sessions(&mut self, emit: &mut Vec<Emission>)
        requires
            old(self).wf(),
        ensures
            final(self).wf(),
            final(self).keeps_tails(*old(self)),
            ({
                let d = flushed(Drain { state: old(self)@, out: emissions_of(old(emit)@) });
                final(self)@ == d.state && emissions_of(final(emit)@) == d.out
            }),
    {
        let ghost before = self@;
        let ghost out = emissions_of(emit@);
        let mut groups: Vec<HeldGroup> = Vec::new();
        std::mem::swap(&mut groups, &mut self.held);
        let ghost held = groups_of(groups@);
        proof {
            assert(held == before.held);
            assert(held.take(0) =~= Seq::<Held>::empty());
            assert(emissions_of(emit@) =~= out + batches(before, held.take(0)));
            assert(groups_of(self.held@) =~= still_held(before, held.take(0)));
            assert(self@ =~= (State { held: self@.held, ..before }));
        }
        for group in it: groups.into_iter()
            invariant
                it.seq() == groups@,
                held == groups_of(groups@),
                held == before.held,
                self.tasks@ == old(self).tasks@,
                self.signal_window.wf(),
                self.signal_window.size() == DEFAULT_WINDOW_SIZE,
                self@ == (State { held: still_held(before, held.take(it.index())), ..before }),
                emissions_of(emit@) == out + batches(before, held.take(it.index())),
        {
            let ghost upto = held.take(it.index() + 1);
            let ghost emitted = emit@;
            let ghost kept = self.held@;
            proof {
                assert(upto.drop_last() =~= held.take(it.index()));
                assert(upto.last() == group@);
                lemma_same_tasks(self@, before, group@.session);
            }
            if self.session_has_running(&group.session) {
                self.held.push(group);
                proof {
                    assert(groups_of(self.held@) =~= groups_of(kept).push(group@));
                }
            } else if group.signals.len() > 0 {
                emit.push(Emission::Batch(group.signals));
                proof {
                    assert(emissions_of(emit@) =~= emissions_of(emitted).push(
                        EmissionView::Batch(group@.signals),
                    ));
                    assert(emissions_of(emit@) =~= out + batches(before, upto));
                }
            }
            proof {
                assert(self@ =~= (State { held: still_held(before, upto), ..before }));
            }
        }
        proof {
            assert(held.take(held.len() as int) =~= held);
            lemma_still_held(before, held);
            lemma_still_held_distinct(before, held);
        }
    }

    /// Drain completed task results and fired reminders into the signal window,
    /// returning the signals that should be pushed to the LLM as notifications:
    /// results first, each reminder with the live tail that was read for it next,
    /// and last the held groups of the sessions that have settled.
    pub fn drain_emittable_with(
        &mut self,
        results: Vec<TaskResult>,
        reminders: Vec<Reminder>,
    ) -> (r: Vec<Emission>)
        requires
            old(self).wf(),
        ensures
            final(self).wf(),
            final(self).keeps_tails(*old(self)),
            final(self)@ == drained(
                old(self)@,
                results_of(results@),
                reminders_of(reminders@),
            ).state,
            emissions_of(r@) == drained(
                old(self)@,
                results_of(results@),
                reminders_of(reminders@),
            ).out,
    {
        let ghost before = self@;
        let ghost all = results_of(results@);
        let ghost events = reminders_of(reminders@);
        let mut emit: Vec<Emission> = Vec::new();
        proof {
            assert(all.take(0) =~= Seq::<TaskResultView>::empty());
            assert(emissions_of(emit@) =~= Seq::<EmissionView>::empty());
        }
        for result in it: results.into_iter()
            invariant
                self.wf(),
                self.keeps_tails(*old(self)),
                it.seq() == results@,
                all == results_of(results@),
                self@ == drained_results(before, all.take(it.index())).state,
                emissions_of(emit@) == drained_results(before, all.take(it.index())).out,
        {
            proof {
                let upto = all.take(it.index() + 1);
                assert(upto.drop_last() =~= all.take(it.index()));
                assert(upto.last() == result@);
            }
            self.drain_result(result, &mut emit);
        }
        let ghost between = drained_results(before, all);
        proof {
            assert(all.take(all.len() as int) =~= all);
            assert(events.take(0) =~= Seq::<Reminding>::empty());
        }
        for reminder in it: reminders.into_iter()
            invariant
                self.wf(),
                self.keeps_tails(*old(self)),
                it.seq() == reminders@,
                events == reminders_of(reminders@),
                self@ == drained_reminders(between, events.take(it.index())).state,
                emissions_of(emit@) == drained_reminders(between, events.take(it.index())).out,
        {
            proof {
                let upto = events.take(it.index() + 1);
                assert(upto.drop_last() =~= events.take(it.index()));
                assert(upto.last() == reminder@);
            }
            self.drain_reminder(reminder, &mut emit);
        }
        proof {
            assert(events.take(events.len() as int) =~= events);
        }
        self.flush_settled_sessions(&mut emit);
        emit
    }

    /// Drain completed task results and fired reminders into the signal window,
    /// returning the signals that should be pushed to the LLM as notifications
    /// (EXIT, respecting `fire_wake`, and REMIND). INIT/WAIT/KILL are never
    /// returned: INIT is delivered inline by the dispatch call, WAIT/KILL are
    /// synchronous to the LLM's own tool calls.
    ///
    /// A reminder carries the live tail of its task, under a nonce of its own
    /// from the OS random source. Where that fails nothing is drained: the results
    /// and events that were handed in are lost, and their tasks stay as they were,
    /// so a caller should not go on.
    pub fn drain_emittable(
        &mut self,
        results: Vec<TaskResult>,
        events: Vec<ReminderEvent>,
    ) -> (r: Result<Vec<Emission>, DispatchError>)
        requires
            old(self).wf(),
        ensures
            final(self).wf(),
            final(self).keeps_tails(*old(self)),
            match r {
                Ok(emit) => exists|lives: Seq<Option<(Seq<char>, Seq<char>)>>|
                    {
                        &&& lives.len() == events@.len()
                        &&& forall|i: int|
                            0 <= i < lives.len() ==> live_read(
                                old(self)@,
                                events@[i].pid,
                                REMIND_TAIL_CHARS as nat,
                                #[trigger] lives[i],
                            ) && old(self).live_seen(
                                events@[i].pid,
                                REMIND_TAIL_CHARS as nat,
                                lives[i],
                            )
                        &&& final(self)@ == drained(
                            old(self)@,
                            results_of(results@),
                            #[trigger] remindings(events@, lives),
                        ).state
                        &&& emissions_of(emit@) == drained(
                            old(self)@,
                            results_of(results@),
                            remindings(events@, lives),
                        ).out
                    },
                Err(e) => {
                    &&& e is EntropyUnavailable
                    &&& final(self)@ == old(self)@
                    &&& exists|i: int|
                        0 <= i < events@.len() && old(self).live_failed(
                            (#[trigger] events@[i]).pid,
                        )
                },
            },
            events@.len() == 0 ==> r is Ok,
    {
        let ghost before = self@;
        let mut reminders: Vec<Reminder> = Vec::new();
        let mut i: usize = 0;
        while i < events.len()
            invariant
                i <= events@.len(),
                self.wf(),
                *self == *old(self),
                before == old(self)@,
                reminders@.len() == i,
                forall|k: int|
                    0 <= k < i ==> (#[trigger] reminders@[k]).event == events@[k] && live_read(
                        before,
                        events@[k].pid,
                        REMIND_TAIL_CHARS as nat,
                        live_of(reminders@[k].live),
                    ) && old(self).live_seen(
                        events@[k].pid,
                        REMIND_TAIL_CHARS as nat,
                        live_of(reminders@[k].live),
                    ),
            decreases events@.len() - i,
        {
            let event: ReminderEvent = events[i];
            match self.read_live(event.pid, REMIND_TAIL_CHARS) {
                Ok(live) => reminders.push(Reminder { event, live }),
                Err(e) => {
                    assert(old(self).live_failed(events@[i as int].pid));
                    return Err(e);
                },
            }
            i = i + 1;
        }
        proof {
            let lives = Seq::new(events@.len(), |k: int| live_of(reminders@[k].live));
            assert(reminders_of(reminders@) =~= remindings(events@, lives));
            assert forall|k: int| 0 <= k < lives.len() implies live_read(
                before,
                events@[k].pid,
                REMIND_TAIL_CHARS as nat,
                #[trigger] lives[k],
            ) && old(self).live_seen(
                events@[k].pid,
                REMIND_TAIL_CHARS as nat,
                lives[k],
            ) by {
                assert(reminders@[k].event == events@[k]);
            }
        }
        Ok(self.drain_emittable_with(results, reminders))
    }

    /// Take in results without emitting anything.
    pub fn drain_results(&mut self, results: Vec<TaskResult>)
        requires
            old(self).wf(),
        ensures
            final(self).wf(),
            final(self).keeps_tails(*old(self)),
            final(self)@ == all_resulted(old(self)@, results_of(results@)),
    {
        let ghost before = self@;
        let ghost all = results_of(results@);
        proof {
            assert(all.take(0) =~= Seq::<TaskResultView>::empty());
        }
        for result in it: results.into_iter()
            invariant
                self.wf(),
                self.keeps_tails(*old(self)),
                it.seq() == results@,
                all == results_of(results@),
                self@ == all_resulted(before, all.take(it.index())),
        {
            proof {
                let upto = all.take(it.index() + 1);
                assert(upto.drop_last() =~= all.take(it.index()));
                assert(upto.last() == result@);
            }
            let _ = self.handle_task_result(result);
        }
        proof {
            assert(all.take(all.len() as int) =~= all);
        }
    }

    /// One step of waiting for an event: whether the caller is woken, and with
    /// what, or the wait goes on. A caller with no running task is woken at once.
    pub fn wait_for_event(&mut self, event: WaitEvent) -> (r: Result<WaitStep, DispatchError>)
        requires
            old(self).wf(),
        ensures
            final(self).wf(),
            final(self).keeps_tails(*old(self)),
            final(self)@ == wait_step(old(self)@, event@).0,
            match wait_step(old(self)@, event@).1 {
                WaitOutcome::Wake(text) => r matches Ok(WaitStep::Wake(s)) && s@ == text,
                WaitOutcome::Continue => r matches Ok(WaitStep::Continue),
                WaitOutcome::Closed => r matches Err(DispatchError::ChannelClosed),
            },
    {
        match event {
            WaitEvent::Started => if self.has_running_tasks() {
                Ok(WaitStep::Continue)
            } else {
                Ok(WaitStep::Wake(self.wakeup_context()))
            },
            WaitEvent::Result(result) => {
                let fire_wake: bool = self.wakes_waiting(result.pid);
                let _ = self.handle_task_result(result);
                if !self.has_running_tasks() || fire_wake {
                    Ok(WaitStep::Wake(self.wakeup_context()))
                } else {
                    Ok(WaitStep::Continue)
                }
            },
            WaitEvent::Reminder(reminder) => if self.is_running(reminder.event.pid) {
                self.signal(remind_entry(reminder));
                Ok(WaitStep::Wake(self.wakeup_context()))
            } else {
                Ok(WaitStep::Continue)
            },
            WaitEvent::Closed => Err(DispatchError::ChannelClosed),
        }
    }
}

impl Default for Orchestrator {
    fn default() -> (r: Self)
        ensures
            r.wf(),
            r@ == initial(),
    {
        Orchestrator::new()
    }
}

} // verus!
