//! Tasks: what a caller asks for, what is tracked while it runs, and what
//! `status` shows of it.

use vstd::prelude::*;
use serde_json::Value;
use crate::error::DispatchError;
use crate::json;
use crate::json::Json;
use crate::tail::{latest_text, TaskTail};
#[allow(unused_imports)]
use crate::tail::{shows_exactly, tail_text, TAIL_BUFFER_CAP};
use crate::text::decimal_string;
#[allow(unused_imports)]
use crate::text::{decimal, text_of};
use crate::tool_meta::ToolMeta;

verus! {

/// Task state machine: Init → Running → Exit | Killed
#[derive(Debug, Clone, Copy, PartialEq, Eq, Structural)]
pub enum TaskState {
    Running,
    Exited,
    Killed,
}

/// Whether a task wakes the LLM on its own exit where the caller says nothing.
pub fn default_fire_wake() -> (r: bool)
    ensures
        r,
{
    true
}

/// A task definition as received from the LLM (MCP server call).
#[derive(Debug)]
pub struct TaskDef {
    pub server: String,
    pub tool: String,
    pub params: Value,
    /// Seconds between reminders while the task runs. Three distinct values:
    /// `Some(n>0)` is the caller's own interval, `Some(0)` is an explicit
    /// opt-out ("no reminder, and I mean it"), and absent/`null` is *no
    /// preference*: the only case in which a `blocking` tool's manifest may
    /// supply one on the caller's behalf.
    pub remind_after: Option<u64>,
    /// Wake the LLM when the task exits, even if other tasks are still running.
    /// Default: true. Set to false for fire-and-forget background tasks where
    /// you don't need per-task wakeups: the LLM will only be woken when all
    /// fire_wake=false tasks finish together or a reminder fires.
    pub fire_wake: bool,
    /// Store output out-of-band instead of inlining it in the EXIT signal.
    /// Use for large payloads where inline content would bloat the signal window.
    pub defer_output: bool,
    /// Route the task through a persistent dmcp session when the dispatch call
    /// also carries a top-level `session_id`: the spawned `dmcp call` gains
    /// `--session <id>`, so the broker reuses one live in-process server (browser,
    /// REPL, DB connection) across the goal's calls. Without a session_id it is
    /// ignored and the task runs one-shot. Default: false.
    pub stateful: bool,
}

/// A task definition, by what it holds.
pub struct TaskDefView {
    pub server: Seq<char>,
    pub tool: Seq<char>,
    pub params: Json,
    pub remind_after: Option<u64>,
    pub fire_wake: bool,
    pub defer_output: bool,
    pub stateful: bool,
}

impl View for TaskDef {
    type V = TaskDefView;

    open spec fn view(&self) -> TaskDefView {
        TaskDefView {
            server: self.server@,
            tool: self.tool@,
            params: json::json_of(self.params),
            remind_after: self.remind_after,
            fire_wake: self.fire_wake,
            defer_output: self.defer_output,
            stateful: self.stateful,
        }
    }
}

impl Clone for TaskDef {
    fn clone(&self) -> (r: Self)
        ensures
            r@ == self@,
    {
        TaskDef {
            server: self.server.clone(),
            tool: self.tool.clone(),
            params: self.params.clone(),
            remind_after: self.remind_after,
            fire_wake: self.fire_wake,
            defer_output: self.defer_output,
            stateful: self.stateful,
        }
    }
}

/// A task on its way into the orchestrator: the caller's definition plus what
/// the tool's own manifest declares about it.
///
/// The two are kept apart rather than folded into `TaskDef` because they have
/// different provenance (one is the LLM's request, the other is the server
/// author's declaration) and because reading a manifest means spawning dmcp,
/// which the synchronous fire-and-return `dispatch` path cannot do. The MCP
/// layer resolves the metadata first and hands the pair in.
#[derive(Debug)]
pub struct PreparedTask {
    pub def: TaskDef,
    pub tool_meta: Option<ToolMeta>,
}

/// A prepared task, by what it holds.
pub struct PreparedView {
    pub def: TaskDefView,
    pub tool_meta: Option<ToolMeta>,
}

impl View for PreparedTask {
    type V = PreparedView;

    open spec fn view(&self) -> PreparedView {
        PreparedView { def: self.def@, tool_meta: self.tool_meta }
    }
}

impl PreparedTask {
    /// A task with no manifest metadata.
    pub fn bare(def: TaskDef) -> (r: Self)
        ensures
            r@ == (PreparedView { def: def@, tool_meta: None }),
    {
        PreparedTask { def, tool_meta: None }
    }
}

/// A timer definition as received from the LLM.
#[derive(Debug)]
pub struct TimerDef {
    pub label: String,
    pub duration: u64,
    pub metadata: Option<Value>,
}

/// A timer definition, by what it holds.
pub struct TimerDefView {
    pub label: Seq<char>,
    pub duration: u64,
    pub metadata: Option<Json>,
}

impl View for TimerDef {
    type V = TimerDefView;

    open spec fn view(&self) -> TimerDefView {
        TimerDefView {
            label: self.label@,
            duration: self.duration,
            metadata: json::json_of_opt(self.metadata),
        }
    }
}

impl Clone for TimerDef {
    fn clone(&self) -> (r: Self)
        ensures
            r@ == self@,
    {
        TimerDef {
            label: self.label.clone(),
            duration: self.duration,
            metadata: json::copy_opt(&self.metadata),
        }
    }
}

/// What kind of task this is.
#[derive(Debug)]
pub enum TaskKind {
    Mcp(TaskDef),
    Timer(TimerDef),
}

/// A kind of task, by what it holds.
pub enum TaskKindView {
    Mcp(TaskDefView),
    Timer(TimerDefView),
}

impl View for TaskKind {
    type V = TaskKindView;

    open spec fn view(&self) -> TaskKindView {
        match self {
            TaskKind::Mcp(def) => TaskKindView::Mcp(def@),
            TaskKind::Timer(def) => TaskKindView::Timer(def@),
        }
    }
}

/// A live task being tracked by the orchestrator.
pub struct Task {
    pub pid: u64,
    pub kind: TaskKind,
    pub state: TaskState,
    /// When the task started, in nanoseconds on the monotonic clock of the
    /// process.
    pub started_at: u64,
    /// Provenance nonce for MCP tasks; None for timers (no external output).
    pub nonce: Option<String>,
    /// Live stderr ring while the task runs (MCP tasks only; timers have no
    /// child process). Dropped when the task settles (EXIT/KILL): the EXIT
    /// signal already carries the task's real output, so nothing legitimate
    /// reads the tail afterwards.
    pub tail: Option<TaskTail>,
    /// Reminder interval dispatch armed on the caller's behalf because the
    /// tool's manifest marks it blocking (`None` when the caller decided).
    /// Surfaced by `status` so injected behavior is never silent.
    pub auto_remind_after: Option<u64>,
}

/// A task, by what it holds. Of the live tail, which others write to, only that
/// there is one.
pub struct TaskView {
    pub pid: u64,
    pub kind: TaskKindView,
    pub state: TaskState,
    pub started_at: u64,
    pub nonce: Option<Seq<char>>,
    pub has_tail: bool,
    pub auto_remind_after: Option<u64>,
}

impl View for Task {
    type V = TaskView;

    open spec fn view(&self) -> TaskView {
        TaskView {
            pid: self.pid,
            kind: self.kind@,
            state: self.state,
            started_at: self.started_at,
            nonce: text_of(self.nonce),
            has_tail: self.tail is Some,
            auto_remind_after: self.auto_remind_after,
        }
    }
}

/// The text of a call's parameters, where they say anything: null and the object
/// without members do not.
pub open spec fn params_given(params: Json) -> Option<Seq<char>> {
    if params is Null || json::is_empty_object(params) {
        None
    } else {
        Some(json::json_text(params))
    }
}

/// The description of a call: server and tool, and the text of the parameters
/// where there is one.
pub open spec fn call_description_of(
    server: Seq<char>,
    tool: Seq<char>,
    params: Option<Seq<char>>,
) -> Seq<char> {
    server + "/"@ + tool + (match params {
        Some(text) => " "@ + text,
        None => Seq::empty(),
    })
}

/// The short description of a task for signal messages.
pub open spec fn description_of(kind: TaskKindView) -> Seq<char> {
    match kind {
        TaskKindView::Mcp(def) => call_description_of(
            def.server,
            def.tool,
            params_given(def.params),
        ),
        TaskKindView::Timer(def) => "timer \""@ + def.label + "\" ("@ + decimal(
            def.duration as nat,
        ) + "s)"@,
    }
}

/// The description of a call, from the text of its parameters.
pub fn call_description(server: &str, tool: &str, params: &Option<String>) -> (r: String)
    ensures
        r@ == call_description_of(server@, tool@, text_of(*params)),
{
    let mut s: String = server.to_owned();
    s.append("/");
    s.append(tool);
    match params {
        Some(text) => {
            s.append(" ");
            s.append(text.as_str());
        },
        None => {},
    }
    proof {
        assert(s@ =~= call_description_of(server@, tool@, text_of(*params)));
    }
    s
}

/// The text of a call's parameters, or nothing where they are null or an object
/// without members.
pub(crate) fn params_text(params: &Value) -> (r: Option<String>)
    ensures
        text_of(r) == params_given(json::json_of(*params)),
{
    if json::null(params) || json::empty_object(params) {
        None
    } else {
        Some(json::display(params))
    }
}

/// A task of an MCP call as it starts.
pub open spec fn started_mcp(pid: u64, def: TaskDefView, nonce: Seq<char>, now: u64) -> TaskView {
    TaskView {
        pid,
        kind: TaskKindView::Mcp(def),
        state: TaskState::Running,
        started_at: now,
        nonce: Some(nonce),
        has_tail: true,
        auto_remind_after: None,
    }
}

/// A timer as it starts.
pub open spec fn started_timer(pid: u64, def: TimerDefView, now: u64) -> TaskView {
    TaskView {
        pid,
        kind: TaskKindView::Timer(def),
        state: TaskState::Running,
        started_at: now,
        nonce: None,
        has_tail: false,
        auto_remind_after: None,
    }
}

/// A task that has settled in a state: its tail is gone.
pub open spec fn settled(task: TaskView, state: TaskState) -> TaskView {
    TaskView { state, has_tail: false, ..task }
}

impl Task {
    /// What holds of every task: a timer has neither nonce nor tail, an MCP task
    /// has a nonce, and has a tail of `TAIL_BUFFER_CAP` bytes, empty at first,
    /// exactly while it runs.
    pub open spec fn wf(&self) -> bool {
        task_wf(self@) && (self.tail matches Some(tail) ==> tail.cap() == TAIL_BUFFER_CAP
            && tail.began_with(Seq::empty()))
    }

    /// A running MCP task with a fresh tail. `nonce` is its boundary token, `now`
    /// the reading of the clock.
    pub fn new_mcp(pid: u64, def: TaskDef, nonce: String, now: u64) -> (r: Self)
        ensures
            r@ == started_mcp(pid, def@, nonce@, now),
            r.wf(),
    {
        Task {
            pid,
            kind: TaskKind::Mcp(def),
            state: TaskState::Running,
            started_at: now,
            nonce: Some(nonce),
            tail: Some(TaskTail::new()),
            auto_remind_after: None,
        }
    }

    /// A running timer. `now` is the reading of the clock.
    pub fn new_timer(pid: u64, def: TimerDef, now: u64) -> (r: Self)
        ensures
            r@ == started_timer(pid, def@, now),
            r.wf(),
    {
        Task {
            pid,
            kind: TaskKind::Timer(def),
            state: TaskState::Running,
            started_at: now,
            nonce: None,
            tail: None,
            auto_remind_after: None,
        }
    }

    pub fn is_running(&self) -> (r: bool)
        ensures
            r == (self@.state is Running),
    {
        self.state == TaskState::Running
    }

    pub fn mark_exited(&mut self)
        ensures
            final(self)@ == settled(old(self)@, TaskState::Exited),
            old(self).wf() ==> final(self).wf(),
    {
        self.state = TaskState::Exited;
        self.tail = None;
    }

    pub fn mark_killed(&mut self)
        ensures
            final(self)@ == settled(old(self)@, TaskState::Killed),
            old(self).wf() ==> final(self).wf(),
    {
        self.state = TaskState::Killed;
        self.tail = None;
    }

    /// Short description for signal messages.
    pub fn description(&self) -> (r: String)
        ensures
            r@ == description_of(self@.kind),
    {
        match &self.kind {
            TaskKind::Mcp(def) => {
                let params: Option<String> = params_text(&def.params);
                call_description(def.server.as_str(), def.tool.as_str(), &params)
            },
            TaskKind::Timer(def) => {
                let mut s: String = "timer \"".to_owned();
                s.append(def.label.as_str());
                s.append("\" (");
                s.append(decimal_string(def.duration).as_str());
                s.append("s)");
                s
            },
        }
    }

    /// The definition of an MCP task.
    pub fn mcp_def(&self) -> (r: &TaskDef)
        requires
            self@.kind is Mcp,
        ensures
            self@.kind == TaskKindView::Mcp(r@),
    {
        match &self.kind {
            TaskKind::Mcp(def) => def,
            TaskKind::Timer(_) => vstd::pervasive::unreached(),
        }
    }

    /// The definition of a timer.
    pub fn timer_def(&self) -> (r: &TimerDef)
        requires
            self@.kind is Timer,
        ensures
            self@.kind == TaskKindView::Timer(r@),
    {
        match &self.kind {
            TaskKind::Timer(def) => def,
            TaskKind::Mcp(_) => vstd::pervasive::unreached(),
        }
    }
}

/// What holds of every task.
pub open spec fn task_wf(task: TaskView) -> bool {
    match task.kind {
        TaskKindView::Mcp(_) => task.nonce is Some && (task.has_tail <==> task.state is Running),
        TaskKindView::Timer(_) => task.nonce is None && !task.has_tail,
    }
}

/// Nanoseconds in a second.
pub const NANOS_PER_SEC: u64 = 1_000_000_000;

/// Whole seconds between two readings of the clock; none where the second is not
/// the later one.
pub open spec fn whole_secs(from: u64, to: u64) -> u64 {
    if to < from {
        0
    } else {
        ((to - from) as nat / NANOS_PER_SEC as nat) as u64
    }
}

/// Seconds of a duration that are left after some of it has passed.
pub open spec fn secs_left(duration: u64, passed: u64) -> u64 {
    if passed < duration {
        (duration - passed) as u64
    } else {
        0
    }
}

/// Status snapshot of a task, suitable for serialization.
#[derive(Debug)]
pub struct TaskStatus {
    pub pid: u64,
    pub kind: TaskStatusKind,
    pub state: TaskState,
    /// Live stderr tail (`status {"tail": n}`; running MCP tasks only),
    /// wrapped `[hash=h] <h>…</h>` exactly like EXIT output. Absent where no tail
    /// was asked for.
    pub tail: Option<String>,
    /// Nonce wrapping `tail`, for JSON consumers (mirrors `SignalEntry.nonce`).
    pub tail_hash: Option<String>,
    /// Reminder interval dispatch armed that the caller did not ask for (a
    /// `blocking` tool's suggestion or the built-in default). Absent for a task
    /// whose reminder the caller chose, or that has none.
    pub auto_remind_after: Option<u64>,
}

#[derive(Debug)]
pub enum TaskStatusKind {
    Mcp { server: String, tool: String },
    Timer {
        label: String,
        /// Seconds until the timer fires (0 if already fired).
        fires_in: u64,
    },
}

/// A status snapshot, by what it holds.
pub struct TaskStatusView {
    pub pid: u64,
    pub kind: TaskStatusKindView,
    pub state: TaskState,
    pub tail: Option<Seq<char>>,
    pub tail_hash: Option<Seq<char>>,
    pub auto_remind_after: Option<u64>,
}

/// The kind in a status snapshot, by what it holds.
pub enum TaskStatusKindView {
    Mcp { server: Seq<char>, tool: Seq<char> },
    Timer { label: Seq<char>, fires_in: u64 },
}

impl View for TaskStatusKind {
    type V = TaskStatusKindView;

    open spec fn view(&self) -> TaskStatusKindView {
        match self {
            TaskStatusKind::Mcp { server, tool } => TaskStatusKindView::Mcp {
                server: server@,
                tool: tool@,
            },
            TaskStatusKind::Timer { label, fires_in } => TaskStatusKindView::Timer {
                label: label@,
                fires_in: *fires_in,
            },
        }
    }
}

impl View for TaskStatus {
    type V = TaskStatusView;

    open spec fn view(&self) -> TaskStatusView {
        TaskStatusView {
            pid: self.pid,
            kind: self.kind@,
            state: self.state,
            tail: text_of(self.tail),
            tail_hash: text_of(self.tail_hash),
            auto_remind_after: self.auto_remind_after,
        }
    }
}

/// The status of a task at a reading of the clock, without a tail.
pub open spec fn status_of(task: TaskView, now: u64) -> TaskStatusView {
    TaskStatusView {
        pid: task.pid,
        kind: match task.kind {
            TaskKindView::Mcp(def) => TaskStatusKindView::Mcp { server: def.server, tool: def.tool },
            TaskKindView::Timer(def) => TaskStatusKindView::Timer {
                label: def.label,
                fires_in: secs_left(def.duration, whole_secs(task.started_at, now)),
            },
        },
        state: task.state,
        tail: None,
        tail_hash: None,
        auto_remind_after: task.auto_remind_after,
    }
}

/// The status of a task with a live tail, given as its nonce and its text.
pub open spec fn status_with(
    task: TaskView,
    now: u64,
    live: Option<(Seq<char>, Seq<char>)>,
) -> TaskStatusView {
    match live {
        Some((nonce, text)) => TaskStatusView {
            tail: Some(crate::boundary::tail_form(nonce, text)),
            tail_hash: Some(nonce),
            ..status_of(task, now)
        },
        None => status_of(task, now),
    }
}

/// A live tail that was read, and the nonce that it goes out under.
#[derive(Debug)]
pub struct LiveTail {
    pub nonce: String,
    pub text: String,
}

/// A live tail, by what it holds.
pub open spec fn live_of(live: Option<LiveTail>) -> Option<(Seq<char>, Seq<char>)> {
    match live {
        Some(live) => Some((live.nonce@, live.text@)),
        None => None,
    }
}

/// The live tail of a task whose ring holds these bytes: the latest `n`
/// characters under the nonce that was drawn, or the error of the draw. An empty
/// ring has none, whatever was drawn.
pub fn live_tail(ring: &[u8], n: usize, drawn: Result<String, DispatchError>) -> (r: Result<
    Option<LiveTail>,
    DispatchError,
>)
    ensures
        ring@.len() == 0 ==> r matches Ok(None),
        ring@.len() > 0 ==> match drawn {
            Ok(nonce) => r matches Ok(Some(live)) && live.nonce@ == nonce@ && live.text@
                == tail_text(ring@, n as nat) && shows_exactly(ring@, n as nat, live.text@),
            Err(e) => r == Err::<Option<LiveTail>, DispatchError>(e),
        },
{
    if ring.len() == 0 {
        return Ok(None);
    }
    match drawn {
        Ok(nonce) => Ok(Some(LiveTail { nonce, text: latest_text(ring, n) })),
        Err(e) => Err(e),
    }
}

impl TaskStatus {
    /// The status of a task at the reading `now` of the clock, without a tail.
    pub fn from_task(task: &Task, now: u64) -> (r: Self)
        ensures
            r@ == status_of(task@, now),
    {
        let kind: TaskStatusKind = match &task.kind {
            TaskKind::Mcp(def) => TaskStatusKind::Mcp {
                server: def.server.clone(),
                tool: def.tool.clone(),
            },
            TaskKind::Timer(def) => {
                let passed: u64 = if now < task.started_at {
                    0
                } else {
                    (now - task.started_at) / NANOS_PER_SEC
                };
                TaskStatusKind::Timer {
                    label: def.label.clone(),
                    fires_in: def.duration.saturating_sub(passed),
                }
            },
        };
        TaskStatus {
            pid: task.pid,
            kind,
            state: task.state,
            tail: None,
            tail_hash: None,
            auto_remind_after: task.auto_remind_after,
        }
    }

    /// The status of a task with a live tail, where one was read.
    pub fn with_tail(task: &Task, now: u64, live: Option<LiveTail>) -> (r: Self)
        ensures
            r@ == status_with(task@, now, live_of(live)),
    {
        let mut status: TaskStatus = TaskStatus::from_task(task, now);
        match live {
            Some(live) => {
                status.tail = Some(
                    crate::boundary::tail_message(live.nonce.as_str(), live.text.as_str()),
                );
                status.tail_hash = Some(live.nonce);
            },
            None => {},
        }
        status
    }
}

/// Parameters say something exactly where they are neither null nor an object
/// without members; what they say is their text.
pub proof fn only_null_and_the_empty_object_say_nothing(params: Json)
    ensures
        params == Json::Null ==> params_given(params) is None,
        params == Json::Object(Map::empty()) ==> params_given(params) is None,
        params != Json::Null && params != Json::Object(Map::empty()) ==> params_given(params)
            == Some(json::json_text(params)),
{
}

/// A call is described by its server and tool and by the text of its parameters
/// where they say anything; a timer by its label and its duration.
pub proof fn a_task_is_described_by_what_was_asked_for(def: TaskDefView, timer: TimerDefView)
    ensures
        def.params == Json::Null || def.params == Json::Object(Map::empty()) ==> description_of(
            TaskKindView::Mcp(def),
        ) == def.server + "/"@ + def.tool,
        def.params != Json::Null && def.params != Json::Object(Map::empty()) ==> description_of(
            TaskKindView::Mcp(def),
        ) == def.server + "/"@ + def.tool + " "@ + json::json_text(def.params),
        description_of(TaskKindView::Timer(timer)) == "timer \""@ + timer.label + "\" ("@
            + decimal(timer.duration as nat) + "s)"@,
{
    if def.params == Json::Null || def.params == Json::Object(Map::empty()) {
        assert(description_of(TaskKindView::Mcp(def)) =~= def.server + "/"@ + def.tool);
    } else {
        assert(description_of(TaskKindView::Mcp(def)) =~= def.server + "/"@ + def.tool + " "@
            + json::json_text(def.params));
    }
}

/// The description of a call is server and tool, and its parameters behind a space
/// where there are any.
pub proof fn a_call_is_described_by_its_parts(
    server: Seq<char>,
    tool: Seq<char>,
    params: Seq<char>,
)
    ensures
        call_description_of(server, tool, None) == server + "/"@ + tool,
        call_description_of(server, tool, Some(params)) == server + "/"@ + tool + " "@ + params,
{
    assert(call_description_of(server, tool, None) =~= server + "/"@ + tool);
    assert(call_description_of(server, tool, Some(params)) =~= server + "/"@ + tool + " "@
        + params);
}

/// A call starts as a running task with its nonce and a tail, a timer as one with
/// neither; a task that settles takes on the state, drops its tail and keeps the
/// rest.
pub proof fn a_task_starts_running_and_settles_once(
    pid: u64,
    def: TaskDefView,
    timer: TimerDefView,
    nonce: Seq<char>,
    now: u64,
    task: TaskView,
    state: TaskState,
)
    ensures
        started_mcp(pid, def, nonce, now) == (TaskView {
            pid,
            kind: TaskKindView::Mcp(def),
            state: TaskState::Running,
            started_at: now,
            nonce: Some(nonce),
            has_tail: true,
            auto_remind_after: None,
        }),
        started_timer(pid, timer, now) == (TaskView {
            pid,
            kind: TaskKindView::Timer(timer),
            state: TaskState::Running,
            started_at: now,
            nonce: None,
            has_tail: false,
            auto_remind_after: None,
        }),
        settled(task, state).state == state,
        !settled(task, state).has_tail,
        settled(task, state).pid == task.pid,
        settled(task, state).kind == task.kind,
        settled(task, state).started_at == task.started_at,
        settled(task, state).nonce == task.nonce,
        settled(task, state).auto_remind_after == task.auto_remind_after,
{
}

/// A timer's status tells the seconds that are left of its duration: none once as
/// many whole seconds have passed, and all of them while the clock reads no later
/// than at the start.
pub proof fn a_timer_counts_down(task: TaskView, def: TimerDefView, now: u64)
    requires
        task.kind == TaskKindView::Timer(def),
    ensures
        ({
            let whole = if now <= task.started_at {
                0
            } else {
                (now - task.started_at) / 1_000_000_000
            };
            status_of(task, now).kind == (TaskStatusKindView::Timer {
                label: def.label,
                fires_in: if whole >= def.duration {
                    0
                } else {
                    (def.duration - whole) as u64
                },
            })
        }),
{
    if now > task.started_at {
        assert(0 <= (now - task.started_at) / 1_000_000_000 <= now - task.started_at);
    }
}

/// A status shows its task's PID, state and unasked reminder, and of a call its
/// server and tool; it has a tail and the tail's nonce exactly where one was read,
/// as it was read.
pub proof fn a_status_shows_its_task(
    task: TaskView,
    now: u64,
    live: Option<(Seq<char>, Seq<char>)>,
)
    ensures
        status_of(task, now).pid == task.pid,
        status_of(task, now).state == task.state,
        status_of(task, now).auto_remind_after == task.auto_remind_after,
        task.kind matches TaskKindView::Mcp(def) ==> status_of(task, now).kind == (
        TaskStatusKindView::Mcp { server: def.server, tool: def.tool }),
        status_of(task, now).tail is None,
        status_of(task, now).tail_hash is None,
        live is None ==> status_with(task, now, live) == status_of(task, now),
        live matches Some((h, text)) ==> status_with(task, now, live) == (TaskStatusView {
            pid: task.pid,
            kind: status_of(task, now).kind,
            state: task.state,
            tail: Some("[hash="@ + h + "] "@ + "<"@ + h + ">"@ + text + "</"@ + h + ">"@),
            tail_hash: Some(h),
            auto_remind_after: task.auto_remind_after,
        }),
{
    match live {
        Some((h, text)) => {
            crate::boundary::wrapping_keeps_the_text(h, text);
        },
        None => {},
    }
}

/// What every task is: a timer has neither nonce nor tail; a call has a nonce, and
/// a tail exactly while it runs.
pub proof fn only_running_calls_have_a_tail(task: TaskView)
    ensures
        task_wf(task) && task.kind is Timer <==> task.kind is Timer && task.nonce is None
            && !task.has_tail,
        task_wf(task) && task.kind is Mcp <==> task.kind is Mcp && task.nonce is Some && (
        task.has_tail <==> task.state == TaskState::Running),
{
}

/// The views of definitions show each of their fields.
pub proof fn definitions_are_seen_whole(def: TaskDef, timer: TimerDef, prepared: PreparedTask)
    ensures
        def@.server == def.server@,
        def@.tool == def.tool@,
        def@.params == json::json_of(def.params),
        def@.remind_after == def.remind_after,
        def@.fire_wake == def.fire_wake,
        def@.defer_output == def.defer_output,
        def@.stateful == def.stateful,
        timer@.label == timer.label@,
        timer@.duration == timer.duration,
        timer.metadata matches Some(metadata) ==> timer@.metadata == Some(json::json_of(metadata)),
        timer.metadata is None ==> timer@.metadata is None,
        prepared@.def == prepared.def@,
        prepared@.tool_meta == prepared.tool_meta,
        TaskKind::Mcp(def)@ == TaskKindView::Mcp(def@),
        TaskKind::Timer(timer)@ == TaskKindView::Timer(timer@),
{
}

/// The views of a task, of its status and of a live tail show each of their
/// fields.
pub proof fn tasks_are_seen_whole(task: Task, status: TaskStatus, live: LiveTail)
    ensures
        task@.pid == task.pid,
        task@.kind == task.kind@,
        task@.state == task.state,
        task@.started_at == task.started_at,
        task.nonce matches Some(nonce) ==> task@.nonce == Some(nonce@),
        task.nonce is None ==> task@.nonce is None,
        task@.has_tail == (task.tail is Some),
        task@.auto_remind_after == task.auto_remind_after,
        status@.pid == status.pid,
        status@.state == status.state,
        status.kind matches TaskStatusKind::Mcp { server, tool } ==> status@.kind == (
        TaskStatusKindView::Mcp { server: server@, tool: tool@ }),
        status.kind matches TaskStatusKind::Timer { label, fires_in } ==> status@.kind == (
        TaskStatusKindView::Timer { label: label@, fires_in }),
        status.tail matches Some(tail) ==> status@.tail == Some(tail@),
        status.tail is None ==> status@.tail is None,
        status.tail_hash matches Some(hash) ==> status@.tail_hash == Some(hash@),
        status.tail_hash is None ==> status@.tail_hash is None,
        status@.auto_remind_after == status.auto_remind_after,
        live_of(Some(live)) == Some((live.nonce@, live.text@)),
        live_of(None) is None,
{
}

} // verus!
