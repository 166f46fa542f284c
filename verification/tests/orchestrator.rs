use dispatch::error::DispatchError;
use dispatch::nonce::generate_many;
use dispatch::orchestrator::{
    Emission, Orchestrator, Reminder, TaskResult, TaskResultKind, WaitEvent, WaitStep,
};
use dispatch::reminder::ReminderEvent;
use dispatch::signal::{SignalEntry, SignalKind};
use dispatch::task::{
    LiveTail, PreparedTask, TaskDef, TaskState, TaskStatusKind, TimerDef, NANOS_PER_SEC,
};
use serde_json::Value;

fn timer_def(label: &str, duration: u64, metadata: Option<Value>) -> TimerDef {
    TimerDef {
        label: label.to_string(),
        duration,
        metadata,
    }
}

fn json(text: &str) -> Value {
    serde_json::from_str(text).unwrap()
}

fn task_def(fire_wake: bool) -> TaskDef {
    TaskDef {
        server: "s".into(),
        tool: "t".into(),
        params: json("{}"),
        remind_after: None,
        fire_wake,
        defer_output: false,
        stateful: false,
    }
}

/// Dispatch one call and return its PID.
fn insert_running_mcp(orch: &mut Orchestrator, session: Option<&str>, fire_wake: bool) -> u64 {
    let pids = orch
        .dispatch(
            vec![PreparedTask::bare(task_def(fire_wake))],
            None,
            session.map(|s| s.to_string()),
            0,
        )
        .unwrap();
    pids[0]
}

fn complete_mcp(pid: u64, output: &str) -> TaskResult {
    TaskResult {
        pid,
        kind: TaskResultKind::McpComplete(Ok(output.to_string())),
    }
}

fn expired(pid: u64, label: &str, metadata: Option<Value>, elapsed: u64) -> TaskResult {
    TaskResult {
        pid,
        kind: TaskResultKind::TimerExpired {
            label: label.to_string(),
            metadata,
            elapsed,
        },
    }
}

fn drain(orch: &mut Orchestrator, results: Vec<TaskResult>) -> Vec<Emission> {
    orch.drain_emittable(results, vec![]).unwrap()
}

fn flatten(emissions: &[Emission]) -> Vec<SignalEntry> {
    let mut out = Vec::new();
    for e in emissions {
        match e {
            Emission::Single(s) => out.push(s.clone()),
            Emission::Batch(sigs) => out.extend(sigs.iter().cloned()),
        }
    }
    out
}

fn exit_pids(emissions: &[Emission]) -> Vec<u64> {
    flatten(emissions)
        .into_iter()
        .filter(|s| s.kind == SignalKind::Exit)
        .map(|s| s.pid)
        .collect()
}

fn window(orch: &Orchestrator) -> Vec<SignalEntry> {
    orch.signal_window().all().iter().cloned().collect()
}

fn wake_text(step: Result<WaitStep, DispatchError>) -> String {
    match step {
        Ok(WaitStep::Wake(text)) => text,
        other => panic!("expected a wakeup, got {:?}", other),
    }
}

#[test]
fn fire_wake_false_batch_delivered_together_on_settle() {
    let mut orch = Orchestrator::new();
    assert_eq!(insert_running_mcp(&mut orch, Some("goalA"), false), 1);
    assert_eq!(insert_running_mcp(&mut orch, Some("goalA"), false), 2);

    // Task 1 finishes while task 2 runs: held, nothing pushed yet.
    assert!(drain(&mut orch, vec![complete_mcp(1, "out1")]).is_empty());

    // Task 2 finishes: the session settles, so BOTH are flushed as ONE
    // merged batch (not two separate singles).
    let emissions = drain(&mut orch, vec![complete_mcp(2, "out2")]);
    assert_eq!(emissions.len(), 1, "one merged batch, not per-signal");
    match &emissions[0] {
        Emission::Batch(sigs) => {
            let pids: Vec<u64> = sigs
                .iter()
                .filter(|s| s.kind == SignalKind::Exit)
                .map(|s| s.pid)
                .collect();
            assert_eq!(pids, vec![1, 2]);
        }
        Emission::Single(_) => panic!("expected a merged Batch"),
    }
}

#[test]
fn fire_wake_false_settle_is_session_scoped() {
    // A held task in goalA must not wait on an unrelated running task in goalB.
    let mut orch = Orchestrator::new();
    insert_running_mcp(&mut orch, Some("goalA"), false);
    insert_running_mcp(&mut orch, Some("goalB"), false); // stays running

    assert_eq!(exit_pids(&drain(&mut orch, vec![complete_mcp(1, "out1")])), vec![1]);
}

#[test]
fn kill_flushes_held_signals_for_settled_session() {
    let mut orch = Orchestrator::new();
    insert_running_mcp(&mut orch, Some("goalA"), false);
    insert_running_mcp(&mut orch, Some("goalA"), false);

    assert!(drain(&mut orch, vec![complete_mcp(1, "out1")]).is_empty());

    // Killing task 2 settles the session; the held task-1 exit flushes.
    orch.kill(&[2]).expect("kill succeeds");
    assert_eq!(exit_pids(&drain(&mut orch, vec![])), vec![1]);
}

#[test]
fn fire_wake_true_still_emits_immediately_with_running_sibling() {
    // A fire_wake=true task is never held or merged: it emits as a Single
    // even while a sibling runs.
    let mut orch = Orchestrator::new();
    insert_running_mcp(&mut orch, Some("goalA"), true);
    insert_running_mcp(&mut orch, Some("goalA"), false);

    let emissions = drain(&mut orch, vec![complete_mcp(1, "out1")]);
    assert_eq!(emissions.len(), 1);
    assert!(
        matches!(&emissions[0], Emission::Single(s) if s.kind == SignalKind::Exit && s.pid == 1),
        "fire_wake=true must emit as a Single"
    );
}

#[test]
fn basic_timer_fires_init_remind_exit() {
    let mut orch = Orchestrator::new();
    let pid = orch.dispatch_timer(timer_def("test_timer", 2, None), 0);
    assert!(pid > 0);
    let signals = window(&orch);
    assert_eq!(signals.len(), 1);
    assert_eq!(signals[0].kind, SignalKind::Init);
    assert!(signals[0].message.contains("test_timer"));
    assert!(signals[0].nonce.is_none());
    assert!(orch.has_running_tasks());
    assert!(matches!(
        orch.wait_for_event(WaitEvent::Started),
        Ok(WaitStep::Continue)
    ));
    let result = orch.wait_for_event(WaitEvent::Result(expired(pid, "test_timer", None, 2)));
    assert!(result.is_ok());
    let signals = window(&orch);
    assert_eq!(signals.len(), 3);
    assert_eq!(signals[0].kind, SignalKind::Init);
    assert_eq!(signals[1].kind, SignalKind::Remind);
    assert_eq!(signals[2].kind, SignalKind::Exit);
    let payload = signals[1]
        .payload
        .as_ref()
        .expect("REMIND should have payload");
    assert_eq!(payload["type"], "REMIND");
    assert_eq!(payload["label"], "test_timer");
    assert_eq!(payload["elapsed"], 2);
    assert_eq!(payload["pid"], pid);
    assert!(payload["metadata"].is_null());
    assert_eq!(signals[1].message, "timer \"test_timer\" — 2s elapsed");
    assert!(signals[2].message.contains("timer completed"));
    assert!(signals[2].nonce.is_none());
    assert!(!orch.has_running_tasks());
}

#[test]
fn wakeup_context_returns_immediately_with_running_task() {
    // Fire-and-return: a still-running task must not make the request path
    // block. dispatch_timer enqueues INIT synchronously; the snapshot must
    // reflect that INIT and return at once, without awaiting the REMIND/EXIT
    // that only fire much later.
    let mut orch = Orchestrator::new();
    let pid = orch.dispatch_timer(timer_def("long_task", 3600, None), 0);
    assert!(orch.has_running_tasks());

    let text = orch.wakeup_context();

    // The task is still running and only INIT is present: we did not wait.
    assert!(orch.has_running_tasks());
    let signals = window(&orch);
    assert_eq!(signals.len(), 1);
    assert_eq!(signals[0].kind, SignalKind::Init);
    assert_eq!(signals[0].pid, pid);
    assert!(!text.is_empty());
    assert_eq!(text, "[1] INIT timer \"long_task\" (3600s)");
}

#[test]
fn drain_emittable_returns_exit_signals_for_pushing() {
    // The serve loop's wake path drains completed results and returns the
    // EXIT/REMIND signals to push to the LLM.
    let mut orch = Orchestrator::new();
    let pid = orch.dispatch_timer(timer_def("quick", 1, None), 0);
    // Nothing has fired yet: draining is a no-op.
    assert!(drain(&mut orch, vec![]).is_empty());

    // A timer is fire_wake=true, so its REMIND + EXIT come as Singles.
    let emissions = drain(&mut orch, vec![expired(pid, "quick", None, 1)]);
    assert!(emissions.iter().all(|e| matches!(e, Emission::Single(_))));
    let emitted = flatten(&emissions);
    assert_eq!(emitted.len(), 2);
    assert_eq!(emitted[0].kind, SignalKind::Remind);
    assert_eq!(emitted[1].kind, SignalKind::Exit);
    assert!(!orch.has_running_tasks());
    // Draining again yields nothing: the result was consumed once.
    assert!(drain(&mut orch, vec![]).is_empty());
}

#[test]
fn kill_timer_prevents_remind() {
    let mut orch = Orchestrator::new();
    let pid = orch.dispatch_timer(timer_def("kill_me", 60, None), 0);
    let killed = orch.kill(&[pid]).expect("kill should succeed");
    assert_eq!(killed, vec![pid]);
    let signals = window(&orch);
    assert_eq!(signals.len(), 2);
    assert_eq!(signals[0].kind, SignalKind::Init);
    assert_eq!(signals[1].kind, SignalKind::Kill);
    assert!(signals[1].message.contains("cancelled"));
    assert_eq!(signals[1].message, "timer \"kill_me\" cancelled");
    orch.drain_results(vec![]);
    assert_eq!(window(&orch).len(), 2);
    assert!(!orch.has_running_tasks());
}

#[test]
fn multiple_timers_fire_independently() {
    let mut orch = Orchestrator::new();
    let pid1 = orch.dispatch_timer(timer_def("fast", 1, None), 0);
    let pid2 = orch.dispatch_timer(timer_def("medium", 3, None), 0);
    let pid3 = orch.dispatch_timer(timer_def("slow", 5, None), 0);
    assert_eq!(window(&orch).len(), 3);
    // A timer's result wakes a waiting caller only once nothing runs any more.
    for (pid, label, secs) in [(pid1, "fast", 1), (pid2, "medium", 3)] {
        assert!(matches!(
            orch.wait_for_event(WaitEvent::Result(expired(pid, label, None, secs))),
            Ok(WaitStep::Continue)
        ));
    }
    wake_text(orch.wait_for_event(WaitEvent::Result(expired(pid3, "slow", None, 5))));
    let signals = window(&orch);
    assert_eq!(signals.len(), 9);
    let reminds: Vec<_> = signals
        .iter()
        .filter(|s| s.kind == SignalKind::Remind)
        .collect();
    assert_eq!(reminds.len(), 3);
    let mut remind_pids: Vec<u64> = reminds.iter().map(|s| s.pid).collect();
    remind_pids.sort();
    remind_pids.dedup();
    assert_eq!(remind_pids.len(), 3);
    assert!(remind_pids.contains(&pid1));
    assert!(remind_pids.contains(&pid2));
    assert!(remind_pids.contains(&pid3));
    assert!(!orch.has_running_tasks());
}

#[test]
fn metadata_passthrough() {
    let meta = json(r#"{"goal_id": "abc123", "type": "goal_defer", "priority": 5}"#);
    let mut orch = Orchestrator::new();
    let pid = orch.dispatch_timer(timer_def("goal_reminder", 2, Some(meta.clone())), 0);
    let signals = window(&orch);
    let init_payload = signals[0]
        .payload
        .as_ref()
        .expect("INIT should have payload");
    assert_eq!(init_payload["metadata"], meta);
    assert_eq!(init_payload["type"], "INIT");
    assert_eq!(init_payload["duration"], 2);
    let _ = orch.wait_for_event(WaitEvent::Result(expired(
        pid,
        "goal_reminder",
        Some(meta.clone()),
        2,
    )));
    let signals = window(&orch);
    let remind = signals
        .iter()
        .find(|s| s.kind == SignalKind::Remind)
        .unwrap();
    let remind_payload = remind.payload.as_ref().expect("REMIND should have payload");
    assert_eq!(remind_payload["metadata"], meta);
    assert_eq!(remind_payload["label"], "goal_reminder");
    assert_eq!(remind_payload["pid"], pid);
}

#[test]
fn status_shows_timer_with_remaining_time() {
    let mut orch = Orchestrator::new();
    orch.dispatch_timer(timer_def("check_build", 60, None), 7);
    let statuses = orch.status(7 + 10 * NANOS_PER_SEC);
    assert_eq!(statuses.len(), 1);
    let status = &statuses[0];
    assert_eq!(status.state, TaskState::Running);
    match &status.kind {
        TaskStatusKind::Timer { label, fires_in } => {
            assert_eq!(label, "check_build");
            assert!(*fires_in <= 50);
            assert!(*fires_in >= 49);
        }
        other => panic!("Expected timer status, got {:?}", other),
    }
    // A timer that should have fired already is at zero.
    match &orch.status(7 + 1000 * NANOS_PER_SEC)[0].kind {
        TaskStatusKind::Timer { fires_in, .. } => assert_eq!(*fires_in, 0),
        other => panic!("Expected timer status, got {:?}", other),
    }
}

#[test]
fn kill_nonexistent_pid_returns_error() {
    let mut orch = Orchestrator::new();
    assert!(orch.kill(&[999]).is_err());
}

#[test]
fn get_output_returns_none_for_unknown_pid() {
    let orch = Orchestrator::new();
    assert!(orch.get_output(42).is_none());
    assert!(orch.get_nonce(42).is_none());
}

#[test]
fn strategy_stored_and_returns_none_initially() {
    let orch = Orchestrator::new();
    let context = orch.format_wakeup_context(20);
    assert!(!context.contains("Current strategy:"));
}

#[test]
fn session_pids_returns_only_matching_pids() {
    let mut orch = Orchestrator::new();
    insert_running_mcp(&mut orch, Some("goal_a"), true);
    insert_running_mcp(&mut orch, Some("goal_a"), true);
    insert_running_mcp(&mut orch, Some("goal_b"), true);
    let pids_a = orch.session_pids("goal_a");
    assert!(pids_a.contains(&1));
    assert!(pids_a.contains(&2));
    assert!(!pids_a.contains(&3));
    let pids_b = orch.session_pids("goal_b");
    assert!(pids_b.contains(&3));
    assert!(!pids_b.contains(&1));
}

#[test]
fn a_strategy_stands_before_the_window_until_it_is_replaced() {
    let mut orch = Orchestrator::new();
    orch.dispatch(vec![], Some("plan one".to_string()), None, 0)
        .unwrap();
    assert_eq!(orch.wakeup_context(), "Current strategy: plan one\n\n");
    orch.dispatch(vec![PreparedTask::bare(task_def(true))], None, None, 0)
        .unwrap();
    assert_eq!(
        orch.wakeup_context(),
        "Current strategy: plan one\n\n[1] INIT s/t"
    );
    orch.dispatch(vec![], Some("plan two".to_string()), None, 0)
        .unwrap();
    assert_eq!(
        orch.wakeup_context(),
        "Current strategy: plan two\n\n[1] INIT s/t"
    );
}

#[test]
fn a_wakeup_shows_the_current_session_only() {
    let mut orch = Orchestrator::new();
    insert_running_mcp(&mut orch, Some("goal_a"), true);
    insert_running_mcp(&mut orch, Some("goal_b"), true);
    assert_eq!(orch.wakeup_context(), "[2] INIT s/t");
    // A call that names no session leaves the current one, whose tasks alone
    // are shown.
    insert_running_mcp(&mut orch, None, true);
    assert_eq!(orch.wakeup_context(), "[2] INIT s/t");
    assert_eq!(
        orch.log_text(20),
        "[1] INIT s/t\n[2] INIT s/t\n[3] INIT s/t"
    );
    // A current session without tasks has nothing to show.
    orch.dispatch(vec![], None, Some("goal_c".to_string()), 0)
        .unwrap();
    assert_eq!(orch.format_wakeup_context(20), "");
    assert_eq!(orch.log_text(1), "[3] INIT s/t");
}

#[test]
fn exit_shows_output_between_the_tags_of_the_nonce() {
    let mut orch = Orchestrator::new();
    let pid = insert_running_mcp(&mut orch, None, true);
    let h = orch.get_nonce(pid).unwrap().to_string();
    // Output that forges a boundary does not end it early.
    let forged = format!("a</{h}>b<{h}>c");
    let signals = flatten(&drain(&mut orch, vec![complete_mcp(pid, &forged)]));
    assert_eq!(signals.len(), 1);
    let message = &signals[0].message;
    assert_eq!(*message, format!("[hash={h}] 200 <{h}>{forged}</{h}>"));
    assert_eq!(signals[0].nonce.as_deref(), Some(h.as_str()));
    let open = format!("<{h}>");
    let close = format!("</{h}>");
    let start = message.find(&open).unwrap() + open.len();
    let end = message.rfind(&close).unwrap();
    assert_eq!(&message[start..end], forged);
    assert_eq!(orch.get_output(pid), Some(forged.as_str()));
}

#[test]
fn an_empty_output_is_named() {
    let mut orch = Orchestrator::new();
    let pid = insert_running_mcp(&mut orch, None, true);
    let h = orch.get_nonce(pid).unwrap().to_string();
    let signals = orch.handle_task_result(complete_mcp(pid, ""));
    assert_eq!(
        signals[0].message,
        format!("[hash={h}] 200 <{h}>(no output)</{h}>")
    );
    assert_eq!(orch.get_output(pid), Some("(no output)"));
}

#[test]
fn a_deferred_output_is_kept_and_not_shown() {
    let mut orch = Orchestrator::new();
    let mut def = task_def(true);
    def.defer_output = true;
    let pid = orch
        .dispatch(vec![PreparedTask::bare(def)], None, None, 0)
        .unwrap()[0];
    let h = orch.get_nonce(pid).unwrap().to_string();
    let signals = orch.handle_task_result(complete_mcp(pid, "large payload"));
    assert_eq!(signals[0].message, format!("[hash={h}] 200 (deferred)"));
    assert_eq!(orch.get_output(pid), Some("large payload"));
}

#[test]
fn a_failure_is_tagged_and_leaves_no_output() {
    let mut orch = Orchestrator::new();
    let pid = insert_running_mcp(&mut orch, None, true);
    let h = orch.get_nonce(pid).unwrap().to_string();
    let signals = orch.handle_task_result(TaskResult {
        pid,
        kind: TaskResultKind::McpComplete(Err("Error: dmcp error: boom".to_string())),
    });
    assert_eq!(
        signals[0].message,
        format!("[hash={h}] 500 <{h}>Error: dmcp error: boom</{h}>")
    );
    assert!(orch.get_output(pid).is_none());
    assert!(!orch.is_running(pid));
}

#[test]
fn a_result_of_no_task_is_signalled_without_a_nonce() {
    let mut orch = Orchestrator::new();
    let signals = flatten(&drain(&mut orch, vec![complete_mcp(77, "stray")]));
    assert_eq!(signals[0].message, "200 <raw>stray</raw>");
    assert!(signals[0].nonce.is_none());
    let failed = orch.handle_task_result(TaskResult {
        pid: 78,
        kind: TaskResultKind::McpComplete(Err("lost".to_string())),
    });
    assert_eq!(failed[0].message, "500 lost");
    assert_eq!(orch.get_output(77), Some("stray"));
}

#[test]
fn kill_names_what_it_ended_and_stops_at_an_unknown_pid() {
    let mut orch = Orchestrator::new();
    let a = insert_running_mcp(&mut orch, None, true);
    let b = insert_running_mcp(&mut orch, None, true);
    let c = insert_running_mcp(&mut orch, None, true);
    match orch.kill(&[a, 999, b]) {
        Err(DispatchError::TaskNotFound(pid)) => assert_eq!(pid, 999),
        other => panic!("expected an unknown task, got {:?}", other),
    }
    assert!(!orch.is_running(a));
    assert!(orch.is_running(b));
    // Twice in one call, and one that has ended: each is ended once.
    assert_eq!(orch.kill(&[a, b, b, c]).unwrap(), vec![b, c]);
    // Killing them again does nothing.
    let before = window(&orch).len();
    assert!(orch.kill(&[a, b, c]).unwrap().is_empty());
    assert_eq!(window(&orch).len(), before);
    assert_eq!(window(&orch).last().unwrap().message, "Terminated by LLM");
}

#[test]
fn wait_signals_for_running_tasks() {
    let mut orch = Orchestrator::new();
    let a = insert_running_mcp(&mut orch, None, true);
    let b = insert_running_mcp(&mut orch, None, true);
    orch.kill(&[a]).unwrap();
    assert_eq!(orch.wait(&[a, b]).unwrap(), vec![b]);
    let last = window(&orch).pop().unwrap();
    assert_eq!(last.kind, SignalKind::Wait);
    assert_eq!(last.message, "LLM decided to continue waiting");
    assert!(matches!(
        orch.wait(&[5]),
        Err(DispatchError::TaskNotFound(5))
    ));
}

#[test]
fn shutdown_ends_everything_without_a_signal() {
    let mut orch = Orchestrator::new();
    let mut def = task_def(true);
    def.remind_after = Some(3);
    let a = orch
        .dispatch(vec![PreparedTask::bare(def)], None, None, 0)
        .unwrap()[0];
    orch.dispatch_timer(timer_def("t", 9, None), 0);
    assert_eq!(orch.reminder_interval(a), Some(3));
    orch.shutdown();
    assert!(!orch.has_running_tasks());
    assert_eq!(orch.reminder_interval(a), None);
    assert_eq!(window(&orch).len(), 2);
    assert!(orch
        .status(0)
        .iter()
        .all(|s| s.state == TaskState::Killed));
    orch.shutdown();
    assert_eq!(window(&orch).len(), 2);
}

#[test]
fn a_task_that_has_settled_has_no_reminder() {
    let mut orch = Orchestrator::new();
    let mut def = task_def(true);
    def.remind_after = Some(3);
    let pids = orch
        .dispatch(
            vec![
                PreparedTask::bare(def.clone()),
                PreparedTask::bare(def),
            ],
            None,
            None,
            0,
        )
        .unwrap();
    assert_eq!(pids, vec![1, 2]);
    let _ = orch.handle_task_result(complete_mcp(1, "x"));
    orch.kill(&[2]).unwrap();
    assert_eq!(orch.reminder_interval(1), None);
    assert_eq!(orch.reminder_interval(2), None);
    // A reminder that fired just before the end is dropped.
    let emissions = orch
        .drain_emittable(
            vec![],
            vec![
                ReminderEvent { pid: 1, elapsed_secs: 3 },
                ReminderEvent { pid: 2, elapsed_secs: 3 },
                ReminderEvent { pid: 9, elapsed_secs: 3 },
            ],
        )
        .unwrap();
    assert!(emissions.is_empty());
}

#[test]
fn a_result_and_a_reminder_of_one_task_in_one_drain_give_the_exit_alone() {
    let mut orch = Orchestrator::new();
    let pid = insert_running_mcp(&mut orch, None, true);
    let emissions = orch
        .drain_emittable(
            vec![complete_mcp(pid, "done")],
            vec![ReminderEvent { pid, elapsed_secs: 1 }],
        )
        .unwrap();
    assert_eq!(exit_pids(&emissions), vec![pid]);
    assert_eq!(emissions.len(), 1);
}

#[test]
fn reminders_without_a_tail_are_plain() {
    let mut orch = Orchestrator::new();
    let pid = insert_running_mcp(&mut orch, None, false);
    let emissions = orch
        .drain_emittable(vec![], vec![ReminderEvent { pid, elapsed_secs: 12 }])
        .unwrap();
    let signals = flatten(&emissions);
    assert_eq!(signals.len(), 1);
    assert_eq!(signals[0].kind, SignalKind::Remind);
    assert_eq!(signals[0].message, "Running for 12s");
    assert!(signals[0].nonce.is_none());
}

#[test]
fn a_reminder_shows_the_tail_that_was_read_for_it() {
    let mut orch = Orchestrator::new();
    let pid = insert_running_mcp(&mut orch, None, true);
    let signals = flatten(&orch.drain_emittable_with(
        vec![],
        vec![Reminder {
            event: ReminderEvent { pid, elapsed_secs: 4 },
            live: Some(LiveTail { nonce: "n0".to_string(), text: "step 1\n".to_string() }),
        }],
    ));
    assert_eq!(signals[0].message, "Running for 4s [hash=n0] <n0>step 1\n</n0>");
    assert_eq!(signals[0].nonce.as_deref(), Some("n0"));
}

#[test]
fn held_groups_go_out_in_the_order_they_came() {
    let mut orch = Orchestrator::new();
    for session in ["b", "a", "b", "a"] {
        insert_running_mcp(&mut orch, Some(session), false);
    }
    insert_running_mcp(&mut orch, None, false);
    assert!(drain(&mut orch, vec![complete_mcp(1, "x"), complete_mcp(2, "y")]).is_empty());
    let emissions = drain(
        &mut orch,
        vec![complete_mcp(4, "z"), complete_mcp(3, "w"), complete_mcp(5, "v")],
    );
    assert_eq!(emissions.len(), 3);
    let groups: Vec<Vec<u64>> = emissions
        .iter()
        .map(|e| match e {
            Emission::Batch(sigs) => sigs.iter().map(|s| s.pid).collect(),
            Emission::Single(_) => panic!("expected a merged Batch"),
        })
        .collect();
    assert_eq!(groups, vec![vec![1, 3], vec![2, 4], vec![5]]);
}

#[test]
fn no_signal_is_dropped_over_several_drains() {
    let mut orch = Orchestrator::new();
    for i in 0..6 {
        insert_running_mcp(&mut orch, Some("goal"), i % 2 == 0);
    }
    let mut seen = Vec::new();
    for pid in [6, 1, 4, 2, 5, 3] {
        seen.extend(exit_pids(&drain(&mut orch, vec![complete_mcp(pid, "x")])));
    }
    seen.sort();
    assert_eq!(seen, vec![1, 2, 3, 4, 5, 6]);
}

#[test]
fn drain_results_takes_in_without_emitting() {
    let mut orch = Orchestrator::new();
    let pid = insert_running_mcp(&mut orch, None, false);
    orch.drain_results(vec![complete_mcp(pid, "x")]);
    assert!(!orch.is_running(pid));
    assert_eq!(orch.get_output(pid), Some("x"));
    assert!(drain(&mut orch, vec![]).is_empty());
}

#[test]
fn waiting_wakes_on_fire_wake_reminders_and_the_last_end() {
    let mut orch = Orchestrator::new();
    // Nothing runs: woken at once.
    assert_eq!(wake_text(orch.wait_for_event(WaitEvent::Started)), "");
    let quiet = insert_running_mcp(&mut orch, None, false);
    let loud = insert_running_mcp(&mut orch, None, true);
    let last = insert_running_mcp(&mut orch, None, false);
    assert!(matches!(
        orch.wait_for_event(WaitEvent::Result(complete_mcp(quiet, "a"))),
        Ok(WaitStep::Continue)
    ));
    let text = wake_text(orch.wait_for_event(WaitEvent::Result(complete_mcp(loud, "b"))));
    assert!(text.contains("[2] EXIT [hash="));
    let text = wake_text(orch.wait_for_event(WaitEvent::Reminder(Reminder {
        event: ReminderEvent { pid: last, elapsed_secs: 8 },
        live: None,
    })));
    assert!(text.ends_with("[3] REMIND Running for 8s"));
    assert!(matches!(
        orch.wait_for_event(WaitEvent::Reminder(Reminder {
            event: ReminderEvent { pid: quiet, elapsed_secs: 8 },
            live: None,
        })),
        Ok(WaitStep::Continue)
    ));
    wake_text(orch.wait_for_event(WaitEvent::Result(complete_mcp(last, "c"))));
    assert!(matches!(
        orch.wait_for_event(WaitEvent::Closed),
        Err(DispatchError::ChannelClosed)
    ));
}

#[test]
fn a_stateful_call_runs_in_its_session() {
    let mut orch = Orchestrator::new();
    let mut def = task_def(true);
    def.stateful = true;
    def.params = json(r#"{"a":1}"#);
    let in_session = orch
        .dispatch(
            vec![PreparedTask::bare(def.clone())],
            None,
            Some("goal".to_string()),
            0,
        )
        .unwrap()[0];
    let alone = orch
        .dispatch(vec![PreparedTask::bare(def)], None, None, 0)
        .unwrap()[0];
    let plain = insert_running_mcp(&mut orch, Some("goal"), true);
    let timer = orch.dispatch_timer(timer_def("t", 1, None), 0);
    let launch = orch.launch(in_session).unwrap();
    assert_eq!(launch.pid, in_session);
    assert_eq!(launch.server, "s");
    assert_eq!(launch.tool, "t");
    assert_eq!(launch.params, json(r#"{"a":1}"#));
    assert_eq!(launch.session.as_deref(), Some("goal"));
    assert!(orch.launch(alone).unwrap().session.is_none());
    assert!(orch.launch(plain).unwrap().session.is_none());
    assert!(orch.launch(timer).is_none());
    assert!(orch.launch(99).is_none());
    orch.kill(&[in_session]).unwrap();
    assert!(orch.launch(in_session).is_none());
}

#[test]
fn dispatch_hands_out_nonces_in_order() {
    let mut orch = Orchestrator::new();
    let nonces = generate_many(2).unwrap();
    let pids = orch.dispatch_with_nonces(
        vec![
            PreparedTask::bare(task_def(true)),
            PreparedTask::bare(task_def(true)),
        ],
        None,
        None,
        nonces.clone(),
        0,
    );
    assert_eq!(pids, vec![1, 2]);
    assert_eq!(orch.get_nonce(1), Some(nonces[0].as_str()));
    assert_eq!(orch.get_nonce(2), Some(nonces[1].as_str()));
    let timer = orch.dispatch_timer(timer_def("t", 1, None), 0);
    assert_eq!(timer, 3);
    assert!(orch.get_nonce(timer).is_none());
    assert!(orch.has_pids(1000));
}

#[test]
fn an_init_names_its_parameters() {
    let mut orch = Orchestrator::new();
    let mut def = task_def(true);
    def.params = json(r#"{"x": [1, "a"], "b": null}"#);
    orch.dispatch(vec![PreparedTask::bare(def)], None, None, 0)
        .unwrap();
    assert_eq!(
        window(&orch)[0].message,
        r#"s/t {"b":null,"x":[1,"a"]}"#
    );
    let mut null = task_def(true);
    null.params = Value::Null;
    orch.dispatch(vec![PreparedTask::bare(null)], None, None, 0)
        .unwrap();
    assert_eq!(window(&orch)[1].message, "s/t");
}

#[test]
fn the_log_is_a_json_array_of_the_latest_signals() {
    let mut orch = Orchestrator::new();
    let pid = insert_running_mcp(&mut orch, None, true);
    orch.kill(&[pid]).unwrap();
    orch.dispatch_timer(timer_def("t", 1, None), 0);
    assert_eq!(
        orch.log_json(2),
        json(
            r#"[
                {"pid": 1, "kind": "KILL", "message": "Terminated by LLM"},
                {"pid": 2, "kind": "INIT", "message": "timer \"t\" (1s)",
                 "payload": {"pid": 2, "type": "INIT", "label": "t", "metadata": null,
                             "duration": 1}}
            ]"#
        )
    );
}

#[test]
fn a_session_has_settled_when_none_of_its_tasks_runs() {
    let mut orch = Orchestrator::default();
    insert_running_mcp(&mut orch, Some("goal"), true);
    insert_running_mcp(&mut orch, None, true);
    assert!(orch.session_has_running(&Some("goal".to_string())));
    assert!(orch.session_has_running(&None));
    assert!(!orch.session_has_running(&Some("other".to_string())));
    orch.kill(&[1]).unwrap();
    assert!(!orch.session_has_running(&Some("goal".to_string())));
    assert!(orch.session_has_running(&None));
}

#[test]
fn an_expiry_that_was_on_its_way_does_not_undo_a_kill() {
    let mut orch = Orchestrator::new();
    let timer = orch.dispatch_timer(timer_def("kill_me", 60, None), 0);
    assert_eq!(orch.kill(&[timer]).unwrap(), vec![timer]);
    assert!(drain(&mut orch, vec![expired(timer, "kill_me", None, 60)]).is_empty());
    assert!(orch
        .handle_task_result(expired(timer, "kill_me", None, 60))
        .is_empty());
    orch.drain_results(vec![expired(timer, "kill_me", None, 60)]);
    assert_eq!(window(&orch).len(), 2);
    assert_eq!(orch.status(0)[0].state, TaskState::Killed);
}

#[test]
fn a_result_that_was_on_its_way_is_announced_and_the_call_stays_killed() {
    let mut orch = Orchestrator::new();
    let loud = insert_running_mcp(&mut orch, Some("goal"), true);
    let quiet = insert_running_mcp(&mut orch, Some("goal"), false);
    orch.kill(&[loud, quiet]).unwrap();
    let emissions = drain(
        &mut orch,
        vec![complete_mcp(loud, "late"), complete_mcp(quiet, "too")],
    );
    assert!(matches!(&emissions[0], Emission::Single(s) if s.pid == loud));
    assert!(matches!(&emissions[1], Emission::Batch(b) if b.len() == 1 && b[0].pid == quiet));
    assert_eq!(emissions.len(), 2);
    assert_eq!(orch.get_output(loud), Some("late"));
    assert_eq!(orch.get_output(quiet), Some("too"));
    assert!(orch
        .status(0)
        .iter()
        .all(|s| s.state == TaskState::Killed));
}

#[test]
fn a_late_result_wakes_a_waiting_caller_and_a_killed_timer_does_not() {
    let mut orch = Orchestrator::new();
    let killed = insert_running_mcp(&mut orch, None, true);
    let timer = orch.dispatch_timer(timer_def("kill_me", 60, None), 0);
    insert_running_mcp(&mut orch, None, true);
    orch.kill(&[killed, timer]).unwrap();
    assert!(matches!(
        orch.wait_for_event(WaitEvent::Result(expired(timer, "kill_me", None, 60))),
        Ok(WaitStep::Continue)
    ));
    let text = wake_text(orch.wait_for_event(WaitEvent::Result(complete_mcp(killed, "late"))));
    assert!(text.contains("[1] EXIT"));
}

#[test]
fn a_reminder_fires_while_its_timer_is_armed() {
    let mut orch = Orchestrator::new();
    let mut def = task_def(true);
    def.remind_after = Some(5);
    let pid = orch
        .dispatch(vec![PreparedTask::bare(def)], None, None, 0)
        .unwrap()[0];
    assert_eq!(
        orch.fire_reminder(pid),
        Some(ReminderEvent { pid, elapsed_secs: 5 })
    );
    assert_eq!(
        orch.fire_reminder(pid),
        Some(ReminderEvent { pid, elapsed_secs: 10 })
    );
    assert_eq!(orch.fire_reminder(99), None);
    orch.kill(&[pid]).unwrap();
    assert_eq!(orch.fire_reminder(pid), None);
}

#[test]
fn a_batch_holds_one_session() {
    let mut orch = Orchestrator::new();
    insert_running_mcp(&mut orch, Some("a"), false);
    insert_running_mcp(&mut orch, Some("b"), false);
    insert_running_mcp(&mut orch, Some("a"), true);
    let emissions = drain(
        &mut orch,
        vec![complete_mcp(1, "x"), complete_mcp(2, "y"), complete_mcp(3, "z")],
    );
    assert!(matches!(&emissions[0], Emission::Single(s) if s.pid == 3));
    assert!(matches!(&emissions[1], Emission::Batch(b) if b.len() == 1 && b[0].pid == 1));
    assert!(matches!(&emissions[2], Emission::Batch(b) if b.len() == 1 && b[0].pid == 2));
    assert_eq!(emissions.len(), 3);
}
