//! Live output on running tasks: what REMIND and `status` show of a call's
//! stderr while it runs, and what its EXIT shows.

use dispatch::mcp_client::DmcpClient;
use dispatch::orchestrator::{Emission, Orchestrator, TaskResult, TaskResultKind};
use dispatch::reminder::ReminderEvent;
use dispatch::signal::{SignalEntry, SignalKind};
use dispatch::task::{PreparedTask, TaskDef, TaskState};
use serde_json::Value;

fn dispatch(orch: &mut Orchestrator, tool: &str, remind_after: Option<u64>) -> Vec<u64> {
    let def = TaskDef {
        server: "fake".into(),
        tool: tool.into(),
        params: Value::Null,
        remind_after,
        fire_wake: true,
        defer_output: false,
        stateful: false,
    };
    orch.dispatch(vec![PreparedTask::bare(def)], None, None, 0)
        .unwrap()
}

/// The call writes to stderr.
fn writes(orch: &Orchestrator, pid: u64, text: &str) {
    orch.launch(pid).unwrap().tail.append(text.as_bytes());
}

/// The call ends; the EXIT that is pushed.
fn ends(orch: &mut Orchestrator, pid: u64, success: bool, stdout: &str) -> SignalEntry {
    let stderr = orch.launch(pid).unwrap().tail.snapshot();
    let outcome = match DmcpClient::call_tool(success, stdout.as_bytes(), &stderr) {
        Ok(out) => Ok(out),
        Err(e) => Err(e.failure()),
    };
    let result = TaskResult { pid, kind: TaskResultKind::McpComplete(outcome) };
    match orch.drain_emittable(vec![result], vec![]).unwrap().pop() {
        Some(Emission::Single(entry)) if entry.kind == SignalKind::Exit => entry,
        _ => panic!("EXIT must be pushed"),
    }
}

/// The text between `<h>` and `</h>` in a boundary-wrapped message.
fn wrapped_text<'a>(message: &'a str, h: &str) -> &'a str {
    let open = format!("<{h}>");
    let close = format!("</{h}>");
    let start = message.find(&open).expect("open boundary tag") + open.len();
    let end = message.rfind(&close).expect("close boundary tag");
    &message[start..end]
}

#[test]
fn remind_carries_live_stderr_tail_and_exit_is_unchanged() {
    let mut orch = Orchestrator::new();
    assert_eq!(dispatch(&mut orch, "slow_progress", Some(1)), vec![1]);
    writes(&orch, 1, "phase-one started\n");

    let event = ReminderEvent { pid: 1, elapsed_secs: 1 };
    let remind = match orch.drain_emittable(vec![], vec![event]).unwrap().pop() {
        Some(Emission::Single(entry)) if entry.kind == SignalKind::Remind => entry,
        _ => panic!("a REMIND with a tail must be PUSHED to the client"),
    };
    let msg = remind.message.as_str();
    let h = remind.nonce.as_deref().unwrap();
    assert!(msg.starts_with("Running for "), "got: {msg}");
    assert!(msg.contains(&format!("[hash={h}]")), "got: {msg}");
    assert!(
        wrapped_text(msg, h).contains("phase-one started"),
        "the tail must carry the stderr emitted so far, got: {msg}"
    );

    let exit = ends(&mut orch, 1, true, "slow-result\n");
    let e = exit.nonce.as_deref().unwrap();
    assert_eq!(
        exit.message,
        format!("[hash={e}] 200 <{e}>slow-result</{e}>"),
        "EXIT must stay stdout-only"
    );
    assert_ne!(e, h, "REMIND must not have disclosed the EXIT nonce mid-run");

    assert_eq!(orch.get_output(1), Some("slow-result"));
    assert_eq!(orch.get_nonce(1), Some(e));
}

#[test]
fn status_tail_while_running_and_absent_after_exit() {
    let mut orch = Orchestrator::new();
    dispatch(&mut orch, "slow_progress", None);
    // Nothing has been written yet.
    assert!(orch.status_with_tail(5, 0).unwrap()[0].tail.is_none());
    writes(&orch, 1, "phase-one started\n");

    let task = orch.status_with_tail(5, 0).unwrap().pop().unwrap();
    let h = task.tail_hash.expect("tail_hash present");
    // Latest 5 chars of "phase-one started\n".
    assert_eq!(
        task.tail.unwrap(),
        format!("[hash={h}] <{h}>rted\n</{h}>")
    );

    let clamped = orch.status_with_tail(100000, 0).unwrap();
    let big = clamped[0].tail.as_deref().expect("tail present");
    assert!(
        big.contains("phase-one started\n"),
        "over-large n clamps to everything held, got: {big}"
    );

    ends(&mut orch, 1, true, "slow-result");
    let done = orch.status_with_tail(5, 0).unwrap();
    assert_eq!(done[0].state, TaskState::Exited);
    assert!(done[0].tail.is_none() && done[0].tail_hash.is_none());
}

#[test]
fn a_plain_status_shows_no_tail() {
    let mut orch = Orchestrator::new();
    dispatch(&mut orch, "slow_progress", None);
    writes(&orch, 1, "phase-one started\n");
    assert!(orch.status_with_tail(1, 0).unwrap()[0].tail.is_some());
    let plain = orch.status(0);
    assert!(plain[0].tail.is_none());
    assert!(plain[0].tail_hash.is_none());
}

#[test]
fn exit_failure_detail_still_prefers_stdout_then_stderr() {
    let mut orch = Orchestrator::new();
    dispatch(&mut orch, "fail_with_stderr", None);
    writes(&orch, 1, "failure detail on stderr\n");
    let exit = ends(&mut orch, 1, false, "");
    let e = exit.nonce.as_deref().unwrap();
    let msg = exit.message.as_str();
    assert!(msg.contains(&format!("[hash={e}] 500 ")), "got: {msg}");
    assert!(
        wrapped_text(msg, e).contains("failure detail on stderr"),
        "stderr must still reach the failure detail, got: {msg}"
    );

    assert_eq!(dispatch(&mut orch, "fail_with_stdout", None), vec![2]);
    writes(&orch, 2, "noise on stderr\n");
    let exit = ends(&mut orch, 2, false, "tool-reported error detail\n");
    let e = exit.nonce.as_deref().unwrap();
    let msg = exit.message.as_str();
    let detail = wrapped_text(msg, e);
    assert!(detail.contains("tool-reported error detail"), "got: {msg}");
    assert!(
        !detail.contains("noise on stderr"),
        "stdout detail must still win over stderr, got: {msg}"
    );
}

#[test]
fn quick_exit_output_is_unchanged() {
    let mut orch = Orchestrator::new();
    dispatch(&mut orch, "quick", None);
    let exit = ends(&mut orch, 1, true, "quick-result");
    let e = exit.nonce.as_deref().unwrap();
    assert_eq!(
        exit.message,
        format!("[hash={e}] 200 <{e}>quick-result</{e}>")
    );
    assert_eq!(orch.get_output(1), Some("quick-result"));
}

#[test]
fn a_reminder_shows_the_latest_4096_characters() {
    let mut orch = Orchestrator::new();
    dispatch(&mut orch, "slow_progress", None);
    writes(&orch, 1, &"x".repeat(5000));
    writes(&orch, 1, "end");
    let event = ReminderEvent { pid: 1, elapsed_secs: 1 };
    let remind = match orch.drain_emittable(vec![], vec![event]).unwrap().pop() {
        Some(Emission::Single(entry)) => entry,
        _ => panic!("a REMIND must be pushed"),
    };
    let h = remind.nonce.as_deref().unwrap();
    let tail = wrapped_text(&remind.message, h);
    assert_eq!(tail.len(), 4096);
    assert!(tail.ends_with("xxend"));
}
