//! Reminders on tools that can park awaiting input: what a caller sees of them
//! when a manifest, a dispatch call, a timer and a drain work together.

use dispatch::mcp_client::{CommandOutput, DmcpClient};
use dispatch::orchestrator::{Emission, Orchestrator, TaskResult, TaskResultKind};
use dispatch::signal::{SignalEntry, SignalKind};
use dispatch::task::{PreparedTask, TaskDef, TaskState, TaskStatusKind};
use dispatch::tool_meta::DEFAULT_BLOCKING_REMIND_SECS;
use serde_json::Value;

fn def(server: &str, tool: &str, remind_after: Option<u64>) -> TaskDef {
    TaskDef {
        server: server.into(),
        tool: tool.into(),
        params: Value::Null,
        remind_after,
        fire_wake: true,
        defer_output: false,
        stateful: false,
    }
}

/// The manifests that `dmcp info` prints.
fn info(server: &str) -> CommandOutput {
    let manifest = match server {
        "blocking" => {
            r#"{"tools": [{"name": "run_job", "blocking": true, "suggestedRemindAfter": 2}]}"#
        }
        "blocking_no_suggestion" => r#"{"tools": [{"name": "run_job", "blocking": true}]}"#,
        "fake" => r#"{"tools": [{"name": "slow_progress"}, {"name": "quick"}]}"#,
        _ => "",
    };
    CommandOutput {
        success: !manifest.is_empty(),
        stdout: manifest.as_bytes().to_vec(),
        stderr: b"unknown server".to_vec(),
    }
}

/// Dispatch one call with what its manifest declares; the INIT text.
fn dispatch(orch: &mut Orchestrator, server: &str, tool: &str, remind_after: Option<u64>) -> String {
    let prepared = PreparedTask {
        def: def(server, tool, remind_after),
        tool_meta: DmcpClient::manifest_meta(&info(server), tool),
    };
    assert_eq!(orch.dispatch(vec![prepared], None, None, 0).unwrap(), vec![1]);
    orch.wakeup_context()
}

/// The REMIND that is pushed when the armed timer of task 1 first fires.
fn first_remind(orch: &mut Orchestrator) -> Option<SignalEntry> {
    let event = orch.fire_reminder(1)?;
    let mut emissions = orch.drain_emittable(vec![], vec![event]).unwrap();
    match emissions.pop() {
        Some(Emission::Single(entry)) if entry.kind == SignalKind::Remind => Some(entry),
        _ => None,
    }
}

fn exit(orch: &mut Orchestrator, output: &str) -> SignalEntry {
    let result = TaskResult {
        pid: 1,
        kind: TaskResultKind::McpComplete(Ok(output.to_string())),
    };
    match orch.drain_emittable(vec![result], vec![]).unwrap().pop() {
        Some(Emission::Single(entry)) => entry,
        _ => panic!("EXIT pushed"),
    }
}

#[test]
fn blocking_tool_without_remind_after_emits_an_auto_armed_remind() {
    let mut orch = Orchestrator::new();
    let init = dispatch(&mut orch, "blocking", "run_job", None);
    assert!(
        init.contains("auto-remind 2s") && init.contains("tool declares blocking"),
        "INIT must disclose the reminder dispatch armed itself, got: {init}"
    );
    assert_eq!(orch.status(0)[0].auto_remind_after, Some(2));
    let remind = first_remind(&mut orch)
        .expect("a REMIND must be PUSHED to the client, not merely recorded");
    assert!(
        remind.message.starts_with("Running for 2s"),
        "the reminder must fire at the manifest's suggested interval, got: {}",
        remind.message
    );
    assert_eq!(remind.pid, 1);
}

#[test]
fn explicit_remind_after_wins_over_the_manifest_suggestion() {
    let mut orch = Orchestrator::new();
    let init = dispatch(&mut orch, "blocking", "run_job", Some(1));
    assert!(
        !init.contains("auto-remind"),
        "the caller's own interval is not an injection, got: {init}"
    );
    assert!(orch.status(0)[0].auto_remind_after.is_none());
    let remind = first_remind(&mut orch).expect("REMIND pushed");
    assert!(
        remind.message.starts_with("Running for 1s"),
        "the caller's 1s must be used, not the manifest's 2s, got: {}",
        remind.message
    );
}

#[test]
fn explicit_zero_opts_out_of_reminders_on_a_blocking_tool() {
    let mut orch = Orchestrator::new();
    let init = dispatch(&mut orch, "blocking", "run_job", Some(0));
    assert!(!init.contains("auto-remind"));
    assert!(
        first_remind(&mut orch).is_none(),
        "no REMIND may be pushed after an explicit opt-out"
    );
    assert_eq!(exit(&mut orch, "done").kind, SignalKind::Exit);
}

#[test]
fn non_blocking_tool_without_remind_after_is_unchanged() {
    let mut orch = Orchestrator::new();
    let init = dispatch(&mut orch, "fake", "slow_progress", None);
    assert!(!init.contains("auto-remind"));
    let status = orch.status(0).pop().unwrap();
    assert_eq!(status.pid, 1);
    assert_eq!(status.state, TaskState::Running);
    match status.kind {
        TaskStatusKind::Mcp { server, tool } => {
            assert_eq!(server, "fake");
            assert_eq!(tool, "slow_progress");
        }
        other => panic!("expected a call, got {:?}", other),
    }
    assert!(status.tail.is_none());
    assert!(status.tail_hash.is_none());
    assert!(status.auto_remind_after.is_none());
    assert!(
        first_remind(&mut orch).is_none(),
        "a tool that declares nothing must get no reminder"
    );
    assert_eq!(exit(&mut orch, "slow-result").kind, SignalKind::Exit);
    assert!(
        first_remind(&mut orch).is_none(),
        "a tool that declares nothing must get no reminder"
    );
}

#[test]
fn blocking_without_a_suggestion_uses_the_builtin_default() {
    let mut orch = Orchestrator::new();
    let init = dispatch(&mut orch, "blocking_no_suggestion", "run_job", None);
    assert!(
        init.contains(&format!("auto-remind {DEFAULT_BLOCKING_REMIND_SECS}s"))
            && init.contains("dispatch default"),
        "INIT must name the interval and that it was dispatch's own, got: {init}"
    );
    assert_eq!(
        orch.status(0)[0].auto_remind_after,
        Some(DEFAULT_BLOCKING_REMIND_SECS)
    );
    assert_eq!(
        orch.reminder_interval(1),
        Some(DEFAULT_BLOCKING_REMIND_SECS)
    );
}

#[test]
fn unreadable_manifest_falls_back_to_the_pre_change_behavior() {
    let mut orch = Orchestrator::new();
    let init = dispatch(&mut orch, "not_in_any_manifest", "quick", None);
    assert!(!init.contains("auto-remind"));
    let signal = exit(&mut orch, "quick-result");
    let h = signal.nonce.unwrap();
    assert_eq!(
        signal.message,
        format!("[hash={h}] 200 <{h}>quick-result</{h}>")
    );
}

#[test]
fn a_manifest_that_is_no_json_declares_nothing() {
    let output = CommandOutput {
        success: true,
        stdout: b"not json".to_vec(),
        stderr: vec![],
    };
    assert!(DmcpClient::manifest_meta(&output, "run_job").is_none());
}

#[test]
fn a_tool_that_declares_nothing_gets_no_timer_while_it_runs() {
    let mut orch = Orchestrator::new();
    dispatch(&mut orch, "fake", "slow_progress", None);
    assert!(orch.is_running(1));
    assert!(orch.reminder_interval(1).is_none());
    assert!(first_remind(&mut orch).is_none());
    let mut optout = Orchestrator::new();
    dispatch(&mut optout, "blocking", "run_job", Some(0));
    assert!(optout.is_running(1));
    assert!(optout.reminder_interval(1).is_none());
}
