use dispatch::boundary::{stamp, tag, tail_message};
use dispatch::error::DispatchError;
use dispatch::nonce::generate;
use dispatch::task::{
    call_description, default_fire_wake, live_tail, LiveTail, Task, TaskDef, TaskState, TaskStatus,
    TaskStatusKind, TimerDef, NANOS_PER_SEC,
};
use dispatch::text::{decimal_string, last_chars, trim, white_space};
use serde_json::Value;

#[test]
fn numbers_are_written_without_leading_zeros() {
    for n in [0, 9, 10, 99, 100, 1009, u64::MAX] {
        assert_eq!(decimal_string(n), n.to_string());
    }
}

#[test]
fn last_characters_are_counted_in_characters() {
    assert_eq!(last_chars("aé漢", 2), "é漢");
    assert_eq!(last_chars("aé漢", 3), "aé漢");
    assert_eq!(last_chars("aé漢", 9), "aé漢");
    assert_eq!(last_chars("aé漢", 0), "");
}

#[test]
fn trimming_takes_white_space_at_both_ends() {
    for text in ["", " ", "a", " a ", "\n\ta b\r\n", "\u{3000}x\u{2028}", "\u{200b}x"] {
        assert_eq!(trim(text), text.trim());
    }
}

#[test]
fn text_is_tagged_and_announced() {
    assert_eq!(tag("n", "x"), "<n>x</n>");
    assert_eq!(stamp("n", "200 (deferred)"), "[hash=n] 200 (deferred)");
    assert_eq!(tail_message("n", "x"), "[hash=n] <n>x</n>");
}

#[test]
fn every_error_has_its_text() {
    let cases = [
        (DispatchError::TaskNotFound(7), "task not found: 7"),
        (DispatchError::DmcpNotFound, "dmcp not found on PATH"),
        (DispatchError::DmcpError("why".to_string()), "dmcp error: why"),
        (DispatchError::ChannelClosed, "event channel closed"),
        (DispatchError::EntropyUnavailable, "OS CSPRNG unavailable"),
    ];
    for (error, text) in cases {
        assert_eq!(error.message(), text);
        assert_eq!(error.failure(), format!("Error: {text}"));
    }
}

fn call() -> TaskDef {
    TaskDef {
        server: "srv".to_string(),
        tool: "add".to_string(),
        params: serde_json::from_str(r#"{"a": 1}"#).unwrap(),
        remind_after: None,
        fire_wake: default_fire_wake(),
        defer_output: false,
        stateful: false,
    }
}

fn timer() -> TimerDef {
    TimerDef {
        label: "tea".to_string(),
        duration: 180,
        metadata: None,
    }
}

#[test]
fn a_call_starts_with_a_nonce_and_a_tail() {
    let nonce = generate().unwrap();
    let mut task = Task::new_mcp(3, call(), nonce.clone(), 0);
    assert!(task.is_running());
    assert_eq!(task.nonce, Some(nonce));
    assert!(task.tail.is_some());
    assert_eq!(task.description(), r#"srv/add {"a":1}"#);
    assert_eq!(task.mcp_def().server, "srv");
    task.mark_exited();
    assert_eq!(task.state, TaskState::Exited);
    assert!(task.tail.is_none());
}

#[test]
fn a_timer_starts_with_neither() {
    let mut task = Task::new_timer(4, timer(), 0);
    assert!(task.is_running());
    assert!(task.nonce.is_none());
    assert!(task.tail.is_none());
    assert_eq!(task.description(), "timer \"tea\" (180s)");
    assert_eq!(task.timer_def().label, "tea");
    task.mark_killed();
    assert_eq!(task.state, TaskState::Killed);
    assert!(!task.is_running());
}

#[test]
fn a_description_without_parameters_ends_with_the_tool() {
    assert_eq!(call_description("s", "t", &None), "s/t");
    assert_eq!(call_description("s", "t", &Some("[]".to_string())), "s/t []");
}

#[test]
fn a_status_counts_whole_seconds() {
    let task = Task::new_timer(4, timer(), 5);
    for (now, left) in [
        (0, 180),
        (5, 180),
        (5 + NANOS_PER_SEC - 1, 180),
        (5 + NANOS_PER_SEC, 179),
        (5 + 180 * NANOS_PER_SEC, 0),
        (u64::MAX, 0),
    ] {
        match TaskStatus::from_task(&task, now).kind {
            TaskStatusKind::Timer { fires_in, .. } => assert_eq!(fires_in, left),
            other => panic!("expected a timer, got {:?}", other),
        }
    }
}

#[test]
fn a_status_shows_the_tail_that_was_read() {
    let task = Task::new_mcp(3, call(), generate().unwrap(), 0);
    let live = LiveTail { nonce: "n".to_string(), text: "hm".to_string() };
    let status = TaskStatus::with_tail(&task, 0, Some(live));
    assert_eq!(status.tail.as_deref(), Some("[hash=n] <n>hm</n>"));
    assert_eq!(status.tail_hash.as_deref(), Some("n"));
    assert!(TaskStatus::with_tail(&task, 0, None).tail.is_none());
}

#[test]
fn copies_hold_the_same() {
    let def = call().clone();
    assert_eq!(def.params, call().params);
    let mut with_meta = timer();
    with_meta.metadata = Some(Value::Bool(true));
    assert_eq!(with_meta.clone().metadata, Some(Value::Bool(true)));
}

#[test]
fn a_live_tail_goes_out_under_the_nonce_that_was_drawn() {
    let live = live_tail("aé漢".as_bytes(), 2, Ok("n".to_string()))
        .unwrap()
        .unwrap();
    assert_eq!(live.nonce, "n");
    assert_eq!(live.text, "é漢");
    assert!(matches!(
        live_tail(b"hm", 2, Err(DispatchError::EntropyUnavailable)),
        Err(DispatchError::EntropyUnavailable)
    ));
    // An empty ring needs no nonce.
    assert!(live_tail(b"", 2, Ok("n".to_string())).unwrap().is_none());
    assert!(live_tail(b"", 2, Err(DispatchError::EntropyUnavailable))
        .unwrap()
        .is_none());
}

#[test]
fn white_space_is_the_unicode_property() {
    for c in '\0'..=char::MAX {
        assert_eq!(white_space(c), c.is_whitespace(), "{c:?}");
    }
}
