use std::collections::HashSet;

use dispatch::signal::{SignalEntry, SignalKind, SignalWindow};
use serde_json::Value;

fn entry(pid: u64, message: &str) -> SignalEntry {
    SignalEntry::new(pid, SignalKind::Exit, message.to_string())
}

#[test]
fn every_kind_has_its_name() {
    let names: Vec<&str> = [
        SignalKind::Init,
        SignalKind::Remind,
        SignalKind::Exit,
        SignalKind::Kill,
        SignalKind::Wait,
    ]
    .into_iter()
    .map(|k| k.label())
    .collect();
    assert_eq!(names, vec!["INIT", "REMIND", "EXIT", "KILL", "WAIT"]);
}

#[test]
fn a_line_shows_pid_kind_and_message() {
    assert_eq!(entry(12, "done").line(), "[12] EXIT done");
}

#[test]
fn absent_parts_are_not_written() {
    assert_eq!(
        entry(1, "m").to_json(),
        serde_json::from_str::<Value>(r#"{"pid": 1, "kind": "EXIT", "message": "m"}"#).unwrap()
    );
    let payload: Value = serde_json::from_str(r#"{"a": [true]}"#).unwrap();
    let full = SignalEntry::with_payload(2, SignalKind::Init, "i".to_string(), payload.clone())
        .with_nonce("h".to_string());
    let json = full.to_json();
    assert_eq!(json["pid"], 2);
    assert_eq!(json["kind"], "INIT");
    assert_eq!(json["nonce"], "h");
    assert_eq!(json["payload"], payload);
    assert_eq!(json.as_object().unwrap().len(), 5);
    let copy = full.clone();
    assert_eq!(copy.to_json(), json);
}

#[test]
fn the_window_keeps_the_latest_signals() {
    let mut window = SignalWindow::new(3);
    for i in 0..5u64 {
        window.push(entry(i, "x"));
    }
    let pids: Vec<u64> = window.all().iter().map(|e| e.pid).collect();
    assert_eq!(pids, vec![2, 3, 4]);
    let mut none = SignalWindow::new(0);
    none.push(entry(1, "x"));
    assert!(none.all().is_empty());
}

#[test]
fn a_window_is_shown_one_line_per_signal() {
    let mut window = SignalWindow::new(20);
    assert_eq!(window.format_window(5), "");
    window.push(entry(1, "a"));
    window.push(entry(2, "b"));
    window.push(entry(1, "c"));
    assert_eq!(window.format_window(20), "[1] EXIT a\n[2] EXIT b\n[1] EXIT c");
    assert_eq!(window.format_window(2), "[2] EXIT b\n[1] EXIT c");
    assert_eq!(window.format_window(0), "");
}

#[test]
fn a_window_can_be_limited_to_some_tasks() {
    let mut window = SignalWindow::new(20);
    for (pid, message) in [(1, "a"), (2, "b"), (1, "c"), (3, "d"), (1, "e")] {
        window.push(entry(pid, message));
    }
    let pids = HashSet::from([1, 3]);
    assert_eq!(
        window.format_window_for_pids(20, &pids),
        "[1] EXIT a\n[1] EXIT c\n[3] EXIT d\n[1] EXIT e"
    );
    // The count is of the tasks' own signals.
    assert_eq!(
        window.format_window_for_pids(2, &pids),
        "[3] EXIT d\n[1] EXIT e"
    );
    assert_eq!(window.format_window_for_pids(20, &HashSet::new()), "");
}

#[test]
fn a_window_is_written_as_an_array() {
    let mut window = SignalWindow::new(20);
    assert_eq!(window.to_json(5), serde_json::from_str::<Value>("[]").unwrap());
    window.push(entry(1, "a"));
    window.push(entry(2, "b"));
    let json = window.to_json(1);
    assert_eq!(json.as_array().unwrap().len(), 1);
    assert_eq!(json[0]["message"], "b");
}
