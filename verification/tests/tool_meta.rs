use dispatch::tool_meta::{
    plan_reminder, RemindPlan, RemindSource, ToolMeta, DEFAULT_BLOCKING_REMIND_SECS,
};
use serde_json::Value;

fn json(text: &str) -> Value {
    serde_json::from_str(text).unwrap()
}

fn manifest(tools: &str) -> Value {
    json(&format!("{{ \"id\": \"srv\", \"tools\": {tools} }}"))
}

#[test]
fn reads_blocking_and_suggestion_for_the_named_tool() {
    let m = manifest(
        r#"[
            {"name": "other", "blocking": true, "suggestedRemindAfter": 99},
            {"name": "run_job", "blocking": true, "suggestedRemindAfter": 45}
        ]"#,
    );
    assert_eq!(
        ToolMeta::from_manifest(&m, "run_job"),
        Some(ToolMeta {
            blocking: true,
            suggested_remind_after: Some(45)
        })
    );
}

#[test]
fn absent_keys_mean_the_pre_change_default() {
    let m = manifest(r#"[{"name": "add", "description": "adds"}]"#);
    assert_eq!(
        ToolMeta::from_manifest(&m, "add"),
        Some(ToolMeta::default())
    );
    assert!(!ToolMeta::from_manifest(&m, "add").unwrap().blocking);
}

#[test]
fn unknown_tool_or_missing_tools_array_yields_no_metadata() {
    let m = manifest(r#"[{"name": "add"}]"#);
    assert_eq!(ToolMeta::from_manifest(&m, "nope"), None);
    assert_eq!(ToolMeta::from_manifest(&json(r#"{"id": "srv"}"#), "add"), None);
    assert_eq!(
        ToolMeta::from_manifest(&manifest(r#""not-an-array""#), "add"),
        None
    );
    // String tool entries carry no metadata and must not panic.
    assert_eq!(
        ToolMeta::from_manifest(&manifest(r#"["add"]"#), "add"),
        None
    );
}

#[test]
fn malformed_declarations_fall_back_instead_of_erroring() {
    let m = manifest(
        r#"[
            {"name": "a", "blocking": "yes", "suggestedRemindAfter": "soon"},
            {"name": "b", "blocking": true, "suggestedRemindAfter": 0},
            {"name": "c", "blocking": true, "suggestedRemindAfter": -5},
            {"name": "d", "blocking": true, "suggestedRemindAfter": 2.5}
        ]"#,
    );
    assert_eq!(ToolMeta::from_manifest(&m, "a"), Some(ToolMeta::default()));
    for tool in ["b", "c", "d"] {
        let meta = ToolMeta::from_manifest(&m, tool).unwrap();
        assert!(meta.blocking);
        assert_eq!(
            meta.suggested_remind_after, None,
            "an unreadable suggestion is no suggestion ({tool})"
        );
        assert_eq!(
            plan_reminder(None, Some(meta)),
            RemindPlan::Applied {
                secs: DEFAULT_BLOCKING_REMIND_SECS,
                source: RemindSource::BuiltInDefault
            },
            "a blocking tool still gets a reminder ({tool})"
        );
    }
}

#[test]
fn caller_interval_always_wins() {
    let blocking = Some(ToolMeta {
        blocking: true,
        suggested_remind_after: Some(45),
    });
    assert_eq!(plan_reminder(Some(7), blocking), RemindPlan::Caller(7));
    assert_eq!(plan_reminder(Some(7), None), RemindPlan::Caller(7));
    assert!(plan_reminder(Some(7), blocking).auto_applied().is_none());
    assert!(plan_reminder(Some(7), blocking).applied_note().is_none());
}

#[test]
fn zero_is_the_explicit_opt_out_even_for_a_blocking_tool() {
    let blocking = Some(ToolMeta {
        blocking: true,
        suggested_remind_after: Some(45),
    });
    assert_eq!(plan_reminder(Some(0), blocking), RemindPlan::NoReminder);
    assert_eq!(plan_reminder(Some(0), blocking).interval(), None);
}

#[test]
fn blocking_tool_without_caller_interval_uses_the_suggestion() {
    let plan = plan_reminder(
        None,
        Some(ToolMeta {
            blocking: true,
            suggested_remind_after: Some(45),
        }),
    );
    assert_eq!(
        plan,
        RemindPlan::Applied {
            secs: 45,
            source: RemindSource::ToolSuggested
        }
    );
    assert_eq!(plan.interval(), Some(45));
    assert_eq!(plan.auto_applied(), Some(45));
    assert!(plan.applied_note().unwrap().contains("auto-remind 45s"));
}

#[test]
fn blocking_tool_without_a_suggestion_uses_the_builtin_default() {
    let plan = plan_reminder(
        None,
        Some(ToolMeta {
            blocking: true,
            suggested_remind_after: None,
        }),
    );
    assert_eq!(plan.interval(), Some(DEFAULT_BLOCKING_REMIND_SECS));
    assert!(plan.applied_note().unwrap().contains("dispatch default"));
}

#[test]
fn non_blocking_tool_without_caller_interval_is_unchanged() {
    // Even in the meaningless-but-legal suggestion-without-blocking case.
    let suggestion_only = Some(ToolMeta {
        blocking: false,
        suggested_remind_after: Some(45),
    });
    assert_eq!(plan_reminder(None, suggestion_only), RemindPlan::NoReminder);
    assert_eq!(
        plan_reminder(None, Some(ToolMeta::default())),
        RemindPlan::NoReminder
    );
    assert_eq!(plan_reminder(None, None), RemindPlan::NoReminder);
}

#[test]
fn notes_read_exactly() {
    let suggested = ToolMeta::from_entry(Some(true), Some(45));
    assert_eq!(
        plan_reminder(None, Some(suggested)).applied_note().unwrap(),
        "[auto-remind 45s — tool declares blocking, interval suggested by its manifest]"
    );
    let bare = ToolMeta::from_entry(Some(true), Some(0));
    assert_eq!(
        plan_reminder(None, Some(bare)).applied_note().unwrap(),
        "[auto-remind 30s — tool declares blocking, manifest suggested none, dispatch default]"
    );
}

#[test]
fn the_first_entry_of_a_name_counts() {
    let m = manifest(
        r#"[
            {"name": "x", "blocking": true, "suggestedRemindAfter": 3},
            {"name": "x", "blocking": false}
        ]"#,
    );
    assert_eq!(
        ToolMeta::from_manifest(&m, "x"),
        Some(ToolMeta {
            blocking: true,
            suggested_remind_after: Some(3)
        })
    );
}
