use dispatch::error::DispatchError;
use dispatch::mcp_client::{CommandOutput, DmcpClient};
use serde_json::Value;

fn ok(stdout: &str) -> CommandOutput {
    CommandOutput {
        success: true,
        stdout: stdout.as_bytes().to_vec(),
        stderr: b"noise".to_vec(),
    }
}

fn failed(stderr: &str) -> CommandOutput {
    CommandOutput {
        success: false,
        stdout: b"[1]".to_vec(),
        stderr: stderr.as_bytes().to_vec(),
    }
}

fn json(text: &str) -> Value {
    serde_json::from_str(text).unwrap()
}

fn detail<T: std::fmt::Debug>(r: Result<T, DispatchError>) -> String {
    match r {
        Err(DispatchError::DmcpError(detail)) => detail,
        other => panic!("expected a dmcp error, got {:?}", other),
    }
}

#[test]
fn a_call_names_server_tool_and_parameters() {
    assert_eq!(
        DmcpClient::call_args("srv", "add", &json(r#"{"b": 2, "a": 1}"#), &None),
        vec!["call", "srv", "add", "--args", r#"{"a":1,"b":2}"#]
    );
}

#[test]
fn empty_parameters_are_left_out() {
    for params in ["null", "{}"] {
        assert_eq!(
            DmcpClient::call_args("srv", "add", &json(params), &None),
            vec!["call", "srv", "add"]
        );
    }
    assert_eq!(
        DmcpClient::call_args("srv", "add", &json("[]"), &None),
        vec!["call", "srv", "add", "--args", "[]"]
    );
}

#[test]
fn a_session_is_passed_on() {
    assert_eq!(
        DmcpClient::call_args("srv", "add", &json("{}"), &Some("goal".to_string())),
        vec!["call", "srv", "add", "--session", "goal"]
    );
    assert_eq!(
        DmcpClient::call_args_with(
            "srv",
            "add",
            &Some("1".to_string()),
            &Some("goal".to_string())
        ),
        vec!["call", "srv", "add", "--args", "1", "--session", "goal"]
    );
}

#[test]
fn the_exit_status_decides_what_a_call_came_to() {
    assert_eq!(
        DmcpClient::call_tool(true, b"  out \n", "noise").unwrap(),
        "out"
    );
    assert_eq!(detail(DmcpClient::call_tool(false, b" told \n", "noise")), "told");
    assert_eq!(detail(DmcpClient::call_tool(false, b" \n\t", " why \n")), "why");
    assert_eq!(detail(DmcpClient::call_tool(false, b"", "")), "");
}

#[test]
fn output_that_is_no_text_is_decoded_lossily() {
    assert_eq!(
        DmcpClient::call_tool(true, b"\xffok\n", "").unwrap(),
        "\u{fffd}ok"
    );
}

#[test]
fn every_kind_of_white_space_is_trimmed() {
    assert_eq!(
        DmcpClient::call_tool(true, "\u{a0}\u{2003}a b\u{3000}\r\n".as_bytes(), "").unwrap(),
        "a b"
    );
}

#[test]
fn dmcp_is_available_where_it_answers() {
    assert!(DmcpClient::check_available(Some(true)).is_ok());
    assert!(matches!(
        DmcpClient::check_available(Some(false)),
        Err(DispatchError::DmcpNotFound)
    ));
    assert!(matches!(
        DmcpClient::check_available(None),
        Err(DispatchError::DmcpNotFound)
    ));
}

#[test]
fn failures_to_start_and_to_wait_are_told_apart() {
    assert_eq!(
        DmcpClient::spawn_failure("no file").message(),
        "dmcp error: failed to spawn dmcp: no file"
    );
    assert_eq!(
        DmcpClient::run_failure("gone").message(),
        "dmcp error: failed to run dmcp: gone"
    );
}

#[test]
fn a_keyword_search_repeats_its_flag() {
    assert_eq!(DmcpClient::browse_args(&vec![]), vec!["browse", "--json"]);
    assert_eq!(
        DmcpClient::browse_args(&vec!["mail".to_string(), "send it".to_string()]),
        vec!["browse", "--json", "-k", "mail", "-k", "send it"]
    );
}

#[test]
fn vector_searches_differ_in_one_flag() {
    assert_eq!(
        DmcpClient::browse_vector_args("[0.5]", 10, "0.25"),
        vec!["browse", "--vector", "[0.5]", "--top-k", "10", "--min-score", "0.25", "--json"]
    );
    assert_eq!(
        DmcpClient::browse_vectors_args("[[0.5]]", u64::MAX, "0"),
        vec![
            "browse",
            "--vectors",
            "[[0.5]]",
            "--top-k",
            "18446744073709551615",
            "--min-score",
            "0",
            "--json"
        ]
    );
}

#[test]
fn server_commands_name_the_server() {
    assert_eq!(DmcpClient::list_tools_args("srv"), vec!["tools", "srv", "--json"]);
    assert_eq!(DmcpClient::info_args("srv"), vec!["info", "srv", "--json"]);
    assert_eq!(
        DmcpClient::index_server_args("srv", &json(r#"{"tools": {}, "server": [1]}"#)),
        vec!["index-server", "srv", "--vectors", r#"{"server":[1],"tools":{}}"#]
    );
}

#[test]
fn json_on_stdout_is_read() {
    let value = json(r#"[{"id": "srv", "score": 0.5}]"#);
    let output = ok("\n [{\"id\": \"srv\", \"score\": 0.5}] \n");
    assert_eq!(DmcpClient::browse(&output).unwrap(), value);
    assert_eq!(DmcpClient::browse_vector(&output).unwrap(), value);
    assert_eq!(DmcpClient::browse_vectors(&output).unwrap(), value);
    assert_eq!(DmcpClient::embedding_spec(&output).unwrap(), value);
    assert_eq!(DmcpClient::list_tools(&output).unwrap(), value);
}

#[test]
fn a_failed_command_is_told_by_its_stderr() {
    let output = failed(" no registry \n");
    assert_eq!(detail(DmcpClient::browse(&output)), "no registry");
    assert_eq!(detail(DmcpClient::browse_vector(&output)), "no registry");
    assert_eq!(detail(DmcpClient::browse_vectors(&output)), "no registry");
    assert_eq!(detail(DmcpClient::embedding_spec(&output)), "no registry");
    assert_eq!(detail(DmcpClient::list_tools(&output)), "no registry");
    assert_eq!(detail(DmcpClient::sync_index(&output)), "no registry");
    assert_eq!(detail(DmcpClient::index_server(&output)), "no registry");
    assert_eq!(detail(DmcpClient::server_count(&output)), "no registry");
}

#[test]
fn stdout_that_is_no_json_names_the_command() {
    let reason = serde_json::from_str::<Value>("{oops").unwrap_err().to_string();
    let output = ok("{oops");
    assert_eq!(
        detail(DmcpClient::browse(&output)),
        format!("invalid JSON from dmcp browse: {reason}")
    );
    assert_eq!(
        detail(DmcpClient::browse_vector(&output)),
        format!("invalid JSON from dmcp browse: {reason}")
    );
    assert_eq!(
        detail(DmcpClient::browse_vectors(&output)),
        format!("invalid JSON from dmcp browse: {reason}")
    );
    assert_eq!(
        detail(DmcpClient::embedding_spec(&output)),
        format!("invalid JSON from dmcp embedding-spec: {reason}")
    );
    assert_eq!(
        detail(DmcpClient::list_tools(&output)),
        format!("invalid JSON from dmcp tools: {reason}")
    );
    assert_eq!(
        detail(DmcpClient::json_result("tools", Err("why".to_string()))),
        "invalid JSON from dmcp tools: why"
    );
}

#[test]
fn text_on_stdout_is_trimmed() {
    assert_eq!(DmcpClient::sync_index(&ok(" synced 3 \n")).unwrap(), "synced 3");
    assert_eq!(DmcpClient::index_server(&ok("indexed\n")).unwrap(), "indexed");
}

#[test]
fn a_count_is_a_decimal_number() {
    assert_eq!(DmcpClient::server_count(&ok("42\n")).unwrap(), 42);
    assert_eq!(DmcpClient::server_count(&ok("+7")).unwrap(), 7);
    assert_eq!(DmcpClient::server_count(&ok("007")).unwrap(), 7);
    assert_eq!(
        DmcpClient::server_count(&ok("18446744073709551615")).unwrap(),
        u64::MAX
    );
    for text in ["", "-1", "many", "1 2", "18446744073709551616", "+"] {
        let reason = text.parse::<u64>().unwrap_err().to_string();
        assert_eq!(
            detail(DmcpClient::server_count(&ok(text))),
            format!("invalid count from dmcp: {reason}")
        );
    }
}
