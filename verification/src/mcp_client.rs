//! The dmcp command line: the arguments of each command, and what its exit
//! status and output mean. Running the commands is left to the caller.

use vstd::prelude::*;
use serde_json::Value;
use crate::error::DispatchError;
use crate::json;
use crate::task::params_text;
#[allow(unused_imports)]
use crate::task::params_given;
use crate::text::{decimal_string, decode_lossy, parse_number, trim};
#[allow(unused_imports)]
use crate::text::{
    decimal, decodes_exactly, is_white_space, number_error, number_of, text_of, trimmed,
    trimming_takes_off_the_ends, utf8_lossy, white_outside,
};
use crate::tool_meta::ToolMeta;
#[allow(unused_imports)]
use crate::tool_meta::declared;

verus! {

/// Client for invoking dmcp commands.
/// dispatch delegates all MCP server management to dmcp.
pub struct DmcpClient;

/// What a command that has ended left behind.
#[derive(Debug)]
pub struct CommandOutput {
    /// Whether it exited with status zero.
    pub success: bool,
    pub stdout: Vec<u8>,
    pub stderr: Vec<u8>,
}

/// Arguments, by what they hold.
pub open spec fn words_of(args: Seq<String>) -> Seq<Seq<char>> {
    Seq::new(args.len(), |i: int| args[i]@)
}

/// The output of a command as text: lossily decoded, without surrounding white
/// space.
pub open spec fn output_text(bytes: Seq<u8>) -> Seq<char> {
    trimmed(utf8_lossy(bytes))
}

/// Whether the output that a command is judged by, its stdout on success and its
/// stderr else, is decoded exactly where it is valid UTF-8.
pub open spec fn read_exactly(output: CommandOutput) -> bool {
    if output.success {
        decodes_exactly(output.stdout@)
    } else {
        decodes_exactly(output.stderr@)
    }
}

/// Whether an error is the failure of a dmcp command with this detail.
pub open spec fn fails_with(e: DispatchError, detail: Seq<char>) -> bool {
    e matches DispatchError::DmcpError(text) && text@ == detail
}

/// The arguments of a tool call.
pub open spec fn call_words(
    server: Seq<char>,
    tool: Seq<char>,
    params: Option<Seq<char>>,
    session: Option<Seq<char>>,
) -> Seq<Seq<char>> {
    seq!["call"@, server, tool] + (match params {
        Some(text) => seq!["--args"@, text],
        None => seq![],
    }) + (match session {
        Some(id) => seq!["--session"@, id],
        None => seq![],
    })
}

/// The arguments of a keyword search, from the keywords.
pub open spec fn browse_words(keywords: Seq<Seq<char>>) -> Seq<Seq<char>>
    decreases keywords.len(),
{
    if keywords.len() == 0 {
        seq!["browse"@, "--json"@]
    } else {
        browse_words(keywords.drop_last()).push("-k"@).push(keywords.last())
    }
}

/// The arguments of a vector search.
pub open spec fn vector_words(
    flag: Seq<char>,
    vectors: Seq<char>,
    top_k: u64,
    min_score: Seq<char>,
) -> Seq<Seq<char>> {
    seq![
        "browse"@,
        flag,
        vectors,
        "--top-k"@,
        decimal(top_k as nat),
        "--min-score"@,
        min_score,
        "--json"@,
    ]
}

/// The decoded and trimmed output of a command.
fn shown(bytes: &[u8]) -> (r: String)
    ensures
        r@ == output_text(bytes@),
        decodes_exactly(bytes@),
{
    let text: String = decode_lossy(bytes);
    trim(text.as_str())
}

/// An error whose detail begins with what went wrong.
fn failed(what: &str, detail: &str) -> (r: DispatchError)
    ensures
        fails_with(r, what@ + detail@),
{
    DispatchError::DmcpError(what.to_owned().concat(detail))
}

impl DmcpClient {
    /// Whether dmcp is available: `ran` is the success of `dmcp paths`, or nothing
    /// where it could not be run.
    pub fn check_available(ran: Option<bool>) -> (r: Result<(), DispatchError>)
        ensures
            match r {
                Ok(_) => ran == Some(true),
                Err(e) => ran != Some(true) && e is DmcpNotFound,
            },
    {
        match ran {
            Some(true) => Ok(()),
            _ => Err(DispatchError::DmcpNotFound),
        }
    }

    /// The error of a command that could not be started.
    pub fn spawn_failure(detail: &str) -> (r: DispatchError)
        ensures
            fails_with(r, "failed to spawn dmcp: "@ + detail@),
    {
        failed("failed to spawn dmcp: ", detail)
    }

    /// The error of a command that was started and could not be waited for.
    pub fn run_failure(detail: &str) -> (r: DispatchError)
        ensures
            fails_with(r, "failed to run dmcp: "@ + detail@),
    {
        failed("failed to run dmcp: ", detail)
    }

    /// The arguments of `dmcp call <server> <tool> --args <json>`. Parameters that
    /// are null or an object without members are left out; `session` routes the
    /// call through a persistent session.
    pub fn call_args(server: &str, tool: &str, params: &Value, session: &Option<String>) -> (r: Vec<
        String,
    >)
        ensures
            words_of(r@) == call_words(
                server@,
                tool@,
                params_given(json::json_of(*params)),
                text_of(*session),
            ),
    {
        let text: Option<String> = params_text(params);
        DmcpClient::call_args_with(server, tool, &text, session)
    }

    /// The arguments of a tool call, from the text of its parameters.
    pub fn call_args_with(
        server: &str,
        tool: &str,
        params: &Option<String>,
        session: &Option<String>,
    ) -> (r: Vec<String>)
        ensures
            words_of(r@) == call_words(server@, tool@, text_of(*params), text_of(*session)),
    {
        let mut args: Vec<String> = Vec::new();
        args.push("call".to_owned());
        args.push(server.to_owned());
        args.push(tool.to_owned());
        match params {
            Some(text) => {
                args.push("--args".to_owned());
                args.push(text.clone());
            },
            None => {},
        }
        match session {
            Some(id) => {
                args.push("--session".to_owned());
                args.push(id.clone());
            },
            None => {},
        }
        proof {
            assert(words_of(args@) =~= call_words(
                server@,
                tool@,
                text_of(*params),
                text_of(*session),
            ));
        }
        args
    }

    /// What a tool call came to: its stdout on success, else the detail of its
    /// failure.
    ///
    /// Status is read from the exit code, never by sniffing a sentinel in the
    /// output: dmcp exits 0 only when the tool succeeded, and non-zero on a
    /// tool-reported error (is_error) as well as on RPC failure. The tool's own
    /// error detail is on stdout; it is preferred, falling back to stderr (used
    /// for RPC/spawn failures).
    pub fn call_tool(success: bool, stdout: &[u8], stderr: &str) -> (r: Result<
        String,
        DispatchError,
    >)
        ensures
            match r {
                Ok(text) => success && text@ == output_text(stdout@),
                Err(e) => !success && fails_with(
                    e,
                    failure_detail(output_text(stdout@), trimmed(stderr@)),
                ),
            },
            decodes_exactly(stdout@),
    {
        let out: String = shown(stdout);
        let err: String = trim(stderr);
        DmcpClient::call_result(success, out, err)
    }

    /// What a tool call came to, from the trimmed texts of its output.
    pub fn call_result(success: bool, stdout: String, stderr: String) -> (r: Result<
        String,
        DispatchError,
    >)
        ensures
            match r {
                Ok(text) => success && text@ == stdout@,
                Err(e) => !success && fails_with(e, failure_detail(stdout@, stderr@)),
            },
    {
        if success {
            Ok(stdout)
        } else if !stdout.as_str().is_empty() {
            Err(DispatchError::DmcpError(stdout))
        } else {
            Err(DispatchError::DmcpError(stderr))
        }
    }

    /// The arguments of `dmcp browse -k <keywords> --json`.
    pub fn browse_args(keywords: &Vec<String>) -> (r: Vec<String>)
        ensures
            words_of(r@) == browse_words(words_of(keywords@)),
    {
        let mut args: Vec<String> = Vec::new();
        args.push("browse".to_owned());
        args.push("--json".to_owned());
        let mut i: usize = 0;
        proof {
            assert(words_of(args@) =~= seq!["browse"@, "--json"@]);
            assert(words_of(keywords@).take(0).len() == 0);
        }
        while i < keywords.len()
            invariant
                i <= keywords@.len(),
                words_of(args@) == browse_words(words_of(keywords@).take(i as int)),
            decreases keywords@.len() - i,
        {
            let ghost before = args@;
            args.push("-k".to_owned());
            args.push(keywords[i].clone());
            i = i + 1;
            proof {
                let upto = words_of(keywords@).take(i as int);
                assert(upto.drop_last() =~= words_of(keywords@).take(i - 1));
                assert(words_of(args@) =~= words_of(before).push("-k"@).push(upto.last()));
            }
        }
        proof {
            assert(words_of(keywords@).take(i as int) =~= words_of(keywords@));
        }
        args
    }

    /// The arguments of a single vector search, from the texts of the vector and
    /// of the least score.
    pub fn browse_vector_args(vector: &str, top_k: u64, min_score: &str) -> (r: Vec<String>)
        ensures
            words_of(r@) == vector_words("--vector"@, vector@, top_k, min_score@),
    {
        vector_args("--vector", vector, top_k, min_score)
    }

    /// The arguments of a batch vector search, from the texts of the vectors and
    /// of the least score.
    pub fn browse_vectors_args(vectors: &str, top_k: u64, min_score: &str) -> (r: Vec<String>)
        ensures
            words_of(r@) == vector_words("--vectors"@, vectors@, top_k, min_score@),
    {
        vector_args("--vectors", vectors, top_k, min_score)
    }

    /// The arguments of `dmcp index-server <id> --vectors <json>`.
    ///
    /// `payload` must be dmcp's expected object shape:
    /// `{"server": [f32...], "tools": {"<tool>": [f32...]}}`.
    pub fn index_server_args(server_id: &str, payload: &Value) -> (r: Vec<String>)
        ensures
            words_of(r@) == seq![
                "index-server"@,
                server_id@,
                "--vectors"@,
                json::json_text(json::json_of(*payload)),
            ],
    {
        let mut args: Vec<String> = Vec::new();
        args.push("index-server".to_owned());
        args.push(server_id.to_owned());
        args.push("--vectors".to_owned());
        args.push(json::display(payload));
        proof {
            assert(words_of(args@) =~= seq![
                "index-server"@,
                server_id@,
                "--vectors"@,
                json::json_text(json::json_of(*payload)),
            ]);
        }
        args
    }

    /// The arguments of `dmcp tools <id> --json`.
    pub fn list_tools_args(server: &str) -> (r: Vec<String>)
        ensures
            words_of(r@) == seq!["tools"@, server@, "--json"@],
    {
        about_server("tools", server)
    }

    /// The arguments of `dmcp info <id> --json`, which prints a manifest.
    pub fn info_args(server: &str) -> (r: Vec<String>)
        ensures
            words_of(r@) == seq!["info"@, server@, "--json"@],
    {
        about_server("info", server)
    }

    /// What `dmcp browse` by keywords came to.
    pub fn browse(output: &CommandOutput) -> (r: Result<Value, DispatchError>)
        ensures
            json_outcome("browse"@, *output, r),
            read_exactly(*output),
    {
        json_output("browse", output)
    }

    /// What `dmcp browse` by one vector came to.
    pub fn browse_vector(output: &CommandOutput) -> (r: Result<Value, DispatchError>)
        ensures
            json_outcome("browse"@, *output, r),
            read_exactly(*output),
    {
        json_output("browse", output)
    }

    /// What `dmcp browse` by a batch of vectors came to.
    pub fn browse_vectors(output: &CommandOutput) -> (r: Result<Value, DispatchError>)
        ensures
            json_outcome("browse"@, *output, r),
            read_exactly(*output),
    {
        json_output("browse", output)
    }

    /// The registry's embedding model spec that `dmcp embedding-spec` printed.
    pub fn embedding_spec(output: &CommandOutput) -> (r: Result<Value, DispatchError>)
        ensures
            json_outcome("embedding-spec"@, *output, r),
            read_exactly(*output),
    {
        json_output("embedding-spec", output)
    }

    /// The tools of a server that `dmcp tools <id> --json` printed.
    pub fn list_tools(output: &CommandOutput) -> (r: Result<Value, DispatchError>)
        ensures
            json_outcome("tools"@, *output, r),
            read_exactly(*output),
    {
        json_output("tools", output)
    }

    /// What refreshing the local vector index via `dmcp sync-index` came to.
    pub fn sync_index(output: &CommandOutput) -> (r: Result<String, DispatchError>)
        ensures
            text_outcome(*output, r),
            read_exactly(*output),
    {
        text_output(output)
    }

    /// What indexing a non-approved server via `dmcp index-server` came to.
    pub fn index_server(output: &CommandOutput) -> (r: Result<String, DispatchError>)
        ensures
            text_outcome(*output, r),
            read_exactly(*output),
    {
        text_output(output)
    }

    /// What a command that prints JSON came to, from the value or the error that
    /// its stdout reads as.
    pub fn json_result(command: &str, parsed: Result<Value, String>) -> (r: Result<
        Value,
        DispatchError,
    >)
        ensures
            match parsed {
                Ok(v) => r == Ok::<Value, DispatchError>(v),
                Err(detail) => r matches Err(e) && fails_with(
                    e,
                    "invalid JSON from dmcp "@ + command@ + ": "@ + detail@,
                ),
            },
    {
        match parsed {
            Ok(v) => Ok(v),
            Err(detail) => {
                let mut what: String = "invalid JSON from dmcp ".to_owned();
                what.append(command);
                what.append(": ");
                Err(failed(what.as_str(), detail.as_str()))
            },
        }
    }

    /// The visible server count that `dmcp count` printed.
    pub fn server_count(output: &CommandOutput) -> (r: Result<u64, DispatchError>)
        ensures
            match r {
                Ok(n) => output.success && number_of(output_text(output.stdout@)) == Some(n),
                Err(e) => if output.success {
                    number_of(output_text(output.stdout@)) is None && fails_with(
                        e,
                        "invalid count from dmcp: "@ + number_error(output_text(output.stdout@)),
                    )
                } else {
                    fails_with(e, output_text(output.stderr@))
                },
            },
            read_exactly(*output),
    {
        if output.success {
            let text: String = shown(output.stdout.as_slice());
            match parse_number(text.as_str()) {
                Ok(n) => Ok(n),
                Err(detail) => Err(failed("invalid count from dmcp: ", detail.as_str())),
            }
        } else {
            Err(DispatchError::DmcpError(shown(output.stderr.as_slice())))
        }
    }

    /// What a manifest that `dmcp info` printed declares about a tool. A manifest
    /// that cannot be read (server unknown to dmcp, no JSON) declares nothing: it
    /// must never fail a dispatch.
    pub fn manifest_meta(output: &CommandOutput, tool: &str) -> (r: Option<ToolMeta>)
        ensures
            r == (if output.success {
                match json::json_parsed(output_text(output.stdout@)) {
                    Ok(manifest) => declared(manifest, tool@),
                    Err(_) => None,
                }
            } else {
                None
            }),
            output.success ==> decodes_exactly(output.stdout@),
    {
        if output.success {
            let text: String = shown(output.stdout.as_slice());
            match json::parse(text.as_str()) {
                Ok(manifest) => ToolMeta::from_manifest(&manifest, tool),
                Err(_) => None,
            }
        } else {
            None
        }
    }
}

/// The detail of a failed tool call: its stdout, or its stderr where that is
/// empty.
pub open spec fn failure_detail(stdout: Seq<char>, stderr: Seq<char>) -> Seq<char> {
    if stdout.len() > 0 {
        stdout
    } else {
        stderr
    }
}

/// What a command that prints JSON comes to: the value on its stdout, or the
/// detail on its stderr. The command is named where its stdout is not JSON.
pub open spec fn json_outcome(
    command: Seq<char>,
    output: CommandOutput,
    r: Result<Value, DispatchError>,
) -> bool {
    if output.success {
        match json::json_parsed(output_text(output.stdout@)) {
            Ok(j) => r matches Ok(v) && json::json_of(v) == j,
            Err(detail) => r matches Err(e) && fails_with(
                e,
                "invalid JSON from dmcp "@ + command + ": "@ + detail,
            ),
        }
    } else {
        r matches Err(e) && fails_with(e, output_text(output.stderr@))
    }
}

/// What a command that prints text comes to: its stdout, or the detail on its
/// stderr.
pub open spec fn text_outcome(output: CommandOutput, r: Result<String, DispatchError>) -> bool {
    if output.success {
        r matches Ok(text) && text@ == output_text(output.stdout@)
    } else {
        r matches Err(e) && fails_with(e, output_text(output.stderr@))
    }
}

/// What a command that prints JSON came to.
fn json_output(command: &str, output: &CommandOutput) -> (r: Result<Value, DispatchError>)
    ensures
        json_outcome(command@, *output, r),
        read_exactly(*output),
{
    if output.success {
        let text: String = shown(output.stdout.as_slice());
        DmcpClient::json_result(command, json::parse(text.as_str()))
    } else {
        Err(DispatchError::DmcpError(shown(output.stderr.as_slice())))
    }
}

/// What a command that prints text came to.
fn text_output(output: &CommandOutput) -> (r: Result<String, DispatchError>)
    ensures
        text_outcome(*output, r),
        read_exactly(*output),
{
    if output.success {
        Ok(shown(output.stdout.as_slice()))
    } else {
        Err(DispatchError::DmcpError(shown(output.stderr.as_slice())))
    }
}

/// The arguments of a vector search.
fn vector_args(flag: &str, vectors: &str, top_k: u64, min_score: &str) -> (r: Vec<String>)
    ensures
        words_of(r@) == vector_words(flag@, vectors@, top_k, min_score@),
{
    let mut args: Vec<String> = Vec::new();
    args.push("browse".to_owned());
    args.push(flag.to_owned());
    args.push(vectors.to_owned());
    args.push("--top-k".to_owned());
    args.push(decimal_string(top_k));
    args.push("--min-score".to_owned());
    args.push(min_score.to_owned());
    args.push("--json".to_owned());
    proof {
        assert(words_of(args@) =~= vector_words(flag@, vectors@, top_k, min_score@));
    }
    args
}

/// The arguments of a command that prints JSON about a server.
fn about_server(command: &str, server: &str) -> (r: Vec<String>)
    ensures
        words_of(r@) == seq![command@, server@, "--json"@],
{
    let mut args: Vec<String> = Vec::new();
    args.push(command.to_owned());
    args.push(server.to_owned());
    args.push("--json".to_owned());
    proof {
        assert(words_of(args@) =~= seq![command@, server@, "--json"@]);
    }
    args
}

/// The words of a tool call are the command, the server and the tool, the
/// parameters behind `--args` where they say anything, and the session behind
/// `--session` where there is one, in this order.
pub proof fn a_call_is_spelled_out(
    server: Seq<char>,
    tool: Seq<char>,
    params: Seq<char>,
    session: Seq<char>,
)
    ensures
        call_words(server, tool, None, None) == seq!["call"@, server, tool],
        call_words(server, tool, Some(params), None) == seq![
            "call"@,
            server,
            tool,
            "--args"@,
            params,
        ],
        call_words(server, tool, None, Some(session)) == seq![
            "call"@,
            server,
            tool,
            "--session"@,
            session,
        ],
        call_words(server, tool, Some(params), Some(session)) == seq![
            "call"@,
            server,
            tool,
            "--args"@,
            params,
            "--session"@,
            session,
        ],
{
    assert(call_words(server, tool, None, None) =~= seq!["call"@, server, tool]);
    assert(call_words(server, tool, Some(params), None) =~= seq![
        "call"@,
        server,
        tool,
        "--args"@,
        params,
    ]);
    assert(call_words(server, tool, None, Some(session)) =~= seq![
        "call"@,
        server,
        tool,
        "--session"@,
        session,
    ]);
    assert(call_words(server, tool, Some(params), Some(session)) =~= seq![
        "call"@,
        server,
        tool,
        "--args"@,
        params,
        "--session"@,
        session,
    ]);
}

/// Whether a keyword stands in the words of a search in its place, behind a `-k`.
pub open spec fn asks_for(words: Seq<Seq<char>>, keyword: Seq<char>, i: int) -> bool {
    words[2 + 2 * i] == "-k"@ && words[3 + 2 * i] == keyword
}

/// A keyword search names every keyword behind a `-k` of its own, in order.
pub proof fn a_search_names_every_keyword(keywords: Seq<Seq<char>>)
    ensures
        browse_words(keywords).len() == 2 + 2 * keywords.len(),
        browse_words(keywords)[0] == "browse"@,
        browse_words(keywords)[1] == "--json"@,
        forall|i: int|
            0 <= i < keywords.len() ==> asks_for(
                browse_words(keywords),
                #[trigger] keywords[i],
                i,
            ),
    decreases keywords.len(),
{
    if keywords.len() > 0 {
        let front = keywords.drop_last();
        a_search_names_every_keyword(front);
        assert forall|i: int| 0 <= i < keywords.len() implies asks_for(
            browse_words(keywords),
            #[trigger] keywords[i],
            i,
        ) by {
            if i < front.len() {
                assert(asks_for(browse_words(front), front[i], i));
            }
        }
    }
}

/// A vector search names the vectors, how many hits are wanted and the least
/// score, each behind its flag.
pub proof fn a_vector_search_is_spelled_out(
    flag: Seq<char>,
    vectors: Seq<char>,
    top_k: u64,
    min_score: Seq<char>,
)
    ensures
        vector_words(flag, vectors, top_k, min_score) == seq![
            "browse"@,
            flag,
            vectors,
            "--top-k"@,
            decimal(top_k as nat),
            "--min-score"@,
            min_score,
            "--json"@,
        ],
{
}

/// The detail of a failed call is what the tool said on stdout, whatever stands on
/// stderr, and stderr only where stdout says nothing.
pub proof fn the_tools_own_detail_is_preferred(stdout: Seq<char>, stderr: Seq<char>)
    ensures
        stdout.len() > 0 ==> failure_detail(stdout, stderr) == stdout,
        stdout.len() == 0 ==> failure_detail(stdout, stderr) == stderr,
{
}

/// A command's output as text is part of what its bytes decode to, with only white
/// space before and behind it, and neither begins nor ends with any.
pub proof fn output_is_decoded_and_trimmed(bytes: Seq<u8>)
    ensures
        exists|from: int, to: int|
            0 <= from <= to <= utf8_lossy(bytes).len() && output_text(bytes) == utf8_lossy(
                bytes,
            ).subrange(from, to) && #[trigger] white_outside(utf8_lossy(bytes), from, to),
        output_text(bytes).len() > 0 ==> !is_white_space(output_text(bytes)[0])
            && !is_white_space(output_text(bytes).last()),
{
    trimming_takes_off_the_ends(utf8_lossy(bytes));
}

/// The exit status alone decides what a command came to: with status zero its
/// stdout is the answer, with any other its stderr is the detail of the failure.
/// An answer that must be JSON and is not is a failure that names the command.
pub proof fn the_exit_status_decides(
    command: Seq<char>,
    output: CommandOutput,
    text: Result<String, DispatchError>,
    value: Result<Value, DispatchError>,
)
    ensures
        text_outcome(output, text) && output.success ==> text is Ok && text->Ok_0@ == output_text(
            output.stdout@,
        ),
        text_outcome(output, text) && !output.success ==> (text matches Err(
            DispatchError::DmcpError(detail),
        ) && detail@ == output_text(output.stderr@)),
        json_outcome(command, output, value) && !output.success ==> (value matches Err(
            DispatchError::DmcpError(detail),
        ) && detail@ == output_text(output.stderr@)),
        json_outcome(command, output, value) && output.success ==> match json::json_parsed(
            output_text(output.stdout@),
        ) {
            Ok(j) => value is Ok && json::json_of(value->Ok_0) == j,
            Err(why) => value matches Err(DispatchError::DmcpError(detail)) && detail@
                == "invalid JSON from dmcp "@ + command + ": "@ + why,
        },
        read_exactly(output) && output.success ==> decodes_exactly(output.stdout@),
        read_exactly(output) && !output.success ==> decodes_exactly(output.stderr@),
{
}

/// An error that fails with a detail is that of a dmcp command, with that detail.
pub proof fn a_failure_carries_its_detail(e: DispatchError, detail: Seq<char>)
    ensures
        fails_with(e, detail) <==> (e matches DispatchError::DmcpError(text) && text@ == detail),
{
}

/// The view of arguments shows each of them in its place.
pub proof fn arguments_are_seen_whole(args: Seq<String>)
    ensures
        words_of(args).len() == args.len(),
        forall|i: int| 0 <= i < args.len() ==> #[trigger] words_of(args)[i] == args[i]@,
{
}

} // verus!
