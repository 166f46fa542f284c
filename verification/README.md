# dispatch

Runs MCP tool calls and timers in the background for an LLM, and tells it of
them by signals. Calls go through the `dmcp` command line.

- `src/` is the library, verified with Verus: which tasks there are and what state
  each is in, what is signalled and when, what is held back until a session
  settles, when a reminder is armed, and what a dmcp command's output means.
  `state.rs` gives the orchestrator's state as a mathematical value and every step
  as a function on it; the executable functions in `orchestrator.rs` are proved to
  take exactly these steps, and `laws.rs` proves what follows from them, such as
  that no held signal is ever lost and that a reader finds a tool's output whole
  between its boundary tags.
- `app/` is the program around it: processes, clocks, channels, and the serde
  forms of the library's types.
- `tests/` runs the library.

What is trusted without proof is marked `external_body` or `assume_specification`:
the reading and building of `serde_json` values (`json.rs`), the random bytes of
`getrandom` (`nonce.rs`), and a few functions of std (`text.rs`).
