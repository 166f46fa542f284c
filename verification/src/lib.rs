//! Dispatch: concurrent MCP tool calls and timers for an LLM that does not wait.
//!
//! A caller dispatches tasks and is told of them by signals: INIT when one is
//! dispatched, REMIND while it runs, EXIT when it ends, KILL and WAIT in answer to
//! requests. Calls run through the `dmcp` command line.
//!
//! Every decision is made here, on plain values; the program around the library
//! runs the processes, the clocks and the channels.
//!
//! - `orchestrator`: the tasks, the window of signals, reminders and output, and
//!   the steps on them;
//! - `state`: the same as a mathematical value, with each step as a function;
//! - `laws`: what holds of these steps taken together;
//! - `behaviour`: what each step is for, in terms of what it is given and gives;
//! - `task`, `signal`, `reminder`, `tail`, `tool_meta`, `error`: the parts;
//! - `mcp_client`: arguments and results of dmcp commands;
//! - `nonce`, `boundary`: how a tool's text is told from dispatch's own;
//! - `json`, `text`: values of `serde_json`, and text helpers.

pub mod behaviour;
pub mod boundary;
pub mod error;
pub mod json;
pub mod laws;
pub mod mcp_client;
pub mod nonce;
pub mod orchestrator;
pub mod reminder;
pub mod signal;
pub mod state;
pub mod tail;
pub mod task;
pub mod text;
pub mod tool_meta;
