//! What can go wrong in a dispatch call.

use vstd::prelude::*;
use crate::text::decimal_string;
#[allow(unused_imports)]
use crate::text::decimal;

verus! {

/// Why a dispatch call failed.
#[derive(Debug)]
pub enum DispatchError {
    /// No task has this PID.
    TaskNotFound(u64),
    /// dmcp is not on PATH, or does not answer.
    DmcpNotFound,
    /// dmcp ran and failed, with its own detail.
    DmcpError(String),
    /// The channels that carry results and reminders are closed.
    ChannelClosed,
    /// The operating system gave no fresh random bytes for a nonce.
    EntropyUnavailable,
}

/// The text of an error, as it is shown to a caller.
pub open spec fn error_text(e: DispatchError) -> Seq<char> {
    match e {
        DispatchError::TaskNotFound(pid) => "task not found: "@ + decimal(pid as nat),
        DispatchError::DmcpNotFound => "dmcp not found on PATH"@,
        DispatchError::DmcpError(detail) => "dmcp error: "@ + detail@,
        DispatchError::ChannelClosed => "event channel closed"@,
        DispatchError::EntropyUnavailable => "OS CSPRNG unavailable"@,
    }
}

impl DispatchError {
    /// The error as text.
    pub fn message(&self) -> (r: String)
        ensures
            r@ == error_text(*self),
    {
        match self {
            DispatchError::TaskNotFound(pid) => {
                let number: String = decimal_string(*pid);
                "task not found: ".to_owned().concat(number.as_str())
            },
            DispatchError::DmcpNotFound => "dmcp not found on PATH".to_owned(),
            DispatchError::DmcpError(detail) => {
                "dmcp error: ".to_owned().concat(detail.as_str())
            },
            DispatchError::ChannelClosed => "event channel closed".to_owned(),
            DispatchError::EntropyUnavailable => "OS CSPRNG unavailable".to_owned(),
        }
    }

    /// The failure that a task's EXIT signal reports for this error.
    pub fn failure(&self) -> (r: String)
        ensures
            r@ == "Error: "@ + error_text(*self),
    {
        let message: String = self.message();
        "Error: ".to_owned().concat(message.as_str())
    }
}

/// Each error is told in its own words, with the PID or the detail that it is
/// about.
pub proof fn errors_are_told_in_their_own_words(e: DispatchError)
    ensures
        e matches DispatchError::TaskNotFound(pid) ==> error_text(e) == "task not found: "@
            + decimal(pid as nat),
        e matches DispatchError::DmcpError(detail) ==> error_text(e) == "dmcp error: "@ + detail@,
        e is DmcpNotFound ==> error_text(e) == "dmcp not found on PATH"@,
        e is ChannelClosed ==> error_text(e) == "event channel closed"@,
        e is EntropyUnavailable ==> error_text(e) == "OS CSPRNG unavailable"@,
{
}

} // verus!
