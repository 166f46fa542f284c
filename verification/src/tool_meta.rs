//! Per-tool metadata a server manifest declares about its own tools, and the
//! reminder policy dispatch derives from it.
//!
//! A tool that parks waiting for input (an installer with no `-y`, a shell job
//! that asks a question) produces nothing further until someone answers. A
//! caller that dispatched it without `remind_after` is never woken, so the LLM
//! goes idle believing work is still in flight. `blocking: true` is the tool
//! author's own declaration that this can happen; this module turns that
//! declaration into a reminder interval, and records that dispatch (not the
//! caller) chose it.

use vstd::prelude::*;
use serde_json::Value;
use crate::json;
use crate::json::Json;
use crate::text::decimal_string;
#[allow(unused_imports)]
use crate::text::{decimal, text_of};

verus! {

/// Reminder interval for a tool whose manifest marks it `blocking` but names no
/// `suggestedRemindAfter`. Long enough that ordinary work is not announced every
/// few seconds, short enough that a tool parked on a question is noticed while
/// the answer still matters.
pub const DEFAULT_BLOCKING_REMIND_SECS: u64 = 30;

/// What a server manifest declares about one of its tools. Both keys are
/// optional and opt-in: a manifest that declares neither yields
/// `ToolMeta::default()`.
#[derive(Debug, Clone, Copy, PartialEq, Eq, Structural)]
pub struct ToolMeta {
    /// The tool can park indefinitely awaiting input.
    pub blocking: bool,
    /// The reminder interval the server recommends for this tool, in seconds.
    pub suggested_remind_after: Option<u64>,
}

impl Default for ToolMeta {
    fn default() -> (r: Self)
        ensures
            r == (ToolMeta { blocking: false, suggested_remind_after: None }),
    {
        ToolMeta { blocking: false, suggested_remind_after: None }
    }
}

/// What the two optional keys of a tool's entry declare, each given as the value
/// it could be read as. Only a literal `true` opts in: absent, `false`, or a
/// non-bool all leave the tool non-blocking, for a key that cannot be read must
/// not start arming timers nobody asked for. A suggestion that is not a positive
/// integer is no suggestion: it must not become a way for a manifest to disable
/// the reminder its own `blocking` flag exists to request.
pub open spec fn meta_of(blocking: Option<bool>, suggested: Option<u64>) -> ToolMeta {
    ToolMeta {
        blocking: blocking == Some(true),
        suggested_remind_after: if suggested == Some(0u64) {
            None
        } else {
            suggested
        },
    }
}

/// The truth value under a key of an entry, where there is one.
pub open spec fn truth_under(entry: Json, key: Seq<char>) -> Option<bool> {
    match json::member(entry, key) {
        Some(Json::Bool(b)) => Some(b),
        _ => None,
    }
}

/// The non-negative integer under a key of an entry, where there is one.
pub open spec fn number_under(entry: Json, key: Seq<char>) -> Option<u64> {
    match json::member(entry, key) {
        Some(Json::Unsigned(n)) => Some(n),
        _ => None,
    }
}

/// The first of the entries whose `name` is the tool's.
pub open spec fn entry_for(entries: Seq<Json>, tool: Seq<char>) -> Option<Json>
    decreases entries.len(),
{
    if entries.len() == 0 {
        None
    } else if json::member(entries[0], "name"@) == Some(Json::Text(tool)) {
        Some(entries[0])
    } else {
        entry_for(entries.drop_first(), tool)
    }
}

/// What a manifest declares about a tool: what the first entry of its `tools`
/// array with that name says, and nothing where there is none.
pub open spec fn declared(manifest: Json, tool: Seq<char>) -> Option<ToolMeta> {
    match json::member(manifest, "tools"@) {
        Some(Json::Array(entries)) => match entry_for(entries, tool) {
            Some(entry) => Some(
                meta_of(
                    truth_under(entry, "blocking"@),
                    number_under(entry, "suggestedRemindAfter"@),
                ),
            ),
            None => None,
        },
        _ => None,
    }
}

impl ToolMeta {
    /// The metadata that a tool's entry declares, from what its two keys read as.
    pub fn from_entry(blocking: Option<bool>, suggested: Option<u64>) -> (r: Self)
        ensures
            r == meta_of(blocking, suggested),
    {
        ToolMeta {
            blocking: match blocking {
                Some(b) => b,
                None => false,
            },
            suggested_remind_after: match suggested {
                Some(0) => None,
                other => other,
            },
        }
    }

    /// Read the entry for `tool` out of a manifest's `tools` array (the shape
    /// `dmcp info <id> --json` prints). Returns `None` when the manifest has no
    /// entry for this tool, which means the same as an entry that declares
    /// nothing.
    pub fn from_manifest(manifest: &Value, tool: &str) -> (r: Option<Self>)
        ensures
            r == declared(json::json_of(*manifest), tool@),
    {
        let entries: &Vec<Value> = match json::get(manifest, "tools") {
            Some(tools) => match json::elements(tools) {
                Some(entries) => entries,
                None => return None,
            },
            None => return None,
        };
        let wanted: String = tool.to_owned();
        let ghost all = json::json_of_seq(entries@);
        let mut i: usize = 0;
        proof {
            assert(all.skip(0) =~= all);
        }
        while i < entries.len()
            invariant
                i <= entries@.len(),
                wanted@ == tool@,
                all == json::json_of_seq(entries@),
                json::member(json::json_of(*manifest), "tools"@) == Some(Json::Array(all)),
                entry_for(all, tool@) == entry_for(all.skip(i as int), tool@),
            decreases entries@.len() - i,
        {
            let entry: &Value = &entries[i];
            let named: bool = match json::get(entry, "name") {
                Some(name) => match json::as_text(name) {
                    Some(text) => text.to_owned() == wanted,
                    None => false,
                },
                None => false,
            };
            proof {
                assert(all.skip(i as int)[0] == json::json_of(*entry));
                assert(all.skip(i as int).drop_first() =~= all.skip(i + 1));
            }
            if named {
                let blocking: Option<bool> = match json::get(entry, "blocking") {
                    Some(v) => json::as_truth(v),
                    None => None,
                };
                let suggested: Option<u64> = match json::get(entry, "suggestedRemindAfter") {
                    Some(v) => json::as_unsigned(v),
                    None => None,
                };
                return Some(ToolMeta::from_entry(blocking, suggested));
            }
            i = i + 1;
        }
        None
    }
}

/// Where an auto-applied interval came from, for the INIT disclosure.
#[derive(Debug, Clone, Copy, PartialEq, Eq, Structural)]
pub enum RemindSource {
    /// The tool's manifest named it (`suggestedRemindAfter`).
    ToolSuggested,
    /// The manifest marked the tool blocking but named no interval.
    BuiltInDefault,
}

/// The reminder decision for one dispatched task.
#[derive(Debug, Clone, Copy, PartialEq, Eq, Structural)]
pub enum RemindPlan {
    /// No reminder timer: the caller opted out with `remind_after: 0`, or
    /// nothing asked for one.
    NoReminder,
    /// The caller's own interval.
    Caller(u64),
    /// An interval dispatch chose because the tool declares itself blocking and
    /// the caller expressed no preference. Disclosed on the task's INIT signal
    /// and in `status`.
    Applied { secs: u64, source: RemindSource },
}

/// The interval of a plan.
pub open spec fn interval_of(plan: RemindPlan) -> Option<u64> {
    match plan {
        RemindPlan::NoReminder => None,
        RemindPlan::Caller(secs) => Some(secs),
        RemindPlan::Applied { secs, .. } => Some(secs),
    }
}

/// The interval of a plan, where dispatch chose it.
pub open spec fn auto_applied_of(plan: RemindPlan) -> Option<u64> {
    match plan {
        RemindPlan::Applied { secs, .. } => Some(secs),
        _ => None,
    }
}

/// What the INIT message discloses of a plan.
pub open spec fn applied_note_of(plan: RemindPlan) -> Option<Seq<char>> {
    match plan {
        RemindPlan::Applied { secs, source } => Some(
            "[auto-remind "@ + decimal(secs as nat) + (match source {
                RemindSource::ToolSuggested =>
                    "s — tool declares blocking, interval suggested by its manifest]"@,
                RemindSource::BuiltInDefault =>
                    "s — tool declares blocking, manifest suggested none, dispatch default]"@,
            }),
        ),
        _ => None,
    }
}

impl RemindPlan {
    /// The interval to arm, if any.
    pub fn interval(self) -> (r: Option<u64>)
        ensures
            r == interval_of(self),
    {
        match self {
            RemindPlan::NoReminder => None,
            RemindPlan::Caller(secs) => Some(secs),
            RemindPlan::Applied { secs, .. } => Some(secs),
        }
    }

    /// The interval only when dispatch chose it itself: what `status` reports so
    /// a caller can tell the reminder was not its own doing.
    pub fn auto_applied(self) -> (r: Option<u64>)
        ensures
            r == auto_applied_of(self),
    {
        match self {
            RemindPlan::Applied { secs, .. } => Some(secs),
            _ => None,
        }
    }

    /// Note appended to the task's INIT message when dispatch chose the interval.
    /// `None` when the caller decided: there is nothing to disclose.
    pub fn applied_note(self) -> (r: Option<String>)
        ensures
            text_of(r) == applied_note_of(self),
    {
        match self {
            RemindPlan::Applied { secs, source } => {
                let mut note: String = "[auto-remind ".to_owned();
                note.append(decimal_string(secs).as_str());
                match source {
                    RemindSource::ToolSuggested => note.append(
                        "s — tool declares blocking, interval suggested by its manifest]",
                    ),
                    RemindSource::BuiltInDefault => note.append(
                        "s — tool declares blocking, manifest suggested none, dispatch default]",
                    ),
                }
                Some(note)
            },
            _ => None,
        }
    }
}

/// The reminder decision, from what the caller asked for and what the tool's
/// manifest declares.
pub open spec fn planned(caller: Option<u64>, meta: Option<ToolMeta>) -> RemindPlan {
    match caller {
        Some(secs) => if secs == 0 {
            RemindPlan::NoReminder
        } else {
            RemindPlan::Caller(secs)
        },
        None => match meta {
            Some(m) => if m.blocking {
                match m.suggested_remind_after {
                    Some(secs) => RemindPlan::Applied { secs, source: RemindSource::ToolSuggested },
                    None => RemindPlan::Applied {
                        secs: DEFAULT_BLOCKING_REMIND_SECS,
                        source: RemindSource::BuiltInDefault,
                    },
                }
            } else {
                RemindPlan::NoReminder
            },
            None => RemindPlan::NoReminder,
        },
    }
}

/// Decide a task's reminder from what the caller asked for and what the tool's
/// manifest declares.
///
/// The caller always wins, the opt-out among its choices: `remind_after: 0`
/// means "no reminder, and I mean it", so a blocking tool dispatched that way
/// stays silent. Only an *absent* `remind_after` is treated as no preference,
/// which is what lets a blocking tool's suggestion apply.
pub fn plan_reminder(caller: Option<u64>, meta: Option<ToolMeta>) -> (r: RemindPlan)
    ensures
        r == planned(caller, meta),
{
    match caller {
        Some(0) => RemindPlan::NoReminder,
        Some(secs) => RemindPlan::Caller(secs),
        None => match meta {
            // `suggestedRemindAfter` without `blocking: true` is meaningless,
            // not an error: it is simply never read here.
            Some(m) if m.blocking => match m.suggested_remind_after {
                Some(secs) => RemindPlan::Applied { secs, source: RemindSource::ToolSuggested },
                None => RemindPlan::Applied {
                    secs: DEFAULT_BLOCKING_REMIND_SECS,
                    source: RemindSource::BuiltInDefault,
                },
            },
            _ => RemindPlan::NoReminder,
        },
    }
}

/// The caller always wins: with an interval of its own, or the opt-out, the
/// manifest changes nothing, and there is nothing to disclose.
pub proof fn caller_always_wins(secs: u64, meta: Option<ToolMeta>)
    ensures
        planned(Some(secs), meta) == planned(Some(secs), None),
        interval_of(planned(Some(secs), meta)) == (if secs == 0 {
            None::<u64>
        } else {
            Some(secs)
        }),
        auto_applied_of(planned(Some(secs), meta)) is None,
        applied_note_of(planned(Some(secs), meta)) is None,
{
}

/// A suggestion without `blocking: true` is never read, and without a manifest
/// entry, or with one that declares nothing, nothing is armed.
pub proof fn only_blocking_tools_get_a_reminder(meta: Option<ToolMeta>)
    ensures
        interval_of(planned(None, meta)) is Some <==> (meta is Some && meta->0.blocking),
        interval_of(planned(None, meta)) == auto_applied_of(planned(None, meta)),
{
}

/// Whatever dispatch chooses itself it discloses, and it discloses nothing else;
/// the interval it discloses is the one it arms.
pub proof fn injected_reminders_are_disclosed(caller: Option<u64>, meta: Option<ToolMeta>)
    ensures
        ({
            let plan = planned(caller, meta);
            &&& applied_note_of(plan) is Some <==> auto_applied_of(plan) is Some
            &&& auto_applied_of(plan) is Some ==> auto_applied_of(plan) == interval_of(plan)
            &&& auto_applied_of(plan) is Some ==> caller is None
        }),
{
}

/// Metadata read from a manifest never suggests zero seconds, so that a plan
/// made of it never arms an interval of zero.
pub proof fn manifest_never_suggests_zero(manifest: Json, tool: Seq<char>, caller: Option<u64>)
    ensures
        declared(manifest, tool) matches Some(meta) ==> meta.suggested_remind_after != Some(0u64),
        interval_of(planned(caller, declared(manifest, tool))) != Some(0u64),
{
}

/// A blocking tool's own suggestion is armed as it stands, whatever it is, and
/// half a minute where it suggests nothing. The caller's interval is armed as it
/// stands, zero is the opt-out, and nothing else arms anything.
pub proof fn a_suggestion_is_armed_as_it_stands(
    caller: Option<u64>,
    meta: Option<ToolMeta>,
    k: u64,
)
    ensures
        caller is None && meta == Some(
            ToolMeta { blocking: true, suggested_remind_after: Some(k) },
        ) ==> planned(caller, meta) == (RemindPlan::Applied {
            secs: k,
            source: RemindSource::ToolSuggested,
        }),
        caller is None && meta == Some(
            ToolMeta { blocking: true, suggested_remind_after: None },
        ) ==> planned(caller, meta) == (RemindPlan::Applied {
            secs: 30,
            source: RemindSource::BuiltInDefault,
        }),
        DEFAULT_BLOCKING_REMIND_SECS == 30,
        caller is None && (meta matches Some(m) ==> !m.blocking) ==> planned(caller, meta)
            == RemindPlan::NoReminder,
        caller == Some(k) && k > 0 ==> planned(caller, meta) == RemindPlan::Caller(k),
        caller == Some(0u64) ==> planned(caller, meta) == RemindPlan::NoReminder,
{
}

/// The interval of a plan is the one that it names, dispatch's own only where
/// dispatch chose it; a plan without one has none.
pub proof fn a_plan_arms_what_it_names(secs: u64, source: RemindSource)
    ensures
        interval_of(RemindPlan::NoReminder) is None,
        interval_of(RemindPlan::Caller(secs)) == Some(secs),
        interval_of(RemindPlan::Applied { secs, source }) == Some(secs),
        auto_applied_of(RemindPlan::NoReminder) is None,
        auto_applied_of(RemindPlan::Caller(secs)) is None,
        auto_applied_of(RemindPlan::Applied { secs, source }) == Some(secs),
{
}

/// The disclosure names the interval that dispatch chose and where it comes from;
/// of what the caller chose there is none.
pub proof fn the_disclosure_names_interval_and_source(secs: u64)
    ensures
        applied_note_of(RemindPlan::NoReminder) is None,
        applied_note_of(RemindPlan::Caller(secs)) is None,
        applied_note_of(
            RemindPlan::Applied { secs, source: RemindSource::ToolSuggested },
        ) == Some(
            "[auto-remind "@ + decimal(secs as nat)
                + "s — tool declares blocking, interval suggested by its manifest]"@,
        ),
        applied_note_of(
            RemindPlan::Applied { secs, source: RemindSource::BuiltInDefault },
        ) == Some(
            "[auto-remind "@ + decimal(secs as nat)
                + "s — tool declares blocking, manifest suggested none, dispatch default]"@,
        ),
{
}

/// Whether a manifest's entry is an object whose `name` is the tool's.
pub open spec fn names(entry: Json, tool: Seq<char>) -> bool {
    entry matches Json::Object(fields) && fields.contains_key("name"@) && fields["name"@]
        == Json::Text(tool)
}

/// The entry that counts for a tool is the first that names it, wherever it
/// stands: only a literal `true` makes the tool blocking, and a suggestion is a
/// positive integer, taken as it stands.
pub proof fn the_first_entry_of_a_tool_counts(
    manifest: Map<Seq<char>, Json>,
    entries: Seq<Json>,
    i: int,
    fields: Map<Seq<char>, Json>,
    tool: Seq<char>,
    n: u64,
)
    requires
        manifest.contains_key("tools"@),
        manifest["tools"@] == Json::Array(entries),
        0 <= i < entries.len(),
        entries[i] == Json::Object(fields),
        names(entries[i], tool),
        forall|j: int| 0 <= j < i ==> !names(#[trigger] entries[j], tool),
    ensures
        declared(Json::Object(manifest), tool) is Some,
        declared(Json::Object(manifest), tool)->0.blocking <==> fields.contains_key("blocking"@)
            && fields["blocking"@] == Json::Bool(true),
        declared(Json::Object(manifest), tool)->0.suggested_remind_after == Some(n) <==> n > 0
            && fields.contains_key("suggestedRemindAfter"@) && fields["suggestedRemindAfter"@]
            == Json::Unsigned(n),
{
    lemma_entry_for(entries, tool, i);
    assert(entry_for(entries, tool) == Some(entries[i]));
}

proof fn lemma_entry_for(entries: Seq<Json>, tool: Seq<char>, i: int)
    requires
        0 <= i < entries.len(),
        names(entries[i], tool),
        forall|j: int| 0 <= j < i ==> !names(#[trigger] entries[j], tool),
    ensures
        entry_for(entries, tool) == Some(entries[i]),
    decreases i,
{
    if i > 0 {
        assert(!names(entries[0], tool));
        lemma_entry_for(entries.drop_first(), tool, i - 1);
    }
}

/// A manifest without an entry that names the tool, or without a `tools` array,
/// declares nothing about it.
pub proof fn a_tool_without_an_entry_declares_nothing(manifest: Json, tool: Seq<char>)
    requires
        manifest matches Json::Object(fields) ==> fields.contains_key("tools"@) ==> (
        fields["tools"@] matches Json::Array(entries) ==> forall|j: int|
            0 <= j < entries.len() ==> !names(#[trigger] entries[j], tool)),
    ensures
        declared(manifest, tool) is None,
{
    match manifest {
        Json::Object(fields) => if fields.contains_key("tools"@) {
            match fields["tools"@] {
                Json::Array(entries) => {
                    lemma_no_entry_for(entries, tool);
                },
                _ => {},
            }
        },
        _ => {},
    }
}

proof fn lemma_no_entry_for(entries: Seq<Json>, tool: Seq<char>)
    requires
        forall|j: int| 0 <= j < entries.len() ==> !names(#[trigger] entries[j], tool),
    ensures
        entry_for(entries, tool) is None,
    decreases entries.len(),
{
    if entries.len() > 0 {
        assert(!names(entries[0], tool));
        lemma_no_entry_for(entries.drop_first(), tool);
    }
}

/// Of what the two keys of an entry read as, only `true` and a positive number
/// count, and each counts as it stands.
pub proof fn an_entry_is_read_as_it_stands(
    blocking: Option<bool>,
    suggested: Option<u64>,
    n: u64,
)
    ensures
        meta_of(blocking, suggested).blocking <==> blocking == Some(true),
        meta_of(blocking, suggested).suggested_remind_after == Some(n) <==> suggested == Some(n)
            && n > 0,
{
}

} // verus!
