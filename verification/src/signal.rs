//! Signals: what the LLM is told of its tasks, and the window of the latest
//! ones.

use std::collections::{HashSet, VecDeque};
use vstd::prelude::*;
use serde_json::Value;
use crate::json;
use crate::json::Json;
use crate::text::decimal_string;
#[allow(unused_imports)]
use crate::text::{decimal, text_of};

verus! {

/// What a signal announces.
#[derive(Debug, Clone, Copy, PartialEq, Eq, Structural)]
pub enum SignalKind {
    /// A task was dispatched.
    Init,
    /// A task still runs, or a timer fired.
    Remind,
    /// A task ended by itself.
    Exit,
    /// A task was ended by the LLM.
    Kill,
    /// The LLM decided to go on waiting for a task.
    Wait,
}

/// The name of a kind of signal.
pub open spec fn label_of(kind: SignalKind) -> Seq<char> {
    match kind {
        SignalKind::Init => "INIT"@,
        SignalKind::Remind => "REMIND"@,
        SignalKind::Exit => "EXIT"@,
        SignalKind::Kill => "KILL"@,
        SignalKind::Wait => "WAIT"@,
    }
}

impl SignalKind {
    /// The name of the kind.
    pub fn label(self) -> (r: &'static str)
        ensures
            r@ == label_of(self),
    {
        match self {
            SignalKind::Init => "INIT",
            SignalKind::Remind => "REMIND",
            SignalKind::Exit => "EXIT",
            SignalKind::Kill => "KILL",
            SignalKind::Wait => "WAIT",
        }
    }
}

/// One signal.
#[derive(Debug)]
pub struct SignalEntry {
    pub pid: u64,
    pub kind: SignalKind,
    pub message: String,
    /// Structured detail, for signals of timers.
    pub payload: Option<Value>,
    /// The nonce whose tags the message uses, if any.
    pub nonce: Option<String>,
}

/// A signal, by what it holds.
pub struct SignalView {
    pub pid: u64,
    pub kind: SignalKind,
    pub message: Seq<char>,
    pub payload: Option<Json>,
    pub nonce: Option<Seq<char>>,
}

impl View for SignalEntry {
    type V = SignalView;

    open spec fn view(&self) -> SignalView {
        SignalView {
            pid: self.pid,
            kind: self.kind,
            message: self.message@,
            payload: json::json_of_opt(self.payload),
            nonce: text_of(self.nonce),
        }
    }
}

/// A signal with a message and nothing more.
pub open spec fn plain_signal(pid: u64, kind: SignalKind, message: Seq<char>) -> SignalView {
    SignalView { pid, kind, message, payload: None, nonce: None }
}

impl Clone for SignalEntry {
    fn clone(&self) -> (r: Self)
        ensures
            r@ == self@,
    {
        SignalEntry {
            pid: self.pid,
            kind: self.kind,
            message: self.message.clone(),
            payload: json::copy_opt(&self.payload),
            nonce: match &self.nonce {
                Some(nonce) => Some(nonce.clone()),
                None => None,
            },
        }
    }
}

/// The fields that a signal is written with: a nonce and a payload only where
/// there is one.
pub open spec fn signal_fields(e: SignalView) -> Seq<(Seq<char>, Json)> {
    seq![
        ("pid"@, Json::Unsigned(e.pid)),
        ("kind"@, Json::Text(label_of(e.kind))),
        ("message"@, Json::Text(e.message)),
    ] + (match e.nonce {
        Some(nonce) => seq![("nonce"@, Json::Text(nonce))],
        None => seq![],
    }) + (match e.payload {
        Some(payload) => seq![("payload"@, payload)],
        None => seq![],
    })
}

/// A signal as a JSON object.
pub open spec fn signal_json(e: SignalView) -> Json {
    Json::Object(json::fields_of(signal_fields(e)))
}

impl SignalEntry {
    pub fn new(pid: u64, kind: SignalKind, message: String) -> (r: Self)
        ensures
            r@ == plain_signal(pid, kind, message@),
    {
        SignalEntry { pid, kind, message, payload: None, nonce: None }
    }

    pub fn with_payload(pid: u64, kind: SignalKind, message: String, payload: Value) -> (r: Self)
        ensures
            r@ == (SignalView {
                payload: Some(json::json_of(payload)),
                ..plain_signal(pid, kind, message@)
            }),
    {
        SignalEntry { pid, kind, message, payload: Some(payload), nonce: None }
    }

    /// The signal, with the nonce that its message uses.
    pub fn with_nonce(self, nonce: String) -> (r: Self)
        ensures
            r@ == (SignalView { nonce: Some(nonce@), ..self@ }),
    {
        SignalEntry {
            pid: self.pid,
            kind: self.kind,
            message: self.message,
            payload: self.payload,
            nonce: Some(nonce),
        }
    }

    /// The signal as a JSON object.
    pub fn to_json(&self) -> (r: Value)
        ensures
            json::json_of(r) == signal_json(self@),
    {
        let mut fields: Vec<(&str, Value)> = Vec::new();
        fields.push(("pid", json::number(self.pid)));
        fields.push(("kind", json::text(self.kind.label())));
        fields.push(("message", json::text(self.message.as_str())));
        match &self.nonce {
            Some(nonce) => fields.push(("nonce", json::text(nonce.as_str()))),
            None => {},
        }
        match &self.payload {
            Some(payload) => fields.push(("payload", payload.clone())),
            None => {},
        }
        proof {
            assert(json::named_json(fields@) =~= signal_fields(self@));
            reveal_strlit("pid");
            reveal_strlit("kind");
            reveal_strlit("message");
            reveal_strlit("nonce");
            reveal_strlit("payload");
            assert("pid"@.len() == 3 && "payload"@.len() == 7);
            assert("pid"@[0] == 'p' && "kind"@[0] == 'k' && "message"@[0] == 'm' && "nonce"@[0]
                == 'n' && "payload"@[0] == 'p');
        }
        json::object(fields)
    }

    /// The signal as a line of the window.
    pub fn line(&self) -> (r: String)
        ensures
            r@ == line_of(self@),
    {
        let mut s: String = "[".to_owned();
        s.append(decimal_string(self.pid).as_str());
        s.append("] ");
        s.append(self.kind.label());
        s.append(" ");
        s.append(self.message.as_str());
        s
    }
}

/// A signal as a line of the window.
pub open spec fn line_of(e: SignalView) -> Seq<char> {
    "["@ + decimal(e.pid as nat) + "] "@ + label_of(e.kind) + " "@ + e.message
}

/// Signals as text, one line each.
pub open spec fn lines_of(signals: Seq<SignalView>) -> Seq<char>
    decreases signals.len(),
{
    if signals.len() == 0 {
        Seq::empty()
    } else if signals.len() == 1 {
        line_of(signals[0])
    } else {
        lines_of(signals.drop_last()) + "\n"@ + line_of(signals.last())
    }
}

/// Entries, by what they hold.
pub open spec fn signals_of(entries: Seq<SignalEntry>) -> Seq<SignalView> {
    Seq::new(entries.len(), |i: int| entries[i]@)
}

/// The latest `n` signals, or all of them where there are fewer.
pub open spec fn latest(signals: Seq<SignalView>, n: nat) -> Seq<SignalView> {
    if signals.len() <= n {
        signals
    } else {
        signals.skip(signals.len() - n)
    }
}

/// The signals of a set of tasks.
pub open spec fn of_pids(signals: Seq<SignalView>, pids: Set<u64>) -> Seq<SignalView> {
    signals.filter(|e: SignalView| pids.contains(e.pid))
}

/// The latest signals, up to a bound past which the oldest are dropped.
#[derive(Debug)]
pub struct SignalWindow {
    entries: VecDeque<SignalEntry>,
    size: usize,
}

impl View for SignalWindow {
    type V = Seq<SignalView>;

    /// The retained signals, oldest first.
    closed spec fn view(&self) -> Seq<SignalView> {
        signals_of(self.entries@)
    }
}

impl SignalWindow {
    /// The bound that the window was made with.
    pub closed spec fn size(&self) -> nat {
        self.size as nat
    }

    /// The window never holds more than its bound.
    pub open spec fn wf(&self) -> bool {
        self@.len() <= self.size()
    }

    pub fn new(size: usize) -> (r: Self)
        ensures
            r.wf(),
            r.size() == size,
            r@ == Seq::<SignalView>::empty(),
    {
        let r = SignalWindow { entries: VecDeque::new(), size };
        proof {
            assert(r@ =~= Seq::<SignalView>::empty());
        }
        r
    }

    /// Add a signal, dropping the oldest one past the bound.
    pub fn push(&mut self, entry: SignalEntry)
        requires
            old(self).wf(),
        ensures
            final(self).wf(),
            final(self).size() == old(self).size(),
            final(self)@ == latest(old(self)@.push(entry@), old(self).size()),
    {
        self.entries.push_back(entry);
        if self.entries.len() > self.size {
            let _ = self.entries.pop_front();
        }
        proof {
            assert(self@ =~= latest(old(self)@.push(entry@), old(self).size()));
        }
    }

    /// The retained signals, oldest first.
    pub fn all(&self) -> (r: &VecDeque<SignalEntry>)
        ensures
            signals_of(r@) == self@,
    {
        &self.entries
    }

    /// The latest `count` signals as text, one line each.
    pub fn format_window(&self, count: usize) -> (r: String)
        ensures
            r@ == lines_of(latest(self@, count as nat)),
    {
        let mut picked: Vec<&SignalEntry> = Vec::new();
        let mut i: usize = 0;
        while i < self.entries.len()
            invariant
                i <= self.entries@.len(),
                picked@.len() == i,
                forall|k: int| 0 <= k < i ==> *(#[trigger] picked@[k]) == self.entries@[k],
            decreases self.entries@.len() - i,
        {
            picked.push(&self.entries[i]);
            i = i + 1;
        }
        proof {
            assert(picked_of(picked@) =~= self@);
        }
        latest_lines(&picked, count)
    }

    /// The latest `count` signals of the given tasks as text, one line each.
    pub fn format_window_for_pids(&self, count: usize, pids: &HashSet<u64>) -> (r: String)
        ensures
            r@ == lines_of(latest(of_pids(self@, pids@), count as nat)),
    {
        broadcast use vstd::std_specs::hash::group_hash_axioms;

        let ghost wanted = |e: SignalView| pids@.contains(e.pid);
        let mut picked: Vec<&SignalEntry> = Vec::new();
        let mut i: usize = 0;
        proof {
            assert(picked_of(picked@) =~= self@.take(0).filter(wanted)) by {
                reveal(Seq::filter);
            }
        }
        while i < self.entries.len()
            invariant
                i <= self.entries@.len(),
                wanted == (|e: SignalView| pids@.contains(e.pid)),
                picked_of(picked@) == self@.take(i as int).filter(wanted),
            decreases self.entries@.len() - i,
        {
            let entry: &SignalEntry = &self.entries[i];
            let ghost before = picked@;
            if pids.contains(&entry.pid) {
                picked.push(entry);
            }
            i = i + 1;
            proof {
                let upto = self@.take(i as int);
                assert(upto.drop_last() =~= self@.take(i - 1));
                assert(upto.last() == entry@);
                assert(upto.filter(wanted) == (if wanted(upto.last()) {
                    upto.drop_last().filter(wanted).push(upto.last())
                } else {
                    upto.drop_last().filter(wanted)
                })) by {
                    reveal(Seq::filter);
                }
                assert(picked_of(before.push(entry)) =~= picked_of(before).push(entry@));
            }
        }
        proof {
            assert(self@.take(i as int) =~= self@);
        }
        latest_lines(&picked, count)
    }

    /// The latest `count` signals as a JSON array.
    pub fn to_json(&self, count: usize) -> (r: Value)
        ensures
            json::json_of(r) == signals_json(latest(self@, count as nat)),
    {
        let len: usize = self.entries.len();
        let start: usize = if len <= count {
            0
        } else {
            len - count
        };
        let mut items: Vec<Value> = Vec::new();
        let mut i: usize = start;
        while i < len
            invariant
                len == self.entries@.len(),
                start <= i <= len,
                items@.len() == i - start,
                forall|k: int|
                    0 <= k < items@.len() ==> json::json_of(#[trigger] items@[k]) == signal_json(
                        self.entries@[start + k]@,
                    ),
            decreases len - i,
        {
            items.push(self.entries[i].to_json());
            i = i + 1;
        }
        proof {
            assert(json::json_of_seq(items@) =~= Seq::new(
                latest(self@, count as nat).len(),
                |k: int| signal_json(latest(self@, count as nat)[k]),
            ));
        }
        json::array(items)
    }
}

/// Signals as a JSON array.
pub open spec fn signals_json(signals: Seq<SignalView>) -> Json {
    Json::Array(Seq::new(signals.len(), |i: int| signal_json(signals[i])))
}

/// Picked entries, by what they hold.
spec fn picked_of(entries: Seq<&SignalEntry>) -> Seq<SignalView> {
    Seq::new(entries.len(), |i: int| entries[i]@)
}

/// The latest `count` of the picked entries as text, one line each.
fn latest_lines(picked: &Vec<&SignalEntry>, count: usize) -> (r: String)
    ensures
        r@ == lines_of(latest(picked_of(picked@), count as nat)),
{
    let len: usize = picked.len();
    let start: usize = if len <= count {
        0
    } else {
        len - count
    };
    let ghost shown = latest(picked_of(picked@), count as nat);
    let mut s: String = String::new();
    let mut i: usize = start;
    while i < len
        invariant
            len == picked@.len(),
            start <= i <= len,
            shown.len() == len - start,
            forall|k: int| 0 <= k < shown.len() ==> shown[k] == (#[trigger] picked@[start + k])@,
            s@ == lines_of(shown.take(i - start)),
        decreases len - i,
    {
        if i > start {
            s.append("\n");
        }
        s.append(picked[i].line().as_str());
        i = i + 1;
        proof {
            let upto = shown.take(i - start);
            assert(upto.drop_last() =~= shown.take(i - 1 - start));
            assert(upto.last() == picked@[i - 1]@) by {
                assert(picked@[start + (i - 1 - start)] == picked@[i - 1]);
            }
            if i - start == 1 {
                assert(s@ =~= lines_of(upto));
            }
        }
    }
    proof {
        assert(shown.take(i - start) =~= shown);
    }
    s
}

/// The window holds the latest signals, however many were pushed: pushing onto a
/// window that has already dropped some gives what pushing onto all of them
/// would.
pub proof fn window_keeps_the_latest(signals: Seq<SignalView>, e: SignalView, size: nat)
    ensures
        latest(latest(signals, size).push(e), size) == latest(signals.push(e), size),
        latest(signals, size).len() <= size,
{
    assert(latest(latest(signals, size).push(e), size) =~= latest(signals.push(e), size));
}

/// The latest `n` signals are the end of them all: as many as there are up to
/// `n`, each as it stands and in order.
pub proof fn the_latest_are_the_end(signals: Seq<SignalView>, n: nat)
    ensures
        latest(signals, n).len() == (if signals.len() < n {
            signals.len()
        } else {
            n
        }),
        forall|i: int|
            0 <= i < latest(signals, n).len() ==> #[trigger] latest(signals, n)[i] == signals[i + (
            signals.len() - latest(signals, n).len())],
{
}

/// The signals of a set of tasks are all of those whose PID is in it, as often as
/// they stand there, and no others.
pub proof fn the_signals_of_tasks_are_all_of_theirs(
    signals: Seq<SignalView>,
    pids: Set<u64>,
    e: SignalView,
)
    ensures
        of_pids(Seq::empty(), pids).len() == 0,
        of_pids(signals.push(e), pids) == (if pids.contains(e.pid) {
            of_pids(signals, pids).push(e)
        } else {
            of_pids(signals, pids)
        }),
{
    reveal(Seq::filter);
    assert(signals.push(e).drop_last() =~= signals);
    assert(signals.push(e).last() == e);
}

/// A signal is shown as its PID in brackets, the name of its kind and its message
/// as it stands.
pub proof fn a_line_shows_the_whole_signal(e: SignalView)
    ensures
        e.kind is Init ==> line_of(e) == "["@ + decimal(e.pid as nat) + "] "@ + "INIT"@ + " "@
            + e.message,
        e.kind is Remind ==> line_of(e) == "["@ + decimal(e.pid as nat) + "] "@ + "REMIND"@ + " "@
            + e.message,
        e.kind is Exit ==> line_of(e) == "["@ + decimal(e.pid as nat) + "] "@ + "EXIT"@ + " "@
            + e.message,
        e.kind is Kill ==> line_of(e) == "["@ + decimal(e.pid as nat) + "] "@ + "KILL"@ + " "@
            + e.message,
        e.kind is Wait ==> line_of(e) == "["@ + decimal(e.pid as nat) + "] "@ + "WAIT"@ + " "@
            + e.message,
{
}

/// The names of the kinds.
pub proof fn kinds_have_their_names()
    ensures
        label_of(SignalKind::Init) == "INIT"@,
        label_of(SignalKind::Remind) == "REMIND"@,
        label_of(SignalKind::Exit) == "EXIT"@,
        label_of(SignalKind::Kill) == "KILL"@,
        label_of(SignalKind::Wait) == "WAIT"@,
{
}

/// Signals are shown one line each, all of them and in order, with a line break
/// between any two and none at either end.
pub proof fn lines_are_joined_by_line_breaks(
    first: Seq<SignalView>,
    second: Seq<SignalView>,
    e: SignalView,
)
    ensures
        lines_of(Seq::empty()) == Seq::<char>::empty(),
        lines_of(seq![e]) == line_of(e),
        first.len() > 0 && second.len() > 0 ==> lines_of(first + second) == lines_of(first)
            + "\n"@ + lines_of(second),
    decreases second.len(),
{
    assert(seq![e][0] == e);
    if first.len() > 0 && second.len() > 0 {
        let front = second.drop_last();
        let all = first + second;
        assert(all.drop_last() =~= first + front);
        assert(all.last() == second.last());
        if front.len() > 0 {
            lines_are_joined_by_line_breaks(first, front, e);
            let last = line_of(second.last());
            assert(lines_of(first) + "\n"@ + lines_of(front) + "\n"@ + last =~= lines_of(first)
                + "\n"@ + (lines_of(front) + "\n"@ + last));
        } else {
            assert(first + front =~= first);
            assert(second =~= seq![second[0]]);
        }
    }
}

/// A signal is written as an object of its PID, the name of its kind and its
/// message, of its nonce and its payload where it has them, and of nothing else.
pub proof fn a_signal_is_written_whole(e: SignalView)
    ensures
        ({
            let base = Map::<Seq<char>, Json>::empty().insert("pid"@, Json::Unsigned(e.pid)).insert(
                "kind"@,
                Json::Text(
                    match e.kind {
                        SignalKind::Init => "INIT"@,
                        SignalKind::Remind => "REMIND"@,
                        SignalKind::Exit => "EXIT"@,
                        SignalKind::Kill => "KILL"@,
                        SignalKind::Wait => "WAIT"@,
                    },
                ),
            ).insert("message"@, Json::Text(e.message));
            let named = match e.nonce {
                Some(nonce) => base.insert("nonce"@, Json::Text(nonce)),
                None => base,
            };
            signal_json(e) == Json::Object(
                match e.payload {
                    Some(payload) => named.insert("payload"@, payload),
                    None => named,
                },
            )
        }),
{
    let a = ("pid"@, Json::Unsigned(e.pid));
    let b = ("kind"@, Json::Text(label_of(e.kind)));
    let c = ("message"@, Json::Text(e.message));
    let three = seq![a, b, c];
    assert(three.drop_last() =~= seq![a, b]);
    assert(seq![a, b].drop_last() =~= seq![a]);
    assert(seq![a].drop_last() =~= Seq::<(Seq<char>, Json)>::empty());
    reveal_with_fuel(json::fields_of, 4);
    let four = three + (match e.nonce {
        Some(nonce) => seq![("nonce"@, Json::Text(nonce))],
        None => seq![],
    });
    match e.nonce {
        Some(nonce) => {
            assert(four.drop_last() =~= three);
            assert(four.last() == ("nonce"@, Json::Text(nonce)));
            assert(json::fields_of(four) == json::fields_of(three).insert(
                "nonce"@,
                Json::Text(nonce),
            ));
        },
        None => {
            assert(four =~= three);
        },
    }
    match e.payload {
        Some(payload) => {
            assert(signal_fields(e).drop_last() =~= four);
            assert(signal_fields(e).last() == ("payload"@, payload));
            assert(json::fields_of(signal_fields(e)) == json::fields_of(four).insert(
                "payload"@,
                payload,
            ));
        },
        None => {
            assert(signal_fields(e) =~= four);
        },
    }
}

/// Signals are written as an array of them all, in order.
pub proof fn signals_are_written_in_order(signals: Seq<SignalView>)
    ensures
        signals_json(signals) matches Json::Array(items) && items.len() == signals.len() && (
        forall|i: int| 0 <= i < items.len() ==> #[trigger] items[i] == signal_json(signals[i])),
{
}

/// A signal without structured detail or a nonce has just its message.
pub proof fn a_plain_signal_has_just_its_message(pid: u64, kind: SignalKind, message: Seq<char>)
    ensures
        plain_signal(pid, kind, message).pid == pid,
        plain_signal(pid, kind, message).kind == kind,
        plain_signal(pid, kind, message).message == message,
        plain_signal(pid, kind, message).payload is None,
        plain_signal(pid, kind, message).nonce is None,
{
}

/// The view of an entry shows each of its fields, and that of entries each of them
/// in its place.
pub proof fn an_entry_is_seen_whole(e: SignalEntry, entries: Seq<SignalEntry>)
    ensures
        e@.pid == e.pid,
        e@.kind == e.kind,
        e@.message == e.message@,
        e.payload matches Some(payload) ==> e@.payload == Some(json::json_of(payload)),
        e.payload is None ==> e@.payload is None,
        e.nonce matches Some(nonce) ==> e@.nonce == Some(nonce@),
        e.nonce is None ==> e@.nonce is None,
        signals_of(entries).len() == entries.len(),
        forall|i: int|
            0 <= i < entries.len() ==> #[trigger] signals_of(entries)[i] == entries[i]@,
{
}

} // verus!
