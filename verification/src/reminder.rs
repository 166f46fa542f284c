//! Reminders: which tasks have a timer, and what each firing of one reports.

use std::collections::HashMap;
use vstd::prelude::*;

verus! {

broadcast use vstd::std_specs::hash::group_hash_axioms;

/// A reminder event sent when a task exceeds its remind_after duration.
#[derive(Debug, Clone, Copy, PartialEq, Eq, Structural)]
pub struct ReminderEvent {
    pub pid: u64,
    pub elapsed_secs: u64,
}

/// A recurring reminder timer of one task: every `interval_secs` it fires and
/// reports the seconds that have passed since it was started.
#[derive(Debug, Clone, Copy, PartialEq, Eq, Structural)]
pub struct ReminderTimer {
    pub pid: u64,
    pub interval_secs: u64,
    pub elapsed_secs: u64,
}

impl ReminderTimer {
    /// A timer that has not fired yet.
    pub fn new(pid: u64, interval_secs: u64) -> (r: Self)
        ensures
            r == (ReminderTimer { pid, interval_secs, elapsed_secs: 0 }),
    {
        ReminderTimer { pid, interval_secs, elapsed_secs: 0 }
    }

    /// Whether the seconds that the next firing reports can still be counted.
    pub fn can_fire(&self) -> (r: bool)
        ensures
            r == (self.elapsed_secs + self.interval_secs <= u64::MAX),
    {
        self.interval_secs <= u64::MAX - self.elapsed_secs
    }

    /// The interval has passed: the event to send.
    pub fn fire(&mut self) -> (r: ReminderEvent)
        requires
            old(self).elapsed_secs + old(self).interval_secs <= u64::MAX,
        ensures
            final(self).pid == old(self).pid,
            final(self).interval_secs == old(self).interval_secs,
            final(self).elapsed_secs == old(self).elapsed_secs + old(self).interval_secs,
            r == (ReminderEvent { pid: old(self).pid, elapsed_secs: final(self).elapsed_secs }),
    {
        self.elapsed_secs = self.elapsed_secs + self.interval_secs;
        ReminderEvent { pid: self.pid, elapsed_secs: self.elapsed_secs }
    }
}

/// The seconds that a timer reports at its `firings`-th firing, one interval
/// after the one before.
pub open spec fn reported(interval_secs: u64, firings: nat) -> nat
    decreases firings,
{
    if firings == 0 {
        0
    } else {
        reported(interval_secs, (firings - 1) as nat) + interval_secs as nat
    }
}

/// A timer reports whole multiples of its interval.
pub proof fn firings_report_multiples(interval_secs: u64, firings: nat)
    ensures
        reported(interval_secs, firings) == firings * interval_secs,
    decreases firings,
{
    if firings > 0 {
        firings_report_multiples(interval_secs, (firings - 1) as nat);
        assert(firings * interval_secs == (firings - 1) * interval_secs + interval_secs)
            by (nonlinear_arith);
    } else {
        assert(firings * interval_secs == 0) by (nonlinear_arith)
            requires
                firings == 0,
        ;
    }
}

/// Whether every timer stands under the PID of its own task.
pub open spec fn own_pids(timers: Map<u64, ReminderTimer>) -> bool {
    forall|pid: u64| #[trigger] timers.contains_key(pid) ==> timers[pid].pid == pid
}

/// A timer that has not fired yet.
pub open spec fn armed(pid: u64, interval_secs: u64) -> ReminderTimer {
    ReminderTimer { pid, interval_secs, elapsed_secs: 0 }
}

/// What the firing of a task's timer reports: nothing for a task without one, and
/// nothing once the seconds can no longer be counted.
pub open spec fn report(timers: Map<u64, ReminderTimer>, pid: u64) -> Option<ReminderEvent> {
    if timers.contains_key(pid) && timers[pid].elapsed_secs + timers[pid].interval_secs
        <= u64::MAX {
        Some(
            ReminderEvent {
                pid: timers[pid].pid,
                elapsed_secs: (timers[pid].elapsed_secs + timers[pid].interval_secs) as u64,
            },
        )
    } else {
        None
    }
}

/// The timers after the firing of a task's timer: it has counted what it reported.
pub open spec fn fired(timers: Map<u64, ReminderTimer>, pid: u64) -> Map<u64, ReminderTimer> {
    match report(timers, pid) {
        Some(event) => timers.insert(
            pid,
            ReminderTimer { elapsed_secs: event.elapsed_secs, ..timers[pid] },
        ),
        None => timers,
    }
}

/// The timers after firings one after the other.
pub open spec fn all_fired(timers: Map<u64, ReminderTimer>, pids: Seq<u64>) -> Map<
    u64,
    ReminderTimer,
>
    decreases pids.len(),
{
    if pids.len() == 0 {
        timers
    } else {
        fired(all_fired(timers, pids.drop_last()), pids.last())
    }
}

/// What firings one after the other report, each at its place.
pub open spec fn reports(timers: Map<u64, ReminderTimer>, pids: Seq<u64>) -> Seq<
    Option<ReminderEvent>,
> {
    Seq::new(
        pids.len(),
        |i: int| report(all_fired(timers, pids.take(i)), pids[i]),
    )
}

/// Cancelling a task's timer touches no other: whatever fires afterwards, the
/// timers of other tasks are what they would be without it, and the task has none.
proof fn lemma_cancelled(timers: Map<u64, ReminderTimer>, pid: u64, pids: Seq<u64>)
    ensures
        all_fired(timers.remove(pid), pids) == all_fired(timers, pids).remove(pid),
    decreases pids.len(),
{
    if pids.len() > 0 {
        lemma_cancelled(timers, pid, pids.drop_last());
    }
    assert(all_fired(timers.remove(pid), pids) =~= all_fired(timers, pids).remove(pid));
}

proof fn lemma_fired_own(timers: Map<u64, ReminderTimer>, pids: Seq<u64>)
    requires
        own_pids(timers),
    ensures
        own_pids(all_fired(timers, pids)),
    decreases pids.len(),
{
    if pids.len() > 0 {
        lemma_fired_own(timers, pids.drop_last());
    }
}

/// Nothing is reported for a task after its timer was cancelled, however often it
/// was started before and whatever fires afterwards; the timers of other tasks
/// report what they would have reported; and cancelling a task without a timer
/// changes nothing.
pub proof fn nothing_is_reported_after_a_cancel(
    timers: Map<u64, ReminderTimer>,
    pid: u64,
    pids: Seq<u64>,
)
    requires
        own_pids(timers),
    ensures
        forall|i: int|
            0 <= i < pids.len() ==> (#[trigger] reports(timers.remove(pid), pids)[i] matches Some(
                event,
            ) ==> event.pid == pids[i] && event.pid != pid),
        forall|i: int|
            0 <= i < pids.len() && pids[i] != pid ==> #[trigger] reports(
                timers.remove(pid),
                pids,
            )[i] == reports(timers, pids)[i],
        !timers.contains_key(pid) ==> timers.remove(pid) == timers,
{
    assert forall|i: int| 0 <= i < pids.len() implies (#[trigger] reports(
        timers.remove(pid),
        pids,
    )[i] matches Some(event) ==> event.pid == pids[i] && event.pid != pid) by {
        lemma_cancelled(timers, pid, pids.take(i));
        lemma_fired_own(timers, pids.take(i));
    }
    assert forall|i: int| 0 <= i < pids.len() && pids[i] != pid implies #[trigger] reports(
        timers.remove(pid),
        pids,
    )[i] == reports(timers, pids)[i] by {
        lemma_cancelled(timers, pid, pids.take(i));
    }
    if !timers.contains_key(pid) {
        assert(timers.remove(pid) =~= timers);
    }
}

/// A timer that was armed and has fired `firings` times is one interval further
/// each time, whatever else is armed, and its next firing reports that.
pub proof fn an_armed_timer_reports_multiples(
    timers: Map<u64, ReminderTimer>,
    pid: u64,
    interval_secs: u64,
    firings: nat,
)
    requires
        timers.contains_key(pid),
        timers[pid] == armed(pid, interval_secs),
        reported(interval_secs, firings + 1) <= u64::MAX,
    ensures
        report(all_fired(timers, Seq::new(firings, |i: int| pid)), pid) == Some(
            ReminderEvent {
                pid,
                elapsed_secs: reported(interval_secs, firings + 1) as u64,
            },
        ),
    decreases firings,
{
    let pids = Seq::new(firings, |i: int| pid);
    if firings > 0 {
        let before = Seq::new((firings - 1) as nat, |i: int| pid);
        assert(pids.drop_last() =~= before);
        an_armed_timer_reports_multiples(timers, pid, interval_secs, (firings - 1) as nat);
        assert(all_fired(timers, pids) == fired(all_fired(timers, before), pid));
        lemma_fired_keeps_interval(timers, pid, before);
    } else {
        assert(reported(interval_secs, 1) == reported(interval_secs, 0) + interval_secs);
    }
}

proof fn lemma_fired_keeps_interval(timers: Map<u64, ReminderTimer>, pid: u64, pids: Seq<u64>)
    requires
        timers.contains_key(pid),
    ensures
        all_fired(timers, pids).contains_key(pid),
        all_fired(timers, pids)[pid].interval_secs == timers[pid].interval_secs,
        all_fired(timers, pids)[pid].pid == timers[pid].pid,
    decreases pids.len(),
{
    if pids.len() > 0 {
        lemma_fired_keeps_interval(timers, pid, pids.drop_last());
    }
}

/// Manages per-task reminder timers: which task has one, and what each has
/// reported.
#[derive(Debug)]
pub struct ReminderManager {
    timers: HashMap<u64, ReminderTimer>,
}

impl View for ReminderManager {
    type V = Map<u64, ReminderTimer>;

    /// The armed timers, by PID.
    closed spec fn view(&self) -> Map<u64, ReminderTimer> {
        self.timers@
    }
}

impl ReminderManager {
    pub fn new() -> (r: Self)
        ensures
            r@ == Map::<u64, ReminderTimer>::empty(),
    {
        ReminderManager { timers: HashMap::new() }
    }

    /// Start a recurring reminder timer for a task. Fires every `interval_secs`
    /// until cancelled. A timer that the task had is replaced.
    pub fn start(&mut self, pid: u64, interval_secs: u64)
        ensures
            final(self)@ == old(self)@.insert(pid, armed(pid, interval_secs)),
    {
        let _ = self.timers.insert(pid, ReminderTimer::new(pid, interval_secs));
    }

    /// A task's interval has passed: the event to send, where the task has a
    /// timer whose seconds can still be counted.
    pub fn fire(&mut self, pid: u64) -> (r: Option<ReminderEvent>)
        ensures
            r == report(old(self)@, pid),
            final(self)@ == fired(old(self)@, pid),
            !old(self)@.contains_key(pid) ==> r is None,
    {
        let mut timer: ReminderTimer = match self.timers.get(&pid) {
            Some(timer) => *timer,
            None => return None,
        };
        if !timer.can_fire() {
            return None;
        }
        let event: ReminderEvent = timer.fire();
        let _ = self.timers.insert(pid, timer);
        Some(event)
    }

    /// Cancel the reminder timer for a task. Says whether there was one.
    pub fn cancel(&mut self, pid: u64) -> (r: bool)
        ensures
            final(self)@ == old(self)@.remove(pid),
            r == old(self)@.contains_key(pid),
    {
        self.timers.remove(&pid).is_some()
    }

    /// Cancel all reminder timers.
    pub fn cancel_all(&mut self)
        ensures
            final(self)@ == Map::<u64, ReminderTimer>::empty(),
    {
        self.timers.clear();
    }

    /// The interval of a task's timer, where it has one.
    pub fn interval(&self, pid: u64) -> (r: Option<u64>)
        ensures
            r == (if self@.contains_key(pid) {
                Some(self@[pid].interval_secs)
            } else {
                None
            }),
    {
        match self.timers.get(&pid) {
            Some(timer) => Some(timer.interval_secs),
            None => None,
        }
    }
}

/// A firing reports exactly where the task has a timer whose seconds can still be
/// counted: the timer's task, and one interval more than at the firing before. The
/// timer counts that and keeps the rest; every other timer stays as it is.
pub proof fn a_firing_reports_one_interval_more(
    timers: Map<u64, ReminderTimer>,
    pid: u64,
    other: u64,
)
    ensures
        report(timers, pid) is Some <==> timers.contains_key(pid) && timers[pid].elapsed_secs
            + timers[pid].interval_secs <= u64::MAX,
        report(timers, pid) matches Some(event) ==> {
            &&& event.pid == timers[pid].pid
            &&& event.elapsed_secs == timers[pid].elapsed_secs + timers[pid].interval_secs
            &&& fired(timers, pid).contains_key(pid)
            &&& fired(timers, pid)[pid] == (ReminderTimer {
                pid: timers[pid].pid,
                interval_secs: timers[pid].interval_secs,
                elapsed_secs: event.elapsed_secs,
            })
        },
        report(timers, pid) is None ==> fired(timers, pid) == timers,
        fired(timers, pid).dom() == timers.dom(),
        other != pid && timers.contains_key(other) ==> fired(timers, pid)[other] == timers[other],
{
    assert(fired(timers, pid).dom() =~= timers.dom());
}

/// A timer that is armed has its task's PID and its interval, and has counted
/// nothing.
pub proof fn an_armed_timer_has_counted_nothing(pid: u64, interval_secs: u64)
    ensures
        armed(pid, interval_secs).pid == pid,
        armed(pid, interval_secs).interval_secs == interval_secs,
        armed(pid, interval_secs).elapsed_secs == 0,
{
}

} // verus!
