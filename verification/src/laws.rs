//! What holds of the orchestrator as a whole: laws over its state and its steps.

use vstd::multiset::Multiset;
use vstd::prelude::*;
#[allow(unused_imports)]
use crate::boundary::{
    announcement_opens_no_tag, delimits, no_tag, stamped, tagged, tagged_text_is_found_again,
    tail_form,
};
#[allow(unused_imports)]
use crate::nonce::is_nonce;
#[allow(unused_imports)]
use crate::orchestrator::live_read;
#[allow(unused_imports)]
use crate::reminder::{armed, fired, report, ReminderTimer};
#[allow(unused_imports)]
use crate::signal::{latest, lines_of, of_pids, SignalKind, SignalView};
#[allow(unused_imports)]
use crate::state::{
    all_emittable, all_launched, all_quiet, all_resulted, all_signalled, any_running, batches,
    defers, dispatched, drained, drained_reminders, drained_result, drained_results, emittable,
    fires_wake, flushed, goal_set, group_at, init_message, initial, joined_held, kills,
    launched, pids_from, prevented, produced, raw_output, remind_message, remind_signal,
    reminder_fired, resulted, running, session_of, session_pids_of, session_running, shut_down,
    singles, state_wf, still_held, timer_launched, wait_step, waits, window_text, Drain,
    EmissionView, Held, Reminding, State, TaskResultKindView, TaskResultView, WaitEventView,
    DEFAULT_WINDOW_SIZE,
};
#[allow(unused_imports)]
use crate::task::{
    description_of, settled, started_mcp, started_timer, status_of, PreparedView, TaskKindView,
    TaskState, TaskView, TimerDefView,
};
#[allow(unused_imports)]
use crate::text::decimal;
#[allow(unused_imports)]
use crate::tool_meta::{applied_note_of, auto_applied_of, interval_of, planned};

verus! {

// ---- the invariant ----

/// Signals change the window alone, which stays bounded.
pub(crate) proof fn lemma_all_signalled(s: State, signals: Seq<SignalView>)
    ensures
        all_signalled(s, signals) == (State { window: all_signalled(s, signals).window, ..s }),
        s.window.len() <= DEFAULT_WINDOW_SIZE ==> all_signalled(s, signals).window.len()
            <= DEFAULT_WINDOW_SIZE,
    decreases signals.len(),
{
    if signals.len() > 0 {
        lemma_all_signalled(s, signals.drop_last());
    }
}

/// The first state is as a state must be, and a dispatch call keeps it so.
pub proof fn dispatch_keeps_the_invariant(
    s: State,
    batch: Seq<PreparedView>,
    strategy: Option<Seq<char>>,
    session: Option<Seq<char>>,
    nonces: Seq<Seq<char>>,
    now: u64,
)
    requires
        state_wf(s),
        nonces.len() == batch.len(),
        forall|i: int| 0 <= i < nonces.len() ==> is_nonce(#[trigger] nonces[i]),
        s.next_pid + batch.len() <= u64::MAX,
    ensures
        state_wf(initial()),
        state_wf(dispatched(s, batch, strategy, session, nonces, now)),
        dispatched(s, batch, strategy, session, nonces, now).next_pid == s.next_pid + batch.len(),
{
    lemma_all_launched_wf(goal_set(s, strategy, session), batch, session, nonces, now);
}

proof fn lemma_all_launched_wf(
    s: State,
    batch: Seq<PreparedView>,
    session: Option<Seq<char>>,
    nonces: Seq<Seq<char>>,
    now: u64,
)
    requires
        state_wf(s),
        batch.len() <= nonces.len(),
        forall|i: int| 0 <= i < nonces.len() ==> is_nonce(#[trigger] nonces[i]),
        s.next_pid + batch.len() <= u64::MAX,
    ensures
        state_wf(all_launched(s, batch, session, nonces, now)),
        all_launched(s, batch, session, nonces, now).next_pid == s.next_pid + batch.len(),
    decreases batch.len(),
{
    if batch.len() > 0 {
        lemma_all_launched_wf(s, batch.drop_last(), session, nonces, now);
        assert(is_nonce(nonces[batch.len() - 1]));
    }
}

/// Starting a timer keeps the invariant.
pub proof fn timer_keeps_the_invariant(s: State, def: TimerDefView, now: u64)
    requires
        state_wf(s),
        s.next_pid < u64::MAX,
    ensures
        state_wf(timer_launched(s, def, now)),
{
}

/// A kill call, a wait call and a shutdown keep the invariant.
pub proof fn requests_keep_the_invariant(s: State, pids: Seq<u64>)
    requires
        state_wf(s),
    ensures
        state_wf(kills(s, pids).state),
        state_wf(waits(s, pids).state),
        state_wf(shut_down(s)),
    decreases pids.len(),
{
    if pids.len() > 0 {
        requests_keep_the_invariant(s, pids.drop_last());
    }
}

proof fn lemma_resulted_wf(s: State, r: TaskResultView)
    requires
        state_wf(s),
    ensures
        state_wf(resulted(s, r)),
        all_emittable(produced(s, r)),
        !prevented(s, r.pid) ==> produced(s, r).len() > 0,
        forall|i: int| 0 <= i < produced(s, r).len() ==> (#[trigger] produced(s, r)[i]).pid == r.pid,
{
    lemma_all_signalled(s, produced(s, r));
}

proof fn lemma_joined_held(s: State, session: Option<Seq<char>>, signals: Seq<SignalView>)
    requires
        state_wf(s),
        signals.len() > 0,
        all_emittable(signals),
        all_quiet(s, session, signals),
    ensures
        state_wf(State { held: joined_held(s.held, session, signals), ..s }),
{
    let after = State { held: joined_held(s.held, session, signals), ..s };
    if exists|i: int| group_at(s.held, session, i) {
        let k = choose|i: int| group_at(s.held, session, i);
        assert forall|i: int| 0 <= i < after.held.len() implies (
        #[trigger] after.held[i]).signals.len() > 0 && all_emittable(after.held[i].signals)
            && all_quiet(after, after.held[i].session, after.held[i].signals) by {
            assert(all_quiet(s, s.held[i].session, s.held[i].signals));
        }
    } else {
        assert forall|k: int| 0 <= k < s.held.len() implies (#[trigger] s.held[k]).session
            != session by {
            assert(!group_at(s.held, session, k));
        }
        assert forall|i: int| 0 <= i < after.held.len() implies (
        #[trigger] after.held[i]).signals.len() > 0 && all_emittable(after.held[i].signals)
            && all_quiet(after, after.held[i].session, after.held[i].signals) by {
            if i < s.held.len() {
                assert(all_quiet(s, s.held[i].session, s.held[i].signals));
            }
        }
    }
}

pub(crate) proof fn lemma_drained_results_wf(s: State, results: Seq<TaskResultView>)
    requires
        state_wf(s),
    ensures
        state_wf(drained_results(s, results).state),
    decreases results.len(),
{
    if results.len() > 0 {
        let d = drained_results(s, results.drop_last());
        let r = results.last();
        lemma_drained_results_wf(s, results.drop_last());
        lemma_resulted_wf(d.state, r);
        if !prevented(d.state, r.pid) && !fires_wake(d.state, r.pid) {
            lemma_all_signalled(d.state, produced(d.state, r));
            lemma_joined_held(
                resulted(d.state, r),
                session_of(d.state, r.pid),
                produced(d.state, r),
            );
        }
    }
}

pub(crate) proof fn lemma_drained_reminders_wf(d: Drain, events: Seq<Reminding>)
    requires
        state_wf(d.state),
    ensures
        state_wf(drained_reminders(d, events).state),
        drained_reminders(d, events).state == (State {
            window: drained_reminders(d, events).state.window,
            ..d.state
        }),
    decreases events.len(),
{
    if events.len() > 0 {
        lemma_drained_reminders_wf(d, events.drop_last());
    }
}

/// Still held groups are groups that were held, in the same order.
pub(crate) proof fn lemma_still_held(s: State, held: Seq<Held>)
    ensures
        still_held(s, held).len() <= held.len(),
        forall|i: int|
            0 <= i < still_held(s, held).len() ==> exists|k: int|
                i <= k < held.len() && #[trigger] still_held(s, held)[i] == held[k],
    decreases held.len(),
{
    if held.len() > 0 {
        lemma_still_held(s, held.drop_last());
        let before = still_held(s, held.drop_last());
        assert forall|i: int| 0 <= i < still_held(s, held).len() implies exists|k: int|
            i <= k < held.len() && #[trigger] still_held(s, held)[i] == held[k] by {
            if i < before.len() {
                let k = choose|k: int| i <= k < held.len() - 1 && before[i] == held.drop_last()[k];
                assert(still_held(s, held)[i] == held[k]);
            } else {
                assert(still_held(s, held)[i] == held[held.len() - 1]);
            }
        }
    }
}

/// Of groups of distinct sessions, those that are still held have distinct
/// sessions.
pub(crate) proof fn lemma_still_held_distinct(s: State, held: Seq<Held>)
    requires
        forall|i: int, j: int|
            0 <= i < j < held.len() ==> (#[trigger] held[i]).session != (#[trigger] held[j]).session,
    ensures
        forall|i: int, j: int|
            0 <= i < j < still_held(s, held).len() ==> (#[trigger] still_held(s, held)[i]).session
                != (#[trigger] still_held(s, held)[j]).session,
    decreases held.len(),
{
    if held.len() > 0 {
        let front = held.drop_last();
        assert forall|i: int, j: int| 0 <= i < j < front.len() implies (#[trigger] front[i]).session
            != (#[trigger] front[j]).session by {
            assert(held[i].session != held[j].session);
        }
        lemma_still_held_distinct(s, front);
        lemma_still_held(s, front);
        let before = still_held(s, front);
        assert forall|i: int, j: int| 0 <= i < j < still_held(s, held).len() implies (
        #[trigger] still_held(s, held)[i]).session != (#[trigger] still_held(
            s,
            held,
        )[j]).session by {
            if j < before.len() {
                assert(before[i].session != before[j].session);
            } else {
                let k = choose|k: int| i <= k < front.len() && before[i] == front[k];
                assert(held[k].session != held[held.len() - 1].session);
            }
        }
    }
}


/// Draining, with emissions or without, keeps the invariant.
pub proof fn drain_keeps_the_invariant(
    s: State,
    results: Seq<TaskResultView>,
    events: Seq<Reminding>,
)
    requires
        state_wf(s),
    ensures
        state_wf(drained(s, results, events).state),
        state_wf(all_resulted(s, results)),
    decreases results.len(),
{
    let d = drained_results(s, results);
    let e = drained_reminders(d, events);
    lemma_drained_results_wf(s, results);
    lemma_drained_reminders_wf(d, events);
    lemma_still_held(e.state, e.state.held);
    lemma_still_held_distinct(e.state, e.state.held);
    if results.len() > 0 {
        drain_keeps_the_invariant(s, results.drop_last(), Seq::empty());
        lemma_resulted_wf(all_resulted(s, results.drop_last()), results.last());
    }
}

/// A step of a wait keeps the invariant.
pub proof fn waiting_keeps_the_invariant(s: State, event: WaitEventView)
    requires
        state_wf(s),
    ensures
        state_wf(wait_step(s, event).0),
{
    match event {
        WaitEventView::Result(r) => lemma_resulted_wf(s, r),
        _ => {},
    }
}

// ---- held signals ----

/// The groups of the sessions that have settled.
pub open spec fn settled_groups(s: State) -> Seq<Held> {
    s.held.filter(|h: Held| !session_running(s, h.session))
}

/// The groups of the sessions of which a task still runs.
pub open spec fn waiting_groups(s: State) -> Seq<Held> {
    s.held.filter(|h: Held| session_running(s, h.session))
}

/// A group as one batch.
pub open spec fn merged(groups: Seq<Held>) -> Seq<EmissionView> {
    Seq::new(groups.len(), |i: int| EmissionView::Batch(groups[i].signals))
}

proof fn lemma_flush_filters(s: State, held: Seq<Held>)
    requires
        forall|i: int| 0 <= i < held.len() ==> (#[trigger] held[i]).signals.len() > 0,
    ensures
        batches(s, held) == merged(held.filter(|h: Held| !session_running(s, h.session))),
        still_held(s, held) == held.filter(|h: Held| session_running(s, h.session)),
    decreases held.len(),
{
    let done = |h: Held| !session_running(s, h.session);
    let open = |h: Held| session_running(s, h.session);
    reveal(Seq::filter);
    if held.len() > 0 {
        let front = held.drop_last();
        assert forall|i: int| 0 <= i < front.len() implies (#[trigger] front[i]).signals.len()
            > 0 by {
            assert(held[i].signals.len() > 0);
        }
        lemma_flush_filters(s, front);
        assert(held.last() == held[held.len() - 1]);
        assert(merged(front.filter(done).push(held.last())) =~= merged(front.filter(done)).push(
            EmissionView::Batch(held.last().signals),
        ));
    }
    assert(batches(s, held) =~= merged(held.filter(done)));
    assert(still_held(s, held) =~= held.filter(open));
}

/// A flush emits the group of every session that has settled as exactly one
/// batch, whole and in the order in which the groups came to be; the groups of
/// the other sessions, and those alone, stay held.
pub proof fn settled_groups_go_out_whole(d: Drain)
    requires
        state_wf(d.state),
    ensures
        flushed(d).out == d.out + merged(settled_groups(d.state)),
        flushed(d).state == (State { held: waiting_groups(d.state), ..d.state }),
{
    lemma_flush_filters(d.state, d.state.held);
}

/// After a drain, a group is held exactly while a task of its own session runs:
/// neither does a settled session keep its signals back, nor does a task of
/// another session hold them up.
pub proof fn only_unsettled_sessions_wait(
    s: State,
    results: Seq<TaskResultView>,
    events: Seq<Reminding>,
)
    requires
        state_wf(s),
    ensures
        ({
            let before = drained_reminders(drained_results(s, results), events).state;
            let after = drained(s, results, events).state;
            &&& forall|i: int|
                0 <= i < after.held.len() ==> session_running(
                    after,
                    (#[trigger] after.held[i]).session,
                )
            &&& forall|i: int|
                0 <= i < before.held.len() && session_running(
                    before,
                    (#[trigger] before.held[i]).session,
                ) ==> after.held.contains(before.held[i])
        }),
{
    let d = drained_reminders(drained_results(s, results), events);
    let before = d.state;
    let after = drained(s, results, events).state;
    lemma_drained_results_wf(s, results);
    lemma_drained_reminders_wf(drained_results(s, results), events);
    settled_groups_go_out_whole(d);
    let open = |h: Held| session_running(before, h.session);
    assert forall|i: int| 0 <= i < after.held.len() implies session_running(
        after,
        (#[trigger] after.held[i]).session,
    ) by {
        before.held.lemma_filter_pred(open, i);
        lemma_same_tasks(before, after, after.held[i].session);
    }
    assert forall|i: int|
        0 <= i < before.held.len() && session_running(
            before,
            (#[trigger] before.held[i]).session,
        ) implies after.held.contains(before.held[i]) by {
        before.held.lemma_filter_contains(open, i);
    }
}

/// Which tasks of a session run depends on tasks and sessions alone.
pub(crate) proof fn lemma_same_tasks(s: State, t: State, session: Option<Seq<char>>)
    requires
        s.tasks == t.tasks,
        s.sessions == t.sessions,
    ensures
        session_running(s, session) == session_running(t, session),
{
    settling_is_session_scoped(s, t, session);
}

/// Whether a session has settled depends on its own tasks alone.
pub proof fn settling_is_session_scoped(s: State, t: State, session: Option<Seq<char>>)
    requires
        forall|pid: u64|
            (#[trigger] running(s, pid) && session_of(s, pid) == session) <==> (running(t, pid)
                && session_of(t, pid) == session),
    ensures
        session_running(s, session) == session_running(t, session),
{
    if session_running(s, session) {
        let pid = choose|pid: u64| #[trigger] running(s, pid) && session_of(s, pid) == session;
        assert(running(t, pid));
    }
    if session_running(t, session) {
        let pid = choose|pid: u64| #[trigger] running(t, pid) && session_of(t, pid) == session;
        assert(running(s, pid));
    }
}

/// The signals in emissions.
pub open spec fn emitted(out: Seq<EmissionView>) -> Multiset<SignalView>
    decreases out.len(),
{
    if out.len() == 0 {
        Multiset::empty()
    } else {
        emitted(out.drop_last()).add(
            match out.last() {
                EmissionView::Single(e) => Multiset::singleton(e),
                EmissionView::Batch(signals) => signals.to_multiset(),
            },
        )
    }
}

/// The signals in held groups.
pub open spec fn held_back(held: Seq<Held>) -> Multiset<SignalView>
    decreases held.len(),
{
    if held.len() == 0 {
        Multiset::empty()
    } else {
        held_back(held.drop_last()).add(held.last().signals.to_multiset())
    }
}

/// The signals that results produce as they are drained.
pub open spec fn all_produced(s: State, results: Seq<TaskResultView>) -> Multiset<SignalView>
    decreases results.len(),
{
    if results.len() == 0 {
        Multiset::empty()
    } else {
        all_produced(s, results.drop_last()).add(
            produced(drained_results(s, results.drop_last()).state, results.last()).to_multiset(),
        )
    }
}

/// The signals that reminders of running tasks give as they are drained.
pub open spec fn all_reminded(d: Drain, events: Seq<Reminding>) -> Multiset<SignalView>
    decreases events.len(),
{
    if events.len() == 0 {
        Multiset::empty()
    } else {
        let before = all_reminded(d, events.drop_last());
        let e = events.last();
        if running(drained_reminders(d, events.drop_last()).state, e.pid) {
            before.add(Multiset::singleton(remind_signal(e.pid, e.elapsed, e.live)))
        } else {
            before
        }
    }
}

proof fn lemma_emitted_push(out: Seq<EmissionView>, e: EmissionView)
    ensures
        emitted(out.push(e)) == emitted(out).add(
            match e {
                EmissionView::Single(e) => Multiset::singleton(e),
                EmissionView::Batch(signals) => signals.to_multiset(),
            },
        ),
{
    assert(out.push(e).drop_last() =~= out);
}

proof fn lemma_emitted_add(a: Seq<EmissionView>, b: Seq<EmissionView>)
    ensures
        emitted(a + b) == emitted(a).add(emitted(b)),
    decreases b.len(),
{
    if b.len() == 0 {
        assert(a + b =~= a);
        assert(emitted(a).add(emitted(b)) =~= emitted(a));
    } else {
        lemma_emitted_add(a, b.drop_last());
        assert((a + b).drop_last() =~= a + b.drop_last());
        assert(emitted(a + b) =~= emitted(a).add(emitted(b)));
    }
}

proof fn lemma_emitted_singles(signals: Seq<SignalView>)
    ensures
        emitted(singles(signals)) == signals.to_multiset(),
    decreases signals.len(),
{
    broadcast use vstd::seq_lib::group_to_multiset_ensures;

    if signals.len() == 0 {
        assert(signals.to_multiset() =~= Multiset::empty());
    } else {
        let front = signals.drop_last();
        lemma_emitted_singles(front);
        assert(singles(signals).drop_last() =~= singles(front));
        assert(front.push(signals.last()) =~= signals);
        assert(signals.to_multiset() =~= front.to_multiset().insert(signals.last()));
        assert(emitted(singles(signals)) =~= signals.to_multiset());
    }
}

proof fn lemma_multiset_add(a: Seq<SignalView>, b: Seq<SignalView>)
    ensures
        (a + b).to_multiset() == a.to_multiset().add(b.to_multiset()),
    decreases b.len(),
{
    broadcast use vstd::seq_lib::group_to_multiset_ensures;

    if b.len() == 0 {
        assert(a + b =~= a);
        assert(b.to_multiset() =~= Multiset::empty());
        assert(a.to_multiset().add(b.to_multiset()) =~= a.to_multiset());
    } else {
        let front = b.drop_last();
        lemma_multiset_add(a, front);
        assert((a + front).push(b.last()) =~= a + b);
        assert(front.push(b.last()) =~= b);
        assert((a + b).to_multiset() =~= a.to_multiset().add(b.to_multiset()));
    }
}

proof fn lemma_held_update(held: Seq<Held>, i: int, more: Seq<SignalView>)
    requires
        0 <= i < held.len(),
    ensures
        held_back(
            held.update(i, Held { session: held[i].session, signals: held[i].signals + more }),
        ) == held_back(held).add(more.to_multiset()),
    decreases held.len(),
{
    let grown = Held { session: held[i].session, signals: held[i].signals + more };
    let after = held.update(i, grown);
    let front = held.drop_last();
    if i == held.len() - 1 {
        assert(after.drop_last() =~= front);
        lemma_multiset_add(held[i].signals, more);
    } else {
        lemma_held_update(front, i, more);
        assert(after.drop_last() =~= front.update(i, grown));
    }
    assert(held_back(after) =~= held_back(held).add(more.to_multiset()));
}

proof fn lemma_held_joined(held: Seq<Held>, session: Option<Seq<char>>, signals: Seq<SignalView>)
    ensures
        held_back(joined_held(held, session, signals)) == held_back(held).add(
            signals.to_multiset(),
        ),
{
    if exists|i: int| group_at(held, session, i) {
        let i = choose|i: int| group_at(held, session, i);
        lemma_held_update(held, i, signals);
    } else {
        assert(held.push(Held { session, signals }).drop_last() =~= held);
    }
}

proof fn lemma_flush_conserves(s: State, held: Seq<Held>)
    ensures
        emitted(batches(s, held)).add(held_back(still_held(s, held))) == held_back(held),
    decreases held.len(),
{
    broadcast use vstd::seq_lib::group_to_multiset_ensures;

    if held.len() == 0 {
        assert(emitted(batches(s, held)).add(held_back(still_held(s, held))) =~= held_back(held));
    } else {
        let front = held.drop_last();
        let last = held.last();
        lemma_flush_conserves(s, front);
        if session_running(s, last.session) {
            assert(still_held(s, front).push(last).drop_last() =~= still_held(s, front));
        } else if last.signals.len() == 0 {
            assert(last.signals.to_multiset() =~= Multiset::empty());
        } else {
            lemma_emitted_push(batches(s, front), EmissionView::Batch(last.signals));
        }
        assert(emitted(batches(s, held)).add(held_back(still_held(s, held))) =~= held_back(held));
    }
}

proof fn lemma_results_conserve(s: State, results: Seq<TaskResultView>)
    ensures
        emitted(drained_results(s, results).out).add(
            held_back(drained_results(s, results).state.held),
        ) == held_back(s.held).add(all_produced(s, results)),
    decreases results.len(),
{
    let d = drained_results(s, results);
    if results.len() > 0 {
        let b = drained_results(s, results.drop_last());
        let r = results.last();
        let signals = produced(b.state, r);
        lemma_results_conserve(s, results.drop_last());
        lemma_all_signalled(b.state, signals);
        if prevented(b.state, r.pid) {
            broadcast use vstd::seq_lib::group_to_multiset_ensures;

            assert(signals.to_multiset() =~= Multiset::empty());
        } else if fires_wake(b.state, r.pid) {
            lemma_emitted_add(b.out, singles(signals));
            lemma_emitted_singles(signals);
            assert(d.state.held == b.state.held);
        } else {
            lemma_held_joined(b.state.held, session_of(b.state, r.pid), signals);
            assert(d.state.held == joined_held(
                b.state.held,
                session_of(b.state, r.pid),
                signals,
            ));
        }
        assert(all_produced(s, results) == all_produced(s, results.drop_last()).add(
            signals.to_multiset(),
        ));
        assert(emitted(d.out).add(held_back(d.state.held)) =~= emitted(b.out).add(
            held_back(b.state.held),
        ).add(signals.to_multiset()));
    }
    assert(emitted(d.out).add(held_back(d.state.held)) =~= held_back(s.held).add(
        all_produced(s, results),
    ));
}

proof fn lemma_reminders_conserve(d: Drain, events: Seq<Reminding>)
    ensures
        emitted(drained_reminders(d, events).out) == emitted(d.out).add(all_reminded(d, events)),
        drained_reminders(d, events).state.held == d.state.held,
    decreases events.len(),
{
    if events.len() > 0 {
        let b = drained_reminders(d, events.drop_last());
        let e = events.last();
        lemma_reminders_conserve(d, events.drop_last());
        if running(b.state, e.pid) {
            lemma_emitted_push(
                b.out,
                EmissionView::Single(remind_signal(e.pid, e.elapsed, e.live)),
            );
        }
    }
    assert(emitted(drained_reminders(d, events).out) =~= emitted(d.out).add(
        all_reminded(d, events),
    ));
}

/// No signal is dropped or sent twice: what a drain emits and what it leaves
/// held are together what was held before, what the results produced, and the
/// reminders of tasks that still run.
pub proof fn no_signal_is_lost(s: State, results: Seq<TaskResultView>, events: Seq<Reminding>)
    ensures
        ({
            let d = drained(s, results, events);
            emitted(d.out).add(held_back(d.state.held)) == held_back(s.held).add(
                all_produced(s, results),
            ).add(all_reminded(drained_results(s, results), events))
        }),
{
    let a = drained_results(s, results);
    let b = drained_reminders(a, events);
    let d = drained(s, results, events);
    lemma_results_conserve(s, results);
    lemma_reminders_conserve(a, events);
    lemma_flush_conserves(b.state, b.state.held);
    lemma_emitted_add(b.out, batches(b.state, b.state.held));
    assert(emitted(d.out).add(held_back(d.state.held)) =~= held_back(s.held).add(
        all_produced(s, results),
    ).add(all_reminded(a, events)));
}

/// Whether an emission consists of ends and reminders.
pub open spec fn emits_only_ends(e: EmissionView) -> bool {
    match e {
        EmissionView::Single(e) => emittable(e),
        EmissionView::Batch(signals) => all_emittable(signals),
    }
}

proof fn lemma_results_emit_ends(s: State, results: Seq<TaskResultView>)
    requires
        state_wf(s),
    ensures
        forall|i: int|
            0 <= i < drained_results(s, results).out.len() ==> emits_only_ends(
                #[trigger] drained_results(s, results).out[i],
            ),
    decreases results.len(),
{
    if results.len() > 0 {
        let b = drained_results(s, results.drop_last());
        lemma_results_emit_ends(s, results.drop_last());
        lemma_drained_results_wf(s, results.drop_last());
        lemma_resulted_wf(b.state, results.last());
    }
}

proof fn lemma_reminders_emit_ends(d: Drain, events: Seq<Reminding>)
    requires
        forall|i: int| 0 <= i < d.out.len() ==> emits_only_ends(#[trigger] d.out[i]),
    ensures
        forall|i: int|
            0 <= i < drained_reminders(d, events).out.len() ==> emits_only_ends(
                #[trigger] drained_reminders(d, events).out[i],
            ),
    decreases events.len(),
{
    if events.len() > 0 {
        lemma_reminders_emit_ends(d, events.drop_last());
    }
}

/// A drain pushes EXIT and REMIND signals and no others: INIT, WAIT and KILL
/// answer requests and are never pushed.
pub proof fn only_ends_and_reminders_are_pushed(
    s: State,
    results: Seq<TaskResultView>,
    events: Seq<Reminding>,
)
    requires
        state_wf(s),
    ensures
        forall|i: int|
            0 <= i < drained(s, results, events).out.len() ==> emits_only_ends(
                #[trigger] drained(s, results, events).out[i],
            ),
{
    let a = drained_results(s, results);
    let b = drained_reminders(a, events);
    let d = drained(s, results, events);
    lemma_results_emit_ends(s, results);
    lemma_drained_results_wf(s, results);
    lemma_reminders_emit_ends(a, events);
    lemma_drained_reminders_wf(a, events);
    settled_groups_go_out_whole(b);
    let done = |h: Held| !session_running(b.state, h.session);
    assert forall|i: int| 0 <= i < d.out.len() implies emits_only_ends(#[trigger] d.out[i]) by {
        if i < b.out.len() {
            assert(d.out[i] == b.out[i]);
        } else {
            let group = settled_groups(b.state)[i - b.out.len()];
            assert(settled_groups(b.state).contains(group));
            b.state.held.lemma_filter_contains_rev(done, group);
            let k = b.state.held.index_of(group);
            assert(all_emittable(b.state.held[k].signals));
        }
    }
}

proof fn lemma_filter_distinct(held: Seq<Held>, pred: spec_fn(Held) -> bool)
    requires
        forall|i: int, j: int|
            0 <= i < j < held.len() ==> (#[trigger] held[i]).session != (#[trigger] held[j]).session,
    ensures
        forall|i: int, j: int|
            0 <= i < j < held.filter(pred).len() ==> (#[trigger] held.filter(pred)[i]).session != (
            #[trigger] held.filter(pred)[j]).session,
    decreases held.len(),
{
    reveal(Seq::filter);
    if held.len() > 0 {
        let front = held.drop_last();
        assert forall|i: int, j: int| 0 <= i < j < front.len() implies (#[trigger] front[i]).session
            != (#[trigger] front[j]).session by {
            assert(held[i].session != held[j].session);
        }
        lemma_filter_distinct(front, pred);
        let picked = front.filter(pred);
        let all = held.filter(pred);
        assert forall|i: int, j: int| 0 <= i < j < all.len() implies (#[trigger] all[i]).session
            != (#[trigger] all[j]).session by {
            if j < picked.len() {
                assert(picked[i].session != picked[j].session);
            } else {
                assert(picked.contains(picked[i]));
                front.lemma_filter_contains_rev(pred, picked[i]);
                let k = front.index_of(picked[i]);
                assert(held[k].session != held[held.len() - 1].session);
            }
        }
    }
}

proof fn lemma_results_emit_singles(s: State, results: Seq<TaskResultView>)
    ensures
        forall|i: int|
            0 <= i < drained_results(s, results).out.len() ==> (#[trigger] drained_results(
                s,
                results,
            ).out[i]) is Single,
    decreases results.len(),
{
    if results.len() > 0 {
        lemma_results_emit_singles(s, results.drop_last());
    }
}

proof fn lemma_reminders_emit_singles(d: Drain, events: Seq<Reminding>)
    requires
        forall|i: int| 0 <= i < d.out.len() ==> (#[trigger] d.out[i]) is Single,
    ensures
        forall|i: int|
            0 <= i < drained_reminders(d, events).out.len() ==> (#[trigger] drained_reminders(
                d,
                events,
            ).out[i]) is Single,
    decreases events.len(),
{
    if events.len() > 0 {
        lemma_reminders_emit_singles(d, events.drop_last());
    }
}

/// The session whose tasks the signals of a batch are of, told by its first.
pub open spec fn batch_session(s: State, e: EmissionView) -> Option<Seq<char>> {
    session_of(s, e->Batch_0[0].pid)
}

/// A batch is never empty and holds signals of fire_wake=false tasks of one
/// session, none of whose tasks runs; and a session gets at most one batch.
pub proof fn a_batch_is_one_settled_session(
    s: State,
    results: Seq<TaskResultView>,
    events: Seq<Reminding>,
)
    requires
        state_wf(s),
    ensures
        forall|i: int|
            0 <= i < drained(s, results, events).out.len() ==> ((#[trigger] drained(
                s,
                results,
                events,
            ).out[i]) matches EmissionView::Batch(signals) ==> {
                let after = drained(s, results, events).state;
                let session = batch_session(after, EmissionView::Batch(signals));
                &&& signals.len() > 0
                &&& all_quiet(after, session, signals)
                &&& !session_running(after, session)
            }),
        forall|i: int, j: int|
            0 <= i < j < drained(s, results, events).out.len() && (#[trigger] drained(
                s,
                results,
                events,
            ).out[i]) is Batch && (#[trigger] drained(s, results, events).out[j]) is Batch
                ==> batch_session(
                drained(s, results, events).state,
                drained(s, results, events).out[i],
            ) != batch_session(
                drained(s, results, events).state,
                drained(s, results, events).out[j],
            ),
{
    let a = drained_results(s, results);
    let b = drained_reminders(a, events);
    let d = drained(s, results, events);
    let n = b.out.len() as int;
    let groups = settled_groups(b.state);
    let done = |h: Held| !session_running(b.state, h.session);
    lemma_drained_results_wf(s, results);
    lemma_drained_reminders_wf(a, events);
    lemma_results_emit_singles(s, results);
    lemma_reminders_emit_singles(a, events);
    settled_groups_go_out_whole(b);
    lemma_filter_distinct(b.state.held, done);
    assert forall|k: int| 0 <= k < groups.len() implies {
        let group = #[trigger] groups[k];
        &&& group.signals.len() > 0
        &&& all_quiet(d.state, group.session, group.signals)
        &&& !session_running(d.state, group.session)
        &&& batch_session(d.state, EmissionView::Batch(group.signals)) == group.session
    } by {
        let group = groups[k];
        b.state.held.lemma_filter_pred(done, k);
        assert(groups.contains(group));
        b.state.held.lemma_filter_contains_rev(done, group);
        let m = b.state.held.index_of(group);
        assert(all_quiet(b.state, b.state.held[m].session, b.state.held[m].signals));
        lemma_same_tasks(b.state, d.state, group.session);
        assert forall|i: int| 0 <= i < group.signals.len() implies session_of(
            d.state,
            (#[trigger] group.signals[i]).pid,
        ) == group.session && !fires_wake(d.state, group.signals[i].pid) by {
            assert(session_of(b.state, group.signals[i].pid) == group.session);
        }
        assert(session_of(d.state, group.signals[0].pid) == group.session);
    }
    assert forall|i: int| 0 <= i < d.out.len() && (#[trigger] d.out[i]) is Batch implies n <= i
        && d.out[i] == EmissionView::Batch(groups[i - n].signals) by {
        if i < n {
            assert(d.out[i] == b.out[i]);
        }
    }
    assert forall|i: int, j: int|
        0 <= i < j < d.out.len() && (#[trigger] d.out[i]) is Batch && (
        #[trigger] d.out[j]) is Batch implies batch_session(d.state, d.out[i]) != batch_session(
        d.state,
        d.out[j],
    ) by {
        assert(groups[i - n].session != groups[j - n].session);
    }
}

/// `fire_wake` alone decides how a task's result is emitted: where it is set,
/// each signal goes out at once and on its own, whatever else runs, and nothing is
/// held; where it is not, nothing goes out and the signals join their session's
/// group. The expiry of a timer that was killed is dropped.
pub proof fn fire_wake_decides(d: Drain, r: TaskResultView)
    ensures
        prevented(d.state, r.pid) ==> drained_result(d, r) == d,
        fires_wake(d.state, r.pid) ==> drained_result(d, r).out == d.out + singles(
            produced(d.state, r),
        ) && drained_result(d, r).state.held == d.state.held,
        !prevented(d.state, r.pid) && !fires_wake(d.state, r.pid) ==> drained_result(d, r).out == d.out
            && drained_result(d, r).state.held == joined_held(
            d.state.held,
            session_of(d.state, r.pid),
            produced(d.state, r),
        ),
{
    lemma_all_signalled(d.state, produced(d.state, r));
}

// ---- the life of a task ----

/// Whether every task of one state is still known in a later one, as it was
/// dispatched, and runs there only if it ran before; an end is final, a kill as
/// much as an exit.
pub open spec fn lives_on(s: State, t: State) -> bool {
    forall|pid: u64| #[trigger]
        s.tasks.contains_key(pid) ==> {
            &&& t.tasks.contains_key(pid)
            &&& running(t, pid) ==> running(s, pid)
            &&& !running(s, pid) ==> t.tasks[pid].state == s.tasks[pid].state
            &&& t.tasks[pid].kind == s.tasks[pid].kind
            &&& t.tasks[pid].nonce == s.tasks[pid].nonce
            &&& t.tasks[pid].started_at == s.tasks[pid].started_at
            &&& t.tasks[pid].auto_remind_after == s.tasks[pid].auto_remind_after
            &&& session_of(t, pid) == session_of(s, pid)
        }
}

proof fn lemma_lives_on(s: State, t: State, u: State)
    requires
        lives_on(s, t),
        lives_on(t, u),
    ensures
        lives_on(s, u),
{
    assert forall|pid: u64| #[trigger] s.tasks.contains_key(pid) implies u.tasks.contains_key(
        pid,
    ) by {
        assert(t.tasks.contains_key(pid));
    }
    assert forall|pid: u64| #[trigger] s.tasks.contains_key(pid) && running(u, pid) implies running(
        s,
        pid,
    ) by {
        assert(t.tasks.contains_key(pid));
    }
    assert forall|pid: u64| #[trigger] s.tasks.contains_key(pid) && !running(s, pid) implies
        u.tasks[pid].state == s.tasks[pid].state by {
        assert(t.tasks.contains_key(pid));
    }
    assert forall|pid: u64| #[trigger] s.tasks.contains_key(pid) implies {
        &&& u.tasks[pid].kind == s.tasks[pid].kind
        &&& u.tasks[pid].nonce == s.tasks[pid].nonce
        &&& u.tasks[pid].started_at == s.tasks[pid].started_at
        &&& u.tasks[pid].auto_remind_after == s.tasks[pid].auto_remind_after
        &&& session_of(u, pid) == session_of(s, pid)
    } by {
        assert(t.tasks.contains_key(pid));
    }
}

proof fn lemma_resulted_lives_on(s: State, r: TaskResultView)
    ensures
        lives_on(s, resulted(s, r)),
        !running(resulted(s, r), r.pid),
{
    lemma_all_signalled(s, produced(s, r));
}

/// Results, drained or not, and reminders forget no task and revive none: a task
/// that has settled stays settled, and what it was dispatched with never changes.
pub proof fn draining_revives_no_task(
    s: State,
    results: Seq<TaskResultView>,
    events: Seq<Reminding>,
)
    requires
        state_wf(s),
    ensures
        lives_on(s, drained(s, results, events).state),
        lives_on(s, all_resulted(s, results)),
        forall|i: int|
            0 <= i < results.len() ==> !running(
                drained(s, results, events).state,
                (#[trigger] results[i]).pid,
            ),
{
    lemma_results_live_on(s, results);
    lemma_drained_results_wf(s, results);
    lemma_drained_reminders_wf(drained_results(s, results), events);
    lemma_all_resulted_live_on(s, results);
}

proof fn lemma_all_resulted_live_on(s: State, results: Seq<TaskResultView>)
    ensures
        lives_on(s, all_resulted(s, results)),
    decreases results.len(),
{
    if results.len() > 0 {
        let b = all_resulted(s, results.drop_last());
        lemma_all_resulted_live_on(s, results.drop_last());
        lemma_resulted_lives_on(b, results.last());
        lemma_lives_on(s, b, resulted(b, results.last()));
    }
}

proof fn lemma_results_live_on(s: State, results: Seq<TaskResultView>)
    ensures
        lives_on(s, drained_results(s, results).state),
        forall|i: int|
            0 <= i < results.len() ==> !running(
                drained_results(s, results).state,
                (#[trigger] results[i]).pid,
            ),
    decreases results.len(),
{
    if results.len() > 0 {
        let front = results.drop_last();
        let b = drained_results(s, front).state;
        let d = drained_results(s, results).state;
        let r = results.last();
        lemma_results_live_on(s, front);
        lemma_resulted_lives_on(b, r);
        assert(lives_on(b, d)) by {
            assert(d == (State { held: d.held, ..resulted(b, r) }));
        }
        lemma_lives_on(s, b, d);
        assert forall|i: int| 0 <= i < results.len() implies !running(
            d,
            (#[trigger] results[i]).pid,
        ) by {
            if i < front.len() {
                assert(front[i] == results[i]);
                let pid = results[i].pid;
                if running(d, pid) {
                    if b.tasks.contains_key(pid) {
                        assert(running(b, pid));
                    }
                }
            } else {
                assert(results[i] == r);
            }
        }
    }
}

/// Kill calls, wait calls and a shutdown forget no task and revive none.
pub proof fn requests_revive_no_task(s: State, pids: Seq<u64>)
    ensures
        lives_on(s, kills(s, pids).state),
        lives_on(s, waits(s, pids).state),
        lives_on(s, shut_down(s)),
    decreases pids.len(),
{
    if pids.len() > 0 {
        let front = pids.drop_last();
        requests_revive_no_task(s, front);
        let k = kills(s, front).state;
        let w = waits(s, front).state;
        assert(lives_on(k, kills(s, pids).state));
        lemma_lives_on(s, k, kills(s, pids).state);
        assert(lives_on(w, waits(s, pids).state));
        lemma_lives_on(s, w, waits(s, pids).state);
    }
}

/// A step of a wait forgets no task and revives none.
pub proof fn waiting_revives_no_task(s: State, event: WaitEventView)
    ensures
        lives_on(s, wait_step(s, event).0),
{
    match event {
        WaitEventView::Result(r) => lemma_resulted_lives_on(s, r),
        _ => {},
    }
}

// ---- kill, wait and shutdown ----

/// A kill ends exactly the running ones of the tasks that it names, up to the
/// first PID that no task has, which is what it reports; everything but these
/// tasks, their reminders and the window stays as it was.
pub proof fn kill_ends_what_it_names(s: State, pids: Seq<u64>)
    ensures
        kills(s, pids).missing is None <==> (forall|i: int|
            0 <= i < pids.len() ==> s.tasks.contains_key(#[trigger] pids[i])),
        kills(s, pids).missing matches Some(pid) ==> pids.contains(pid) && !s.tasks.contains_key(
            pid,
        ),
        kills(s, pids).done.no_duplicates(),
        kills(s, pids).state.tasks.dom() == s.tasks.dom(),
        forall|pid: u64| #[trigger]
            kills(s, pids).done.contains(pid) ==> running(s, pid) && pids.contains(pid) && kills(
                s,
                pids,
            ).state.tasks[pid] == settled(s.tasks[pid], TaskState::Killed) && !kills(
                s,
                pids,
            ).state.reminders.contains_key(pid),
        forall|pid: u64|
            s.tasks.contains_key(pid) && !kills(s, pids).done.contains(pid)
                ==> #[trigger] kills(s, pids).state.tasks[pid] == s.tasks[pid],
        kills(s, pids).missing is None ==> (forall|i: int|
            0 <= i < pids.len() && running(s, #[trigger] pids[i]) ==> kills(s, pids).done.contains(
                pids[i],
            )),
        kills(s, pids).state == (State {
            tasks: kills(s, pids).state.tasks,
            reminders: kills(s, pids).state.reminders,
            window: kills(s, pids).state.window,
            ..s
        }),
    decreases pids.len(),
{
    let w = kills(s, pids);
    if pids.len() > 0 {
        let front = pids.drop_last();
        let last = pids.last();
        kill_ends_what_it_names(s, front);
        let b = kills(s, front);
        assert forall|i: int| 0 <= i < front.len() implies front[i] == #[trigger] pids[i] by {}
        assert(pids[pids.len() - 1] == last);
        assert forall|pid: u64| front.contains(pid) implies pids.contains(pid) by {
            let k = front.index_of(pid);
            assert(pids[k] == pid);
        }
        assert(w.state.tasks.dom() =~= s.tasks.dom());
        if b.missing is None && b.state.tasks.contains_key(last) && running(b.state, last) {
            assert(s.tasks.contains_key(last)) by {
                assert(b.state.tasks.dom().contains(last));
            }
            assert(!b.done.contains(last));
            assert forall|pid: u64| w.done.contains(pid) <==> (b.done.contains(pid) || pid
                == last) by {
                if b.done.contains(pid) {
                    let k = b.done.index_of(pid);
                    assert(w.done[k] == pid);
                }
                assert(w.done[b.done.len() as int] == last);
            }
        }
        if b.missing is None {
            assert(b.state.tasks.dom().contains(last) <==> s.tasks.dom().contains(last));
            assert forall|i: int| 0 <= i < front.len() implies s.tasks.contains_key(
                #[trigger] pids[i],
            ) by {
                assert(s.tasks.contains_key(front[i]));
            }
        } else {
            assert(exists|i: int| 0 <= i < front.len() && !s.tasks.contains_key(front[i]));
            let i = choose|i: int| 0 <= i < front.len() && !s.tasks.contains_key(front[i]);
            assert(!s.tasks.contains_key(pids[i]));
        }
        if w.missing is None {
            assert forall|i: int| 0 <= i < pids.len() && running(
                s,
                #[trigger] pids[i],
            ) implies w.done.contains(pids[i]) by {
                if i < front.len() {
                    assert(running(s, front[i]));
                    assert(b.done.contains(front[i]));
                } else if !b.done.contains(last) {
                    assert(b.state.tasks[last] == s.tasks[last]);
                }
            }
        }
    } else {
        assert(w.state.tasks.dom() =~= s.tasks.dom());
    }
}

/// Killing the last running task of a session releases what was held for it: the
/// next drain emits the session's group as one batch.
pub proof fn a_kill_releases_the_held_group(s: State, pids: Seq<u64>, i: int)
    requires
        state_wf(s),
        0 <= i < s.held.len(),
        !session_running(kills(s, pids).state, s.held[i].session),
    ensures
        drained(kills(s, pids).state, Seq::empty(), Seq::empty()).out.contains(
            EmissionView::Batch(s.held[i].signals),
        ),
{
    let after = kills(s, pids).state;
    let d = Drain { state: after, out: Seq::<EmissionView>::empty() };
    requests_keep_the_invariant(s, pids);
    kill_ends_what_it_names(s, pids);
    settled_groups_go_out_whole(d);
    let done = |h: Held| !session_running(after, h.session);
    after.held.lemma_filter_contains(done, i);
    let k = settled_groups(after).index_of(after.held[i]);
    assert(flushed(d).out[k] == EmissionView::Batch(s.held[i].signals));
    assert(drained(after, Seq::empty(), Seq::empty()) == flushed(d));
}

proof fn lemma_nothing_to_kill(s: State, pids: Seq<u64>)
    requires
        forall|i: int|
            0 <= i < pids.len() ==> s.tasks.contains_key(#[trigger] pids[i]) && !running(
                s,
                pids[i],
            ),
    ensures
        kills(s, pids).state == s,
        kills(s, pids).done.len() == 0,
        kills(s, pids).missing is None,
    decreases pids.len(),
{
    if pids.len() > 0 {
        let front = pids.drop_last();
        assert forall|i: int| 0 <= i < front.len() implies s.tasks.contains_key(
            #[trigger] front[i],
        ) && !running(s, front[i]) by {
            assert(front[i] == pids[i]);
        }
        lemma_nothing_to_kill(s, front);
        assert(pids[pids.len() - 1] == pids.last());
    }
}

/// Killing the same tasks again does nothing and ends nobody.
pub proof fn killing_twice_is_killing_once(s: State, pids: Seq<u64>)
    requires
        kills(s, pids).missing is None,
    ensures
        kills(kills(s, pids).state, pids).state == kills(s, pids).state,
        kills(kills(s, pids).state, pids).done.len() == 0,
        kills(kills(s, pids).state, pids).missing is None,
{
    let w = kills(s, pids);
    kill_ends_what_it_names(s, pids);
    assert forall|i: int| 0 <= i < pids.len() implies w.state.tasks.contains_key(
        #[trigger] pids[i],
    ) && !running(w.state, pids[i]) by {
        let pid = pids[i];
        assert(s.tasks.contains_key(pid));
        assert(w.state.tasks.dom().contains(pid));
        if !w.done.contains(pid) {
            assert(w.state.tasks[pid] == s.tasks[pid]);
        }
    }
    lemma_nothing_to_kill(w.state, pids);
}

/// A wait call notes in the window that the LLM goes on waiting, and changes
/// nothing else.
pub proof fn waiting_only_signals(s: State, pids: Seq<u64>)
    ensures
        waits(s, pids).state == (State { window: waits(s, pids).state.window, ..s }),
        waits(s, pids).missing == kills(s, pids).missing,
        forall|pid: u64| #[trigger] waits(s, pids).done.contains(pid) ==> running(s, pid),
    decreases pids.len(),
{
    if pids.len() > 0 {
        let front = pids.drop_last();
        waiting_only_signals(s, front);
        kill_ends_what_it_names(s, front);
        let b = waits(s, front);
        let w = waits(s, pids);
        assert(kills(s, front).state.tasks.dom().contains(pids.last())
            <==> s.tasks.dom().contains(pids.last()));
        assert forall|pid: u64| #[trigger] w.done.contains(pid) implies running(s, pid) by {
            let k = w.done.index_of(pid);
            if k < b.done.len() {
                assert(b.done[k] == pid);
                assert(b.done.contains(pid));
            }
        }
    }
}

/// After a shutdown nothing runs and no reminder is armed; it signals nothing,
/// keeps every output, and does nothing a second time.
pub proof fn shutdown_ends_everything(s: State)
    ensures
        !any_running(shut_down(s)),
        shut_down(s).reminders == Map::<u64, ReminderTimer>::empty(),
        shut_down(s).window == s.window,
        shut_down(s).outputs == s.outputs,
        shut_down(shut_down(s)) == shut_down(s),
{
    assert(shut_down(shut_down(s)) =~= shut_down(s));
}

// ---- reminders ----

/// The firing of a reminder timer keeps the invariant and changes nothing but
/// what the timer has counted; it reports a running task under its own PID, and
/// reports nothing for a task whose timer was cancelled, by its end or by a kill.
pub proof fn firings_come_from_armed_timers(s: State, pid: u64)
    requires
        state_wf(s),
    ensures
        state_wf(reminder_fired(s, pid)),
        reminder_fired(s, pid) == (State { reminders: fired(s.reminders, pid), ..s }),
        report(s.reminders, pid) matches Some(event) ==> event.pid == pid && running(s, pid),
        !running(s, pid) ==> report(s.reminders, pid) is None,
{
}

/// A reminder of a task that no longer runs is dropped: none goes out after a
/// task's end or kill.
pub proof fn reminders_come_from_running_tasks(d: Drain, events: Seq<Reminding>, e: SignalView)
    requires
        state_wf(d.state),
        all_reminded(d, events).count(e) > 0,
    ensures
        e.kind is Remind,
        running(d.state, e.pid),
    decreases events.len(),
{
    if events.len() > 0 {
        let front = events.drop_last();
        let last = events.last();
        lemma_drained_reminders_wf(d, front);
        if all_reminded(d, front).count(e) > 0 {
            reminders_come_from_running_tasks(d, front, e);
        } else {
            assert(e == remind_signal(last.pid, last.elapsed, last.live));
        }
    }
}

/// A reminder that dispatch armed on the caller's behalf is never silent: the
/// INIT message ends with its disclosure and `status` reports its interval. One
/// that the caller chose is not claimed.
pub proof fn injected_reminders_are_visible(
    s: State,
    p: PreparedView,
    session: Option<Seq<char>>,
    nonce: Seq<char>,
    now: u64,
    later: u64,
)
    requires
        s.next_pid < u64::MAX,
    ensures
        ({
            let pid = s.next_pid;
            let after = launched(s, p, session, nonce, now);
            let plan = planned(p.def.remind_after, p.tool_meta);
            &&& status_of(after.tasks[pid], later).auto_remind_after == auto_applied_of(plan)
            &&& after.window.len() > 0
            &&& after.window.last().pid == pid
            &&& after.window.last().kind is Init
            &&& after.window.last().message == init_message(
                description_of(TaskKindView::Mcp(p.def)),
                plan,
            )
            &&& applied_note_of(plan) matches Some(note) ==> after.window.last().message
                == description_of(TaskKindView::Mcp(p.def)) + " "@ + note
            &&& applied_note_of(plan) is None ==> after.window.last().message == description_of(
                TaskKindView::Mcp(p.def),
            )
        }),
{
    let plan = planned(p.def.remind_after, p.tool_meta);
    let description = description_of(TaskKindView::Mcp(p.def));
    match applied_note_of(plan) {
        Some(note) => {
            assert(init_message(description, plan) =~= description + " "@ + note);
        },
        None => {
            assert(init_message(description, plan) =~= description);
        },
    }
}

// ---- output and its boundaries ----

/// The output of a call that succeeded can be fetched afterwards as it was,
/// deferred or not; nothing else changes what is kept of other tasks. The expiry
/// of a timer that was killed changes nothing.
pub proof fn output_is_kept(s: State, r: TaskResultView)
    ensures
        prevented(s, r.pid) ==> resulted(s, r) == s && produced(s, r).len() == 0,
        !prevented(s, r.pid) ==> (r.kind matches TaskResultKindView::McpComplete(Ok(out)) ==> {
            &&& resulted(s, r).outputs.contains_key(r.pid)
            &&& resulted(s, r).outputs[r.pid] == raw_output(out)
            &&& out.len() > 0 ==> resulted(s, r).outputs[r.pid] == out
        }),
        !(r.kind matches TaskResultKindView::McpComplete(Ok(_))) ==> resulted(s, r).outputs
            == s.outputs,
        resulted(s, r).outputs.remove(r.pid) == s.outputs.remove(r.pid),
{
    lemma_all_signalled(s, produced(s, r));
    assert(resulted(s, r).outputs.remove(r.pid) =~= s.outputs.remove(r.pid));
}

/// An output stays what it is while no result of the same task comes in.
pub proof fn output_outlives_a_drain(
    s: State,
    results: Seq<TaskResultView>,
    events: Seq<Reminding>,
    pid: u64,
)
    requires
        state_wf(s),
        forall|i: int| 0 <= i < results.len() ==> (#[trigger] results[i]).pid != pid,
    ensures
        drained(s, results, events).state.outputs.contains_key(pid) <==> s.outputs.contains_key(
            pid,
        ),
        drained(s, results, events).state.outputs[pid] == s.outputs[pid],
{
    lemma_results_keep_output(s, results, pid);
    lemma_drained_results_wf(s, results);
    lemma_drained_reminders_wf(drained_results(s, results), events);
}

proof fn lemma_results_keep_output(s: State, results: Seq<TaskResultView>, pid: u64)
    requires
        forall|i: int| 0 <= i < results.len() ==> (#[trigger] results[i]).pid != pid,
    ensures
        drained_results(s, results).state.outputs.contains_key(pid) <==> s.outputs.contains_key(
            pid,
        ),
        drained_results(s, results).state.outputs[pid] == s.outputs[pid],
    decreases results.len(),
{
    if results.len() > 0 {
        let front = results.drop_last();
        assert forall|i: int| 0 <= i < front.len() implies (#[trigger] front[i]).pid != pid by {
            assert(front[i] == results[i]);
        }
        lemma_results_keep_output(s, front, pid);
        assert(results[results.len() - 1] == results.last());
        lemma_all_signalled(
            drained_results(s, front).state,
            produced(drained_results(s, front).state, results.last()),
        );
    }
}

/// What a reader finds between the boundary tags of an EXIT message is the
/// call's output, or its failure, whole, whatever that text itself holds: tags
/// that it forges are neither the first nor the last. A deferred output does not
/// appear.
pub proof fn exit_delimits_its_output(s: State, r: TaskResultView)
    requires
        state_wf(s),
        s.tasks.contains_key(r.pid),
        s.tasks[r.pid].kind is Mcp,
        r.kind is McpComplete,
    ensures
        ({
            let h = s.tasks[r.pid].nonce->0;
            let e = produced(s, r)[0];
            &&& produced(s, r).len() == 1
            &&& is_nonce(h)
            &&& e.nonce == Some(h)
            &&& match r.kind->McpComplete_0 {
                Ok(out) => if defers(s, r.pid) {
                    e.message == stamped(h, "200 (deferred)"@)
                } else {
                    delimits(e.message, h, raw_output(out))
                },
                Err(detail) => delimits(e.message, h, detail),
            }
        }),
{
    let h = s.tasks[r.pid].nonce->0;
    reveal_strlit("200 ");
    reveal_strlit("500 ");
    match r.kind->McpComplete_0 {
        Ok(out) => {
            announcement_opens_no_tag(Seq::empty(), h, "200 "@);
            let prefix = Seq::<char>::empty() + ("[hash="@ + h + "] "@ + "200 "@);
            tagged_text_is_found_again(prefix, h, raw_output(out));
            assert(stamped(h, "200 "@ + tagged(h, raw_output(out))) =~= prefix + tagged(
                h,
                raw_output(out),
            ));
        },
        Err(detail) => {
            announcement_opens_no_tag(Seq::empty(), h, "500 "@);
            let prefix = Seq::<char>::empty() + ("[hash="@ + h + "] "@ + "500 "@);
            tagged_text_is_found_again(prefix, h, detail);
            assert(stamped(h, "500 "@ + tagged(h, detail)) =~= prefix + tagged(h, detail));
        },
    }
}

proof fn lemma_decimal_opens_no_tag(n: nat)
    ensures
        no_tag(decimal(n)),
    decreases n,
{
    if n >= 10 {
        lemma_decimal_opens_no_tag(n / 10);
    }
}

/// What a reader finds between the boundary tags of a live tail, in a REMIND
/// message or in `status`, is the tail, whole, whatever it holds.
pub proof fn live_tails_are_delimited(elapsed: u64, nonce: Seq<char>, text: Seq<char>)
    requires
        is_nonce(nonce),
    ensures
        delimits(remind_message(elapsed, Some((nonce, text))), nonce, text),
        delimits(tail_form(nonce, text), nonce, text),
{
    reveal_strlit("Running for ");
    reveal_strlit("s");
    reveal_strlit(" ");
    lemma_decimal_opens_no_tag(elapsed as nat);
    let none = Seq::<char>::empty();
    let head = "Running for "@ + decimal(elapsed as nat) + "s"@ + " "@;
    announcement_opens_no_tag(head, nonce, none);
    let prefix = head + ("[hash="@ + nonce + "] "@ + none);
    tagged_text_is_found_again(prefix, nonce, text);
    assert(remind_message(elapsed, Some((nonce, text))) =~= prefix + tagged(nonce, text));
    announcement_opens_no_tag(none, nonce, none);
    let bare = none + ("[hash="@ + nonce + "] "@ + none);
    tagged_text_is_found_again(bare, nonce, text);
    assert(tail_form(nonce, text) =~= bare + tagged(nonce, text));
}

/// A live tail never discloses the nonce of the EXIT to come: the nonce that a
/// REMIND carries is not the one that the task's EXIT carries, whatever happened
/// in between.
pub proof fn a_reminder_keeps_the_exit_nonce_secret(
    s: State,
    t: State,
    n: nat,
    elapsed: u64,
    live: Option<(Seq<char>, Seq<char>)>,
    r: TaskResultView,
)
    requires
        state_wf(s),
        running(s, r.pid),
        s.tasks[r.pid].kind is Mcp,
        live_read(s, r.pid, n, live),
        lives_on(s, t),
        r.kind is McpComplete,
    ensures
        produced(t, r).len() == 1,
        remind_signal(r.pid, elapsed, live).nonce != produced(t, r)[0].nonce,
{
    assert(s.tasks.contains_key(r.pid));
}

// ---- dispatch ----

/// The task that a prepared call becomes.
pub open spec fn task_of(pid: u64, p: PreparedView, nonce: Seq<char>, now: u64) -> TaskView {
    TaskView {
        auto_remind_after: auto_applied_of(planned(p.def.remind_after, p.tool_meta)),
        ..started_mcp(pid, p.def, nonce, now)
    }
}

/// The INIT signal of a prepared call.
pub open spec fn init_of(pid: u64, p: PreparedView) -> SignalView {
    crate::signal::plain_signal(
        pid,
        SignalKind::Init,
        init_message(
            description_of(TaskKindView::Mcp(p.def)),
            planned(p.def.remind_after, p.tool_meta),
        ),
    )
}

/// The INIT signals of a batch.
pub open spec fn inits(first: u64, batch: Seq<PreparedView>) -> Seq<SignalView> {
    Seq::new(batch.len(), |i: int| init_of((first + i) as u64, batch[i]))
}

/// Whether the `i`-th task of a batch is tracked in a later state, under the PID
/// that is its own, with its own nonce, in the batch's session, and with the
/// reminder that was asked for or suggested.
pub open spec fn tracked_at(
    s: State,
    after: State,
    batch: Seq<PreparedView>,
    session: Option<Seq<char>>,
    nonces: Seq<Seq<char>>,
    now: u64,
    i: int,
) -> bool {
    let pid = (s.next_pid + i) as u64;
    let interval = interval_of(planned(batch[i].def.remind_after, batch[i].tool_meta));
    &&& running(after, pid)
    &&& after.tasks[pid] == task_of(pid, batch[i], nonces[i], now)
    &&& session_of(after, pid) == session
    &&& after.reminders.contains_key(pid) <==> interval is Some && interval->0 > 0
    &&& after.reminders.contains_key(pid) ==> after.reminders[pid] == armed(pid, interval->0)
}

/// Whether a task and its reminder are in a later state what they were.
pub open spec fn untouched(s: State, after: State, pid: u64) -> bool {
    &&& after.tasks.contains_key(pid) <==> s.tasks.contains_key(pid)
    &&& after.tasks[pid] == s.tasks[pid]
    &&& after.reminders.contains_key(pid) <==> s.reminders.contains_key(pid)
    &&& after.reminders[pid] == s.reminders[pid]
    &&& session_of(after, pid) == session_of(s, pid)
}

/// A dispatch call tracks every task of its batch under a PID that none had
/// before, in the batch's order.
pub proof fn dispatch_tracks_every_task(
    s: State,
    batch: Seq<PreparedView>,
    strategy: Option<Seq<char>>,
    session: Option<Seq<char>>,
    nonces: Seq<Seq<char>>,
    now: u64,
)
    requires
        state_wf(s),
        nonces.len() == batch.len(),
        s.next_pid + batch.len() <= u64::MAX,
    ensures
        pids_from(s.next_pid, batch.len()).no_duplicates(),
        forall|i: int|
            0 <= i < batch.len() ==> !s.tasks.contains_key(
                #[trigger] pids_from(s.next_pid, batch.len())[i],
            ),
        forall|i: int|
            0 <= i < batch.len() ==> #[trigger] tracked_at(
                s,
                dispatched(s, batch, strategy, session, nonces, now),
                batch,
                session,
                nonces,
                now,
                i,
            ),
{
    let g = goal_set(s, strategy, session);
    let after = dispatched(s, batch, strategy, session, nonces, now);
    lemma_launch_tracks(g, batch, session, nonces, now);
    assert forall|i: int| 0 <= i < batch.len() implies #[trigger] tracked_at(
        s,
        after,
        batch,
        session,
        nonces,
        now,
        i,
    ) by {
        assert(tracked_at(g, after, batch, session, nonces, now, i));
    }
}

/// A dispatch call leaves tasks that were there, their reminders, all output and
/// all held signals as they were. It signals the INIT of every task of the batch,
/// and replaces the strategy and the current session where it names one.
pub proof fn dispatch_disturbs_nothing(
    s: State,
    batch: Seq<PreparedView>,
    strategy: Option<Seq<char>>,
    session: Option<Seq<char>>,
    nonces: Seq<Seq<char>>,
    now: u64,
)
    requires
        state_wf(s),
        nonces.len() == batch.len(),
        s.next_pid + batch.len() <= u64::MAX,
    ensures
        forall|pid: u64| #[trigger]
            s.tasks.contains_key(pid) ==> untouched(
                s,
                dispatched(s, batch, strategy, session, nonces, now),
                pid,
            ),
        lives_on(s, dispatched(s, batch, strategy, session, nonces, now)),
        dispatched(s, batch, strategy, session, nonces, now).window == latest(
            s.window + inits(s.next_pid, batch),
            DEFAULT_WINDOW_SIZE as nat,
        ),
        dispatched(s, batch, strategy, session, nonces, now).outputs == s.outputs,
        dispatched(s, batch, strategy, session, nonces, now).held == s.held,
        dispatched(s, batch, strategy, session, nonces, now).strategy == (if strategy is Some {
            strategy
        } else {
            s.strategy
        }),
        dispatched(s, batch, strategy, session, nonces, now).current_session
            == (if session is Some {
            session
        } else {
            s.current_session
        }),
{
    let g = goal_set(s, strategy, session);
    let after = dispatched(s, batch, strategy, session, nonces, now);
    lemma_launch_tracks(g, batch, session, nonces, now);
    assert forall|pid: u64| #[trigger] s.tasks.contains_key(pid) implies untouched(
        s,
        after,
        pid,
    ) by {
        assert(untouched(g, after, pid));
    }
}

pub(crate) proof fn lemma_launch_tracks(
    s: State,
    batch: Seq<PreparedView>,
    session: Option<Seq<char>>,
    nonces: Seq<Seq<char>>,
    now: u64,
)
    requires
        state_wf(s),
        batch.len() <= nonces.len(),
        s.next_pid + batch.len() <= u64::MAX,
    ensures
        all_launched(s, batch, session, nonces, now).next_pid == s.next_pid + batch.len(),
        forall|i: int|
            0 <= i < batch.len() ==> #[trigger] tracked_at(
                s,
                all_launched(s, batch, session, nonces, now),
                batch,
                session,
                nonces,
                now,
                i,
            ),
        forall|pid: u64|
            pid < s.next_pid ==> #[trigger] untouched(
                s,
                all_launched(s, batch, session, nonces, now),
                pid,
            ),
        forall|pid: u64|
            pid >= s.next_pid + batch.len() ==> #[trigger] unused(
                all_launched(s, batch, session, nonces, now),
                pid,
            ),
        all_launched(s, batch, session, nonces, now).window == latest(
            s.window + inits(s.next_pid, batch),
            DEFAULT_WINDOW_SIZE as nat,
        ),
        all_launched(s, batch, session, nonces, now).outputs == s.outputs,
        all_launched(s, batch, session, nonces, now).held == s.held,
        all_launched(s, batch, session, nonces, now).strategy == s.strategy,
        all_launched(s, batch, session, nonces, now).current_session == s.current_session,
    decreases batch.len(),
{
    let after = all_launched(s, batch, session, nonces, now);
    if batch.len() == 0 {
        assert(s.window + inits(s.next_pid, batch) =~= s.window);
        assert forall|pid: u64| pid >= s.next_pid implies #[trigger] unused(s, pid) by {
            assert(!s.tasks.contains_key(pid));
        }
    } else {
        let front = batch.drop_last();
        let b = all_launched(s, front, session, nonces, now);
        let n = batch.len() - 1;
        lemma_launch_tracks(s, front, session, nonces, now);
        assert(after == launched(b, batch.last(), session, nonces[n], now));
        assert(unused(b, b.next_pid));
        let e = init_of(b.next_pid, batch.last());
        crate::signal::window_keeps_the_latest(
            s.window + inits(s.next_pid, front),
            e,
            DEFAULT_WINDOW_SIZE as nat,
        );
        assert((s.window + inits(s.next_pid, front)).push(e) =~= s.window + inits(
            s.next_pid,
            batch,
        ));
        assert forall|i: int| 0 <= i < batch.len() implies #[trigger] tracked_at(
            s,
            after,
            batch,
            session,
            nonces,
            now,
            i,
        ) by {
            if i < n {
                assert(tracked_at(s, b, front, session, nonces, now, i));
                assert(front[i] == batch[i]);
            }
        }
        assert forall|pid: u64| pid < s.next_pid implies #[trigger] untouched(s, after, pid) by {
            assert(untouched(s, b, pid));
        }
        assert forall|pid: u64| pid >= s.next_pid + batch.len() implies #[trigger] unused(
            after,
            pid,
        ) by {
            assert(unused(b, pid));
        }
    }
}

/// Whether nothing is known under a PID.
pub open spec fn unused(s: State, pid: u64) -> bool {
    !s.tasks.contains_key(pid) && !s.reminders.contains_key(pid) && !s.sessions.contains_key(pid)
}

/// A timer runs under a PID that no task had before, and leaves every other task
/// and its reminder as they were.
pub proof fn a_timer_disturbs_nothing(s: State, def: TimerDefView, now: u64)
    requires
        state_wf(s),
        s.next_pid < u64::MAX,
    ensures
        !s.tasks.contains_key(s.next_pid),
        running(timer_launched(s, def, now), s.next_pid),
        timer_launched(s, def, now).tasks[s.next_pid] == started_timer(s.next_pid, def, now),
        forall|pid: u64| #[trigger]
            s.tasks.contains_key(pid) ==> untouched(s, timer_launched(s, def, now), pid),
        lives_on(s, timer_launched(s, def, now)),
{
}

// ---- what the LLM sees ----

/// Whether the signals are of the window and of a session's tasks.
pub open spec fn of_session(s: State, session: Seq<char>, shown: Seq<SignalView>) -> bool {
    forall|i: int|
        0 <= i < shown.len() ==> session_of(s, (#[trigger] shown[i]).pid) == Some(session)
            && s.window.contains(shown[i])
}

/// With a session current, a wakeup shows signals of that session's tasks and of
/// no others, whatever else is going on, even where that leaves nothing to show.
pub proof fn a_wakeup_shows_one_session(s: State, session: Seq<char>, count: nat)
    requires
        s.current_session == Some(session),
    ensures
        exists|shown: Seq<SignalView>|
            window_text(s, count) == lines_of(shown) && shown.len() <= count
                && #[trigger] of_session(s, session, shown),
        session_pids_of(s, session) == Set::<u64>::empty() ==> window_text(s, count) == Seq::<
            char,
        >::empty(),
{
    let wanted = |e: SignalView| session_pids_of(s, session).contains(e.pid);
    let all = of_pids(s.window, session_pids_of(s, session));
    let shown = latest(all, count);
    assert forall|i: int| 0 <= i < shown.len() implies session_of(s, (#[trigger] shown[i]).pid)
        == Some(session) && s.window.contains(shown[i]) by {
        let k = i + (all.len() - shown.len());
        assert(shown[i] == all[k]);
        s.window.lemma_filter_pred(wanted, k);
        assert(all.contains(all[k]));
        s.window.lemma_filter_contains_rev(wanted, all[k]);
    }
    assert(of_session(s, session, shown));
    if session_pids_of(s, session) == Set::<u64>::empty() {
        if shown.len() > 0 {
            assert(session_of(s, shown[0].pid) == Some(session));
            assert(session_pids_of(s, session).contains(shown[0].pid));
        }
    }
}

/// A wait goes on only while something runs: a caller is never left waiting for
/// nothing.
pub proof fn a_wait_goes_on_only_while_something_runs(s: State, event: WaitEventView)
    requires
        event is Reminder ==> any_running(s),
    ensures
        wait_step(s, event).1 is Continue ==> any_running(wait_step(s, event).0),
{
}

} // verus!
