use dispatch::reminder::{ReminderEvent, ReminderManager, ReminderTimer};

#[test]
fn a_timer_reports_multiples_of_its_interval() {
    let mut timer = ReminderTimer::new(4, 30);
    for k in 1..=5 {
        assert!(timer.can_fire());
        assert_eq!(timer.fire(), ReminderEvent { pid: 4, elapsed_secs: 30 * k });
    }
}

#[test]
fn a_timer_stops_before_its_seconds_overflow() {
    let mut timer = ReminderTimer::new(1, u64::MAX / 2 + 1);
    assert!(timer.can_fire());
    timer.fire();
    assert!(!timer.can_fire());
}

#[test]
fn a_manager_knows_which_tasks_have_a_timer() {
    let mut manager = ReminderManager::new();
    manager.start(1, 10);
    manager.start(2, 20);
    manager.start(1, 15);
    assert_eq!(manager.interval(1), Some(15));
    assert_eq!(manager.interval(3), None);
    assert!(manager.cancel(1));
    assert!(!manager.cancel(1));
    assert_eq!(manager.interval(1), None);
    assert_eq!(manager.interval(2), Some(20));
    manager.cancel_all();
    assert_eq!(manager.interval(2), None);
}

#[test]
fn a_cancelled_timer_reports_nothing() {
    let mut manager = ReminderManager::new();
    manager.start(1, 10);
    manager.start(2, 20);
    assert_eq!(manager.fire(1), Some(ReminderEvent { pid: 1, elapsed_secs: 10 }));
    // A second start replaces the first.
    manager.start(1, 15);
    assert_eq!(manager.fire(1), Some(ReminderEvent { pid: 1, elapsed_secs: 15 }));
    manager.cancel(1);
    assert_eq!(manager.fire(1), None);
    manager.cancel(3);
    assert_eq!(manager.fire(2), Some(ReminderEvent { pid: 2, elapsed_secs: 20 }));
    assert_eq!(manager.fire(1), None);
    assert_eq!(manager.fire(2), Some(ReminderEvent { pid: 2, elapsed_secs: 40 }));
}

#[test]
fn a_timer_that_cannot_count_on_reports_nothing() {
    let mut manager = ReminderManager::new();
    manager.start(1, u64::MAX);
    assert_eq!(manager.fire(1), Some(ReminderEvent { pid: 1, elapsed_secs: u64::MAX }));
    assert_eq!(manager.fire(1), None);
}
