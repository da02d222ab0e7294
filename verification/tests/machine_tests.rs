use devtimer::machine::{transition, Cmd, Outcome};
use devtimer::message::message;
use devtimer::state::TimerData;

fn default_state() -> TimerData {
    TimerData::new()
}

#[test]
fn new_state_is_zeroed() {
    let s = default_state();
    assert_eq!(s.total_spent, 0);
    assert_eq!(s.current_start, None);
    assert_eq!(s.paused_elapsed, 0);
}

#[test]
fn start_then_break_scenario() {
    let s0 = default_state();
    let (s1, o1) = transition(&s0, Cmd::Start, 1000);
    assert_eq!(o1, Outcome::Started);
    assert_eq!(message(&o1), "Timer started.");
    assert_eq!(
        s1,
        TimerData { total_spent: 0, current_start: Some(1000), paused_elapsed: 0 }
    );

    let (s2, o2) = transition(&s1, Cmd::Break, 1100);
    assert_eq!(o2, Outcome::Paused { session: 100 });
    assert_eq!(message(&o2), "Paused. Current session time: 1 minutes");
    assert_eq!(
        s2,
        TimerData { total_spent: 0, current_start: None, paused_elapsed: 100 }
    );
}

#[test]
fn back_resumes_paused_session() {
    let s = TimerData { total_spent: 0, current_start: None, paused_elapsed: 100 };
    let (s1, o1) = transition(&s, Cmd::Back, 1200);
    assert_eq!(o1, Outcome::Resumed);
    assert_eq!(message(&o1), "Resumed.");
    assert_eq!(
        s1,
        TimerData { total_spent: 0, current_start: Some(1200), paused_elapsed: 100 }
    );
}

#[test]
fn stop_adds_running_and_paused_time() {
    let s = TimerData { total_spent: 0, current_start: Some(1200), paused_elapsed: 100 };
    let (s1, o1) = transition(&s, Cmd::Stop, 1260);
    assert_eq!(o1, Outcome::Stopped { session: 160 });
    assert_eq!(message(&o1), "Stopped. Session time: 2 minutes");
    assert_eq!(
        s1,
        TimerData { total_spent: 160, current_start: None, paused_elapsed: 0 }
    );
}

#[test]
fn stop_when_idle_changes_nothing() {
    let s = default_state();
    let (s1, o1) = transition(&s, Cmd::Stop, 5000);
    assert_eq!(o1, Outcome::NotRunning);
    assert_eq!(message(&o1), "Timer is not running.");
    assert_eq!(s1, s);
    assert_eq!(s1.total_spent, 0);
}

#[test]
fn stop_of_paused_session_uses_banked_time_alone() {
    let s = TimerData { total_spent: 7, current_start: None, paused_elapsed: 30 };
    let (s1, o1) = transition(&s, Cmd::Stop, 9999);
    assert_eq!(o1, Outcome::Stopped { session: 30 });
    assert_eq!(
        s1,
        TimerData { total_spent: 37, current_start: None, paused_elapsed: 0 }
    );
}

#[test]
fn start_while_running_changes_nothing() {
    let s = TimerData { total_spent: 3, current_start: Some(50), paused_elapsed: 0 };
    let (s1, o1) = transition(&s, Cmd::Start, 80);
    assert_eq!(o1, Outcome::AlreadyInProgress);
    assert_eq!(
        message(&o1),
        "A session is already in progress. Use 'stop' to finish the current session."
    );
    assert_eq!(s1, s);
}

#[test]
fn start_while_paused_changes_nothing() {
    let s = TimerData { total_spent: 3, current_start: None, paused_elapsed: 9 };
    let (s1, o1) = transition(&s, Cmd::Start, 80);
    assert_eq!(o1, Outcome::AlreadyInProgress);
    assert_eq!(s1, s);
}

#[test]
fn break_while_idle_changes_nothing() {
    let s = default_state();
    let (s1, o1) = transition(&s, Cmd::Break, 80);
    assert_eq!(o1, Outcome::NotRunning);
    assert_eq!(message(&o1), "Timer is not running.");
    assert_eq!(s1, s);
}

#[test]
fn back_while_running_changes_nothing() {
    let s = TimerData { total_spent: 0, current_start: Some(10), paused_elapsed: 0 };
    let (s1, o1) = transition(&s, Cmd::Back, 20);
    assert_eq!(o1, Outcome::AlreadyRunning);
    assert_eq!(message(&o1), "Timer is already running.");
    assert_eq!(s1, s);
}

#[test]
fn back_while_idle_changes_nothing() {
    let s = default_state();
    let (s1, o1) = transition(&s, Cmd::Back, 20);
    assert_eq!(o1, Outcome::NothingToResume);
    assert_eq!(
        message(&o1),
        "No paused session to resume. Use 'start' to begin a session."
    );
    assert_eq!(s1, s);
}

#[test]
fn spent_reports_without_changing_state() {
    let s = TimerData { total_spent: 160, current_start: Some(42), paused_elapsed: 5 };
    let (s1, o1) = transition(&s, Cmd::Spent, 100);
    assert_eq!(o1, Outcome::Spent { total: 160 });
    assert_eq!(message(&o1), "Total time spent: 2 minutes");
    assert_eq!(s1, s);
    let (s2, o2) = transition(&s1, Cmd::Spent, 200);
    assert_eq!(o2, Outcome::Spent { total: 160 });
    assert_eq!(s2, s);
}

#[test]
fn invalid_command_changes_nothing() {
    let s = TimerData { total_spent: 1, current_start: Some(2), paused_elapsed: 3 };
    let (s1, o1) = transition(&s, Cmd::Invalid, 100);
    assert_eq!(o1, Outcome::Invalid);
    assert_eq!(message(&o1), "Invalid command. Use 'devtimer --help' for usage info.");
    assert_eq!(s1, s);
}

#[test]
fn break_saturates_when_clock_runs_backwards() {
    let s = TimerData { total_spent: 0, current_start: Some(1000), paused_elapsed: 40 };
    let (s1, o1) = transition(&s, Cmd::Break, 900);
    assert_eq!(o1, Outcome::Paused { session: 40 });
    assert_eq!(message(&o1), "Paused. Current session time: 40 seconds");
    assert_eq!(
        s1,
        TimerData { total_spent: 0, current_start: None, paused_elapsed: 40 }
    );
}

#[test]
fn stop_saturates_when_clock_runs_backwards() {
    let s = TimerData { total_spent: 5, current_start: Some(1000), paused_elapsed: 8 };
    let (s1, o1) = transition(&s, Cmd::Stop, 900);
    assert_eq!(o1, Outcome::Stopped { session: 8 });
    assert_eq!(
        s1,
        TimerData { total_spent: 13, current_start: None, paused_elapsed: 0 }
    );
}

#[test]
fn break_then_back_at_same_instant_keeps_banked_time() {
    let s = TimerData { total_spent: 0, current_start: Some(1000), paused_elapsed: 25 };
    let (s1, _) = transition(&s, Cmd::Break, 1010);
    assert_eq!(s1.paused_elapsed, 35);
    let (s2, o2) = transition(&s1, Cmd::Back, 1010);
    assert_eq!(o2, Outcome::Resumed);
    assert_eq!(s2.paused_elapsed, 35);
    assert_eq!(s2.current_start, Some(1010));
    assert_eq!(s2.total_spent, 0);
}
