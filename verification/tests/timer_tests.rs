use worklog_sync::errors::{StateIssue, SyncError};
use worklog_sync::ledger::{Ledger, SyncStatus};
use worklog_sync::timefmt::parse_rfc3339_ms;
use worklog_sync::timer::{
    final_total, timer_get_state, timer_pause, timer_resume, timer_start, timer_stop,
    timer_update_description, TimerState,
};

const T0: i64 = 1709301600000; // 2024-03-01T14:00:00Z

#[test]
fn round_rule_totals() {
    assert_eq!(final_total(0, 0), 0);
    assert_eq!(final_total(0, 1), 60);
    assert_eq!(final_total(0, 60), 60);
    assert_eq!(final_total(0, 61), 120);
    assert_eq!(final_total(0, 125), 180);
    assert_eq!(final_total(-30, 10), 0);
}

#[test]
fn stop_rounds_elapsed_up_to_a_minute() {
    let mut timer: Option<TimerState> = None;
    let mut ledger = Ledger::new();
    timer_start(&mut timer, &mut ledger, String::from("OPS-12"), T0).unwrap();
    let sw = timer_stop(&mut timer, &mut ledger, T0 + 30_000).unwrap();
    assert_eq!(sw.duration_seconds, 60);
    assert_eq!(sw.issue_key.as_str(), "OPS-12");
    assert!(timer.is_none());
    let w = ledger.get(sw.id).unwrap();
    assert!(matches!(w.sync_status, SyncStatus::Pending));
    assert_eq!(w.duration_seconds, 60);
    // the recorded interval ends at the stop instant
    let (start_ms, _) = parse_rfc3339_ms(w.started_at.as_str()).unwrap();
    assert_eq!(start_ms, T0 + 30_000 - 60_000);
}

#[test]
fn stop_of_zero_elapsed_is_zero() {
    let mut timer: Option<TimerState> = None;
    let mut ledger = Ledger::new();
    timer_start(&mut timer, &mut ledger, String::from("OPS-12"), T0).unwrap();
    let sw = timer_stop(&mut timer, &mut ledger, T0).unwrap();
    assert_eq!(sw.duration_seconds, 0);
}

#[test]
fn stop_of_125_seconds_is_three_minutes() {
    let mut timer: Option<TimerState> = None;
    let mut ledger = Ledger::new();
    timer_start(&mut timer, &mut ledger, String::from("OPS-12"), T0).unwrap();
    let sw = timer_stop(&mut timer, &mut ledger, T0 + 125_000).unwrap();
    assert_eq!(sw.duration_seconds, 180);
}

#[test]
fn pause_resume_conserves_banked_time() {
    let mut timer: Option<TimerState> = None;
    let mut ledger = Ledger::new();
    timer_start(&mut timer, &mut ledger, String::from("OPS-12"), T0).unwrap();
    let paused = timer_pause(&mut timer, T0 + 30_000).unwrap();
    assert_eq!(paused.accumulated_secs, 30);
    assert!(paused.is_paused);
    // a long paused gap changes nothing
    let resumed = timer_resume(&mut timer, T0 + 7_200_000).unwrap();
    assert_eq!(resumed.accumulated_secs, 30);
    assert!(!resumed.is_paused);
    let sw = timer_stop(&mut timer, &mut ledger, T0 + 7_200_000 + 20_000).unwrap();
    assert_eq!(sw.duration_seconds, 60); // 50 banked seconds round to one minute
}

#[test]
fn stop_while_paused_uses_the_bank_alone() {
    let mut timer: Option<TimerState> = None;
    let mut ledger = Ledger::new();
    timer_start(&mut timer, &mut ledger, String::from("OPS-12"), T0).unwrap();
    timer_pause(&mut timer, T0 + 90_000).unwrap();
    let sw = timer_stop(&mut timer, &mut ledger, T0 + 500_000).unwrap();
    assert_eq!(sw.duration_seconds, 120);
}

#[test]
fn starting_over_a_running_timer_finalizes_exactly_one_entry() {
    let mut timer: Option<TimerState> = None;
    let mut ledger = Ledger::new();
    timer_start(&mut timer, &mut ledger, String::from("OPS-1"), T0).unwrap();
    timer_update_description(&mut timer, String::from("old work")).unwrap();
    let fresh = timer_start(&mut timer, &mut ledger, String::from("OPS-2"), T0 + 45_000).unwrap();
    assert_eq!(ledger.entries.len(), 1);
    let old_entry = &ledger.entries[0];
    assert_eq!(old_entry.issue_key.as_str(), "OPS-1");
    assert_eq!(old_entry.duration_seconds, 60);
    assert_eq!(old_entry.description.as_str(), "old work");
    assert!(matches!(old_entry.sync_status, SyncStatus::Pending));
    assert_eq!(fresh.issue_key.as_str(), "OPS-2");
    assert_eq!(fresh.accumulated_secs, 0);
    assert!(!fresh.is_paused);
    assert_eq!(fresh.description.as_str(), "");
    // the new timer is the only one
    let state = timer_get_state(&timer).unwrap();
    assert_eq!(state.issue_key.as_str(), "OPS-2");
}

#[test]
fn timer_state_errors() {
    let mut timer: Option<TimerState> = None;
    let mut ledger = Ledger::new();
    assert_eq!(
        timer_pause(&mut timer, T0).err(),
        Some(SyncError::InvalidState(StateIssue::NoActiveTimer))
    );
    assert_eq!(
        timer_resume(&mut timer, T0).err(),
        Some(SyncError::InvalidState(StateIssue::NoActiveTimer))
    );
    assert_eq!(
        timer_stop(&mut timer, &mut ledger, T0).err(),
        Some(SyncError::InvalidState(StateIssue::NoActiveTimer))
    );
    assert_eq!(
        timer_update_description(&mut timer, String::new()),
        Err(SyncError::InvalidState(StateIssue::NoActiveTimer))
    );
    timer_start(&mut timer, &mut ledger, String::from("OPS-1"), T0).unwrap();
    assert_eq!(
        timer_resume(&mut timer, T0).err(),
        Some(SyncError::InvalidState(StateIssue::NotPaused))
    );
    timer_pause(&mut timer, T0 + 1000).unwrap();
    assert_eq!(
        timer_pause(&mut timer, T0 + 2000).err(),
        Some(SyncError::InvalidState(StateIssue::AlreadyPaused))
    );
}
