use worklog_sync::errors::{StateIssue, SyncError};
use worklog_sync::ledger::{Ledger, SyncStatus, WorklogFilter};
use worklog_sync::settings::{config_from_settings, masked_token};

fn now() -> String {
    String::from("2024-03-01T20:00:00+00:00")
}

#[test]
fn create_and_get() {
    let mut l = Ledger::new();
    let id = l.create_worklog(
        String::from("OPS-12"),
        String::from("2024-03-01T09:00:00-05:00"),
        1500,
        String::from("fixing"),
        now(),
    );
    assert_eq!(id, 1);
    let w = l.get(id).unwrap();
    assert_eq!(w.issue_key.as_str(), "OPS-12");
    assert_eq!(w.duration_seconds, 1500);
    assert!(matches!(w.sync_status, SyncStatus::Pending));
    assert!(w.jira_worklog_id.is_none());
    assert!(l.get(99).is_none());
}

#[test]
fn local_edit_clears_error_state() {
    let mut l = Ledger::new();
    let id = l.create_worklog(
        String::from("OPS-1"),
        String::from("2024-03-01T09:00:00+00:00"),
        60,
        String::new(),
        now(),
    );
    l.mark_error(id, String::from("remote said no"), now()).unwrap();
    let w = l.get(id).unwrap();
    assert!(matches!(w.sync_status, SyncStatus::Error));
    assert_eq!(w.sync_error.as_deref(), Some("remote said no"));
    let updated = l
        .update_worklog(id, None, Some(120), None, None, now())
        .unwrap();
    assert!(matches!(updated.sync_status, SyncStatus::Pending));
    assert!(updated.sync_error.is_none());
    assert_eq!(updated.duration_seconds, 120);
}

#[test]
fn editing_synced_always_fails_and_mutates_nothing() {
    let mut l = Ledger::new();
    let id = l.create_worklog(
        String::from("OPS-1"),
        String::from("2024-03-01T09:00:00+00:00"),
        60,
        String::new(),
        now(),
    );
    l.mark_synced(id, String::from("10042"), now()).unwrap();
    let before_len = l.entries.len();
    let before = l.get(id).unwrap();
    let r = l.update_worklog(id, None, Some(999), None, None, now());
    assert_eq!(
        r.err(),
        Some(SyncError::InvalidState(StateIssue::CannotEditSynced))
    );
    let r2 = l.delete_worklog(id);
    assert_eq!(
        r2,
        Err(SyncError::InvalidState(StateIssue::CannotDeleteSynced))
    );
    assert_eq!(l.entries.len(), before_len);
    let after = l.get(id).unwrap();
    assert_eq!(after.duration_seconds, before.duration_seconds);
    assert_eq!(after.updated_at, before.updated_at);
    assert!(matches!(after.sync_status, SyncStatus::Synced));
}

#[test]
fn delete_pending_entry() {
    let mut l = Ledger::new();
    let id = l.create_worklog(
        String::from("OPS-1"),
        String::from("2024-03-01T09:00:00+00:00"),
        60,
        String::new(),
        now(),
    );
    assert_eq!(l.delete_worklog(99), Err(SyncError::NotFound));
    assert!(l.delete_worklog(id).is_ok());
    assert_eq!(l.entries.len(), 0);
}

#[test]
fn repeated_remote_insert_is_single_row() {
    let mut l = Ledger::new();
    let first = l.insert_synced_or_ignore(
        String::from("OPS-9"),
        String::from("2024-03-01T10:00:00+00:00"),
        600,
        String::new(),
        String::from("7001"),
        String::from("m1"),
        now(),
    );
    let second = l.insert_synced_or_ignore(
        String::from("OPS-9"),
        String::from("2024-03-01T10:00:00+00:00"),
        600,
        String::new(),
        String::from("7001"),
        String::from("m1"),
        now(),
    );
    assert!(first);
    assert!(!second);
    assert_eq!(l.entries.len(), 1);
    assert!(matches!(l.entries[0].sync_status, SyncStatus::Synced));
}

#[test]
fn listing_filters_and_orders_newest_first() {
    let mut l = Ledger::new();
    let now_s = now();
    l.create_worklog(
        String::from("OPS-1"),
        String::from("2024-03-01T09:00:00+00:00"),
        60,
        String::new(),
        now_s.clone(),
    );
    l.create_worklog(
        String::from("OPS-2"),
        String::from("2024-03-02T09:00:00+00:00"),
        60,
        String::new(),
        now_s.clone(),
    );
    let id3 = l.create_worklog(
        String::from("OPS-1"),
        String::from("2024-03-03T09:00:00+00:00"),
        60,
        String::new(),
        now_s.clone(),
    );
    l.mark_synced(id3, String::from("9009"), now_s.clone()).unwrap();
    let all = l.get_worklogs(&None);
    assert_eq!(all.len(), 3);
    assert_eq!(all[0].started_at.as_str(), "2024-03-03T09:00:00+00:00");
    assert_eq!(all[2].started_at.as_str(), "2024-03-01T09:00:00+00:00");
    let filter = Some(WorklogFilter {
        issue_key: Some(String::from("OPS-1")),
        sync_status: Some(String::from("pending")),
        date_from: None,
        date_to: None,
    });
    let picked = l.get_worklogs(&filter);
    assert_eq!(picked.len(), 1);
    assert_eq!(picked[0].started_at.as_str(), "2024-03-01T09:00:00+00:00");
    let wild = Some(WorklogFilter {
        issue_key: None,
        sync_status: Some(String::from("all")),
        date_from: Some(String::from("2024-03-02")),
        date_to: Some(String::from("2024-03-03")),
    });
    let ranged = l.get_worklogs(&wild);
    assert_eq!(ranged.len(), 1);
    assert_eq!(ranged[0].issue_key.as_str(), "OPS-2");
}

#[test]
fn error_messages() {
    assert_eq!(SyncError::NotFound.message().as_str(), "Worklog not found");
    assert_eq!(
        SyncError::InvalidState(StateIssue::CannotEditSynced).message().as_str(),
        "Cannot edit a synced worklog"
    );
    assert_eq!(
        SyncError::InvalidState(StateIssue::NoActiveTimer).message().as_str(),
        "No active timer"
    );
    assert_eq!(
        SyncError::InvalidState(StateIssue::AlreadyPaused).message().as_str(),
        "Timer is already paused"
    );
    assert_eq!(
        SyncError::InvalidState(StateIssue::NotPaused).message().as_str(),
        "Timer is not paused"
    );
    assert_eq!(
        SyncError::InvalidState(StateIssue::AlreadySynced).message().as_str(),
        "Worklog already synced"
    );
    assert_eq!(
        SyncError::InvalidState(StateIssue::NotSynced).message().as_str(),
        "Worklog is not synced to Jira"
    );
    assert_eq!(
        SyncError::InvalidState(StateIssue::NoRemoteId).message().as_str(),
        "Worklog has no Jira worklog ID"
    );
}

#[test]
fn duplicate_remote_id_on_push_is_rejected() {
    let mut l = Ledger::new();
    let a = l.create_worklog(
        String::from("OPS-1"),
        String::from("2024-03-01T09:00:00+00:00"),
        60,
        String::new(),
        now(),
    );
    let b = l.create_worklog(
        String::from("OPS-2"),
        String::from("2024-03-01T10:00:00+00:00"),
        60,
        String::new(),
        now(),
    );
    l.mark_synced(a, String::from("7001"), now()).unwrap();
    let r = l.mark_synced(b, String::from("7001"), now());
    assert_eq!(
        r,
        Err(SyncError::InvalidState(StateIssue::DuplicateRemoteId))
    );
    let wb = l.get(b).unwrap();
    assert!(matches!(wb.sync_status, SyncStatus::Pending));
}

#[test]
fn remote_overwrite_needs_a_known_remote_id() {
    let mut l = Ledger::new();
    let touched = l.update_from_remote(
        "7001",
        String::from("2024-03-01T10:00:00+00:00"),
        600,
        String::new(),
        String::from("m1"),
        now(),
    );
    assert!(!touched);
    assert_eq!(l.entries.len(), 0);
}

#[test]
fn connection_settings_are_complete_or_absent() {
    let c = config_from_settings(
        Some(String::from("https://x.example")),
        Some(String::from("a@x.example")),
        Some(String::from("tok")),
    )
    .unwrap();
    assert_eq!(c.base_url.as_str(), "https://x.example");
    assert!(config_from_settings(Some(String::from("u")), None, Some(String::from("t"))).is_none());
    assert_eq!(masked_token().as_str(), "***");
}
