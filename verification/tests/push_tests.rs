use worklog_sync::dates::Date;
use worklog_sync::errors::{StateIssue, SyncError};
use worklog_sync::ledger::{Ledger, SyncStatus};
use worklog_sync::push::{
    apply_push_outcome, commit_remote_delete, commit_remote_update, current_request, finish_batch,
    prepare_push, prepare_remote_delete, prepare_remote_update, record_batch_outcome,
    start_push_batch,
};

fn now() -> String {
    String::from("2024-03-01T20:00:00+00:00")
}

fn pending(l: &mut Ledger, key: &str, started: &str, secs: i64) -> i64 {
    l.create_worklog(
        String::from(key),
        String::from(started),
        secs,
        String::from("notes"),
        now(),
    )
}

#[test]
fn push_success_transitions_to_synced() {
    let mut l = Ledger::new();
    let id = pending(&mut l, "OPS-12", "2024-03-01T09:00:00-05:00", 1500);
    let req = prepare_push(&l, id).unwrap();
    assert_eq!(req.issue_key.as_str(), "OPS-12");
    assert_eq!(req.duration_seconds, 1500);
    assert_eq!(req.started_wire.as_str(), "2024-03-01T09:00:00.000-0500");
    apply_push_outcome(&mut l, id, Ok(String::from("10042")), now()).unwrap();
    let w = l.get(id).unwrap();
    assert!(matches!(w.sync_status, SyncStatus::Synced));
    assert_eq!(w.jira_worklog_id.as_deref(), Some("10042"));
    assert!(w.sync_error.is_none());
    assert_eq!(w.started_at.as_str(), "2024-03-01T09:00:00-05:00");
    assert_eq!(w.duration_seconds, 1500);
}

#[test]
fn push_failure_records_error_and_changes_nothing_else() {
    let mut l = Ledger::new();
    let id = pending(&mut l, "OPS-12", "2024-03-01T09:00:00-05:00", 1500);
    let r = apply_push_outcome(&mut l, id, Err(String::from("401 unauthorized")), now());
    assert_eq!(r.err().as_deref(), Some("401 unauthorized"));
    let w = l.get(id).unwrap();
    assert!(matches!(w.sync_status, SyncStatus::Error));
    assert_eq!(w.sync_error.as_deref(), Some("401 unauthorized"));
    assert!(w.jira_worklog_id.is_none());
    assert_eq!(w.duration_seconds, 1500);
}

#[test]
fn prepare_push_guards() {
    let mut l = Ledger::new();
    assert_eq!(prepare_push(&l, 5).err(), Some(SyncError::NotFound));
    let id = pending(&mut l, "OPS-12", "not a timestamp", 60);
    assert_eq!(prepare_push(&l, id).err(), Some(SyncError::InvalidTimestamp));
    let id2 = pending(&mut l, "OPS-13", "2024-03-01T09:00:00+00:00", 60);
    l.mark_synced(id2, String::from("1"), now()).unwrap();
    assert_eq!(
        prepare_push(&l, id2).err(),
        Some(SyncError::InvalidState(StateIssue::AlreadySynced))
    );
}

#[test]
fn batch_of_three_with_one_failure() {
    let mut l = Ledger::new();
    pending(&mut l, "OPS-1", "2024-03-01T08:00:00+00:00", 60);
    pending(&mut l, "KEY-9", "2024-03-01T10:00:00+00:00", 120);
    pending(&mut l, "OPS-2", "2024-03-01T12:00:00+00:00", 180);
    // outside the day: not part of the batch
    pending(&mut l, "OPS-3", "2024-03-02T08:00:00+00:00", 60);
    let date = Date { year: 2024, month: 3, day: 1 };
    let mut batch = start_push_batch(&l, &date);
    let mut outcomes = vec![
        Ok(String::from("9001")),
        Err(String::from("rate limited")),
        Ok(String::from("9002")),
    ];
    outcomes.reverse();
    let mut served = 0;
    while let Some(req) = current_request(&batch) {
        assert!(!req.issue_key.is_empty());
        let outcome = outcomes.pop().unwrap();
        record_batch_outcome(&mut batch, &mut l, outcome, now());
        served += 1;
    }
    assert_eq!(served, 3);
    let summary = finish_batch(batch);
    assert_eq!(summary.total, 3);
    assert_eq!(summary.success, 2);
    assert_eq!(summary.failed, 1);
    assert_eq!(summary.errors.len(), 1);
    assert_eq!(summary.errors[0].as_str(), "KEY-9: rate limited");
    // per-entry records as in a single push
    let failed = l
        .entries
        .iter()
        .find(|w| w.issue_key.as_str() == "KEY-9")
        .unwrap();
    assert!(matches!(failed.sync_status, SyncStatus::Error));
    assert_eq!(failed.sync_error.as_deref(), Some("rate limited"));
}

#[test]
fn unparseable_timestamp_fails_its_entry_but_not_the_batch() {
    let mut l = Ledger::new();
    pending(&mut l, "OPS-1", "2024-03-01T08:00:00+00:00", 60);
    pending(&mut l, "OPS-2", "2024-03-01T12:badtime", 60);
    let date = Date { year: 2024, month: 3, day: 1 };
    let mut batch = start_push_batch(&l, &date);
    let mut served = 0;
    while let Some(req) = current_request(&batch) {
        assert_eq!(req.issue_key.as_str(), "OPS-1");
        record_batch_outcome(&mut batch, &mut l, Ok(String::from("9001")), now());
        served += 1;
    }
    assert_eq!(served, 1);
    let summary = finish_batch(batch);
    assert_eq!(summary.total, 2);
    assert_eq!(summary.success, 1);
    assert_eq!(summary.failed, 1);
    assert_eq!(summary.errors.len(), 1);
    assert_eq!(summary.errors[0].as_str(), "OPS-2: Invalid timestamp");
    // the failed entry itself is untouched, as a single push's timestamp
    // failure leaves it
    let bad = l
        .entries
        .iter()
        .find(|w| w.issue_key.as_str() == "OPS-2")
        .unwrap();
    assert!(matches!(bad.sync_status, SyncStatus::Pending));
}

#[test]
fn remote_update_is_remote_first() {
    let mut l = Ledger::new();
    let id = pending(&mut l, "OPS-12", "2024-03-01T09:00:00-05:00", 1500);
    assert_eq!(
        prepare_remote_update(&l, id, Some(1800), None, None).err(),
        Some(SyncError::InvalidState(StateIssue::NotSynced))
    );
    l.mark_synced(id, String::from("10042"), now()).unwrap();
    let req = prepare_remote_update(
        &l,
        id,
        Some(1800),
        Some(String::from("new text")),
        None,
    )
    .unwrap();
    assert_eq!(req.remote_id.as_str(), "10042");
    assert_eq!(req.duration_seconds, 1800);
    assert_eq!(req.description.as_str(), "new text");
    assert_eq!(req.started_at.as_str(), "2024-03-01T09:00:00-05:00");
    // nothing changed locally before the commit
    assert_eq!(l.get(id).unwrap().duration_seconds, 1500);
    commit_remote_update(&mut l, &req, String::from("10042"), now()).unwrap();
    let w = l.get(id).unwrap();
    assert_eq!(w.duration_seconds, 1800);
    assert_eq!(w.description.as_str(), "new text");
    assert!(matches!(w.sync_status, SyncStatus::Synced));
}

#[test]
fn remote_delete_is_remote_first() {
    let mut l = Ledger::new();
    let id = pending(&mut l, "OPS-12", "2024-03-01T09:00:00-05:00", 1500);
    assert_eq!(
        prepare_remote_delete(&l, id).err(),
        Some(SyncError::InvalidState(StateIssue::NotSynced))
    );
    l.mark_synced(id, String::from("10042"), now()).unwrap();
    let req = prepare_remote_delete(&l, id).unwrap();
    assert_eq!(req.issue_key.as_str(), "OPS-12");
    assert_eq!(req.remote_id.as_str(), "10042");
    assert_eq!(l.entries.len(), 1);
    assert!(commit_remote_delete(&mut l, &req));
    assert_eq!(l.entries.len(), 0);
}

#[test]
fn remote_update_rejects_unrenderable_merged_start() {
    let mut l = Ledger::new();
    let id = pending(&mut l, "OPS-12", "2024-03-01T09:00:00-05:00", 1500);
    l.mark_synced(id, String::from("10042"), now()).unwrap();
    let r = prepare_remote_update(
        &l,
        id,
        None,
        None,
        Some(String::from("not a timestamp")),
    );
    assert_eq!(r.err(), Some(SyncError::InvalidTimestamp));
    // the stored start still renders, so omitting the override succeeds
    assert!(prepare_remote_update(&l, id, None, None, None).is_ok());
}
