use worklog_sync::adf::AdfNode;
use worklog_sync::client::{JiraWorklogAuthor, JiraWorklogEntry};
use worklog_sync::dates::Date;
use worklog_sync::errors::SyncError;
use worklog_sync::import::{annotate_fetch, build_import_query, finish_import, AnnotatedFetch};
use worklog_sync::ledger::{Ledger, SyncStatus};

fn now() -> String {
    String::from("2024-03-01T20:00:00+00:00")
}

const ME: &str = "acct-1";

fn remote(id: &str, started: &str, updated: &str, secs: i64, author: &str) -> JiraWorklogEntry {
    JiraWorklogEntry {
        id: String::from(id),
        started: String::from(started),
        updated: String::from(updated),
        time_spent_seconds: secs,
        comment: None,
        author: JiraWorklogAuthor { account_id: String::from(author) },
    }
}

fn target() -> Date {
    Date { year: 2024, month: 3, day: 1 }
}

// noon UTC keeps the local calendar date stable in any common timezone
const NOON: &str = "2024-03-01T12:00:00.000+0000";
const NOON2: &str = "2024-03-01T12:30:00.000+0000";

#[test]
fn import_twice_with_unchanged_remote_data() {
    let mut l = Ledger::new();
    let fetch = || -> Vec<AnnotatedFetch> {
        vec![annotate_fetch(
            String::from("OPS-1"),
            Ok(vec![
                remote("7001", NOON, "m1", 600, ME),
                remote("7002", NOON2, "m2", 1200, ME),
            ]),
            ME,
        )]
    };
    let first = finish_import(&mut l, target(), None, &fetch(), now().as_str());
    assert_eq!(first.imported, 2);
    assert_eq!(first.updated, 0);
    assert_eq!(first.deleted, 0);
    assert_eq!(first.skipped, 0);
    assert_eq!(first.issues_checked, 1);
    assert!(first.warnings.is_empty());
    assert_eq!(l.entries.len(), 2);
    let second = finish_import(&mut l, target(), None, &fetch(), now().as_str());
    assert_eq!(second.imported, 0);
    assert_eq!(second.updated, 0);
    assert_eq!(second.deleted, 0);
    assert_eq!(second.skipped, 2);
    assert_eq!(l.entries.len(), 2);
}

#[test]
fn remote_edit_overwrites_local_row() {
    let mut l = Ledger::new();
    let af = annotate_fetch(
        String::from("OPS-1"),
        Ok(vec![remote("7001", NOON, "m1", 600, ME)]),
        ME,
    );
    finish_import(&mut l, target(), None, &vec![af], now().as_str());
    assert_eq!(l.entries[0].duration_seconds, 600);
    let af2 = annotate_fetch(
        String::from("OPS-1"),
        Ok(vec![remote("7001", NOON, "m2", 900, ME)]),
        ME,
    );
    let run = finish_import(&mut l, target(), None, &vec![af2], now().as_str());
    assert_eq!(run.imported, 0);
    assert_eq!(run.updated, 1);
    assert_eq!(run.skipped, 0);
    assert_eq!(l.entries.len(), 1);
    assert_eq!(l.entries[0].duration_seconds, 900);
    assert_eq!(l.entries[0].jira_updated_at.as_deref(), Some("m2"));
}

#[test]
fn other_accounts_worklogs_are_ignored() {
    let mut l = Ledger::new();
    let af = annotate_fetch(
        String::from("OPS-1"),
        Ok(vec![
            remote("7001", NOON, "m1", 600, ME),
            remote("7002", NOON2, "m1", 600, "someone-else"),
        ]),
        ME,
    );
    let run = finish_import(&mut l, target(), None, &vec![af], now().as_str());
    assert_eq!(run.imported, 1);
    assert_eq!(l.entries.len(), 1);
}

#[test]
fn vanished_remote_worklog_is_deleted_locally() {
    let mut l = Ledger::new();
    let af = annotate_fetch(
        String::from("OPS-1"),
        Ok(vec![remote("7001", NOON, "m1", 600, ME)]),
        ME,
    );
    finish_import(&mut l, target(), None, &vec![af], now().as_str());
    assert_eq!(l.entries.len(), 1);
    let af_empty = annotate_fetch(String::from("OPS-1"), Ok(vec![]), ME);
    let run = finish_import(&mut l, target(), None, &vec![af_empty], now().as_str());
    assert_eq!(run.deleted, 1);
    assert_eq!(l.entries.len(), 0);
}

#[test]
fn failed_fetch_protects_its_issues_rows() {
    let mut l = Ledger::new();
    let af = annotate_fetch(
        String::from("OPS-1"),
        Ok(vec![remote("7001", NOON, "m1", 600, ME)]),
        ME,
    );
    finish_import(&mut l, target(), None, &vec![af], now().as_str());
    assert_eq!(l.entries.len(), 1);
    let failing = annotate_fetch(
        String::from("OPS-1"),
        Err(String::from("socket closed")),
        ME,
    );
    let run = finish_import(&mut l, target(), None, &vec![failing], now().as_str());
    assert_eq!(run.deleted, 0);
    assert_eq!(l.entries.len(), 1);
    assert_eq!(run.warnings.len(), 1);
    assert_eq!(
        run.warnings[0].as_str(),
        "Failed to fetch worklogs for OPS-1: socket closed"
    );
}

#[test]
fn failed_search_disables_deletion_entirely() {
    let mut l = Ledger::new();
    let af = annotate_fetch(
        String::from("OPS-1"),
        Ok(vec![remote("7001", NOON, "m1", 600, ME)]),
        ME,
    );
    finish_import(&mut l, target(), None, &vec![af], now().as_str());
    // remote now shows nothing, but the search failed: nothing may be deleted
    let af_empty = annotate_fetch(String::from("OPS-1"), Ok(vec![]), ME);
    let run = finish_import(
        &mut l,
        target(),
        Some(String::from("http 500")),
        &vec![af_empty],
        now().as_str(),
    );
    assert_eq!(run.deleted, 0);
    assert_eq!(l.entries.len(), 1);
    assert_eq!(run.warnings[0].as_str(), "JQL search failed: http 500");
}

#[test]
fn worklogs_off_the_target_date_are_passed_over() {
    let mut l = Ledger::new();
    let af = annotate_fetch(
        String::from("OPS-1"),
        Ok(vec![remote("7001", "2024-03-02T12:00:00.000+0000", "m1", 600, ME)]),
        ME,
    );
    let run = finish_import(&mut l, target(), None, &vec![af], now().as_str());
    assert_eq!(run.imported, 0);
    assert_eq!(run.skipped, 0);
    assert_eq!(l.entries.len(), 0);
}

#[test]
fn query_building() {
    let q = build_import_query("2024-03-01").unwrap();
    assert_eq!((q.target.year, q.target.month, q.target.day), (2024, 3, 1));
    assert_eq!(
        (q.day_before.year, q.day_before.month, q.day_before.day),
        (2024, 2, 29)
    );
    assert_eq!(
        (q.day_after.year, q.day_after.month, q.day_after.day),
        (2024, 3, 2)
    );
    assert_eq!(
        q.jql.as_str(),
        "worklogDate >= \"2024-02-29\" AND worklogDate <= \"2024-03-02\" AND worklogAuthor = currentUser()"
    );
    assert_eq!(q.started_after_ms, 1709164800000);
    assert_eq!(build_import_query("yesterday").err(), Some(SyncError::InvalidDate));
    assert_eq!(build_import_query("2024-02-30").err(), Some(SyncError::InvalidDate));
}

#[test]
fn annotate_extracts_descriptions() {
    let mut e = remote("7001", NOON, "m1", 600, ME);
    e.comment = Some(AdfNode::Branch {
        kind: String::from("doc"),
        children: vec![AdfNode::Branch {
            kind: String::from("paragraph"),
            children: vec![AdfNode::Text(String::from("did the work"))],
        }],
    });
    let af = annotate_fetch(String::from("OPS-1"), Ok(vec![e]), ME);
    let mut l = Ledger::new();
    finish_import(&mut l, target(), None, &vec![af], now().as_str());
    assert_eq!(l.entries[0].description.as_str(), "did the work");
    assert!(matches!(l.entries[0].sync_status, SyncStatus::Synced));
    assert_eq!(l.entries[0].jira_worklog_id.as_deref(), Some("7001"));
}

#[test]
fn marker_match_leaves_the_row_untouched() {
    let mut l = Ledger::new();
    let af = annotate_fetch(
        String::from("OPS-1"),
        Ok(vec![remote("7001", NOON, "m1", 600, ME)]),
        ME,
    );
    finish_import(&mut l, target(), None, &vec![af], now().as_str());
    let before_started = l.entries[0].started_at.clone();
    let before_updated = l.entries[0].updated_at.clone();
    let af2 = annotate_fetch(
        String::from("OPS-1"),
        Ok(vec![remote("7001", NOON, "m1", 600, ME)]),
        ME,
    );
    let run = finish_import(
        &mut l,
        target(),
        None,
        &vec![af2],
        "2024-03-02T08:00:00+00:00",
    );
    assert_eq!(run.skipped, 1);
    assert_eq!(l.entries[0].started_at, before_started);
    assert_eq!(l.entries[0].updated_at, before_updated);
}
