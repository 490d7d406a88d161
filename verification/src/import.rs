//! The import/reconciliation engine: make the ledger's remote-owned rows
//! for one calendar date mirror the remote system's worklogs for that
//! date.
//!
//! The remote search uses the remote account's timezone, so the query is
//! padded by one day on each side; the precise filter compares each
//! worklog's machine-local calendar date with the target. Per-issue fetch
//! failures mark the issue's worklogs as unknown — never as absent — and
//! a failed search disables deletion detection for the whole run: stale
//! data is preferred over destructive loss.

use vstd::prelude::*;
use crate::client::JiraWorklogEntry;
use crate::dates::{date_prefix_of, date_str_of, date_to_string, next_day, prev_day, Date};
use crate::dates::{epoch_day_of, epoch_millis_utc_midnight, date_of_str, parse_date};
use crate::errors::SyncError;
use crate::ledger::{contains_id, contains_remote_id, has_remote_id, Ledger, SyncStatus, Worklog};
use crate::strutil::{seq_contains_str, str_eq, views_of};
use crate::timefmt::{local_civil_date, local_rfc3339, parse_wire_ms, wire_instant_of, MAX_CLOCK_MS};

verus! {

/// What an import run reports.
#[derive(Debug)]
pub struct ImportSummary {
    pub imported: u32,
    pub updated: u32,
    pub deleted: u32,
    pub skipped: u32,
    pub issues_checked: u32,
    pub warnings: Vec<String>,
}

/// A remote worklog of the current account, annotated for reconciliation:
/// its start instant re-rendered in machine-local RFC 3339 form, and its
/// machine-local calendar date.
#[derive(Debug)]
pub struct AnnotatedRemote {
    pub remote_id: String,
    pub started_local: String,
    pub local_date: Date,
    pub duration_seconds: i64,
    pub description: String,
    pub marker: String,
}

/// One issue's fetch outcome: its annotated worklogs, or the failure
/// message. A failure means the issue's worklogs are unknown, not absent.
#[derive(Debug)]
pub struct AnnotatedFetch {
    pub issue_key: String,
    pub outcome: Result<Vec<AnnotatedRemote>, String>,
}

/// The remote change markers the ledger holds, keyed by remote worklog id.
pub open spec fn marker_map_of(s: Seq<Worklog>) -> Map<Seq<char>, Option<Seq<char>>>
    decreases s.len(),
{
    if s.len() == 0 {
        Map::empty()
    } else {
        let m = marker_map_of(s.drop_last());
        let w = s.last();
        match w.jira_worklog_id {
            Some(rid) => m.insert(rid@, marker_view(w.jira_updated_at)),
            None => m,
        }
    }
}

/// The view of an optional marker string.
pub open spec fn marker_view(o: Option<String>) -> Option<Seq<char>> {
    match o {
        Some(s) => Some(s@),
        None => None,
    }
}

/// A remote id is in the marker map exactly when some entry carries it,
/// and the map then holds that entry's marker.
proof fn lemma_marker_map_lookup(s: Seq<Worklog>, rid: Seq<char>)
    requires
        crate::ledger::unique_remote_ids(s),
    ensures
        marker_map_of(s).dom().contains(rid) <==> contains_remote_id(s, rid),
        contains_remote_id(s, rid) ==> marker_map_of(s)[rid] == marker_view(
            s[crate::ledger::remote_index_of(s, rid)].jira_updated_at,
        ),
    decreases s.len(),
{
    if s.len() == 0 {
    } else {
        let pre = s.drop_last();
        let w = s.last();
        assert(crate::ledger::unique_remote_ids(pre)) by {
            assert forall|i: int, j: int|
                0 <= i < j < pre.len() && pre[i].jira_worklog_id is Some && pre[j].jira_worklog_id
                    is Some implies (#[trigger] pre[i].jira_worklog_id)->0@ != (
            #[trigger] pre[j].jira_worklog_id)->0@ by {
                assert(pre[i] == s[i] && pre[j] == s[j]);
            }
        }
        lemma_marker_map_lookup(pre, rid);
        match w.jira_worklog_id {
            Some(wrid) => {
                if wrid@ == rid {
                    assert(has_remote_id(s[s.len() - 1], rid));
                    crate::ledger::lemma_remote_index_is(s, s.len() - 1, rid);
                } else {
                    if contains_remote_id(pre, rid) {
                        let i = crate::ledger::remote_index_of(pre, rid);
                        assert(has_remote_id(pre[i], rid));
                        assert(pre[i] == s[i]);
                        crate::ledger::lemma_remote_index_is(s, i, rid);
                    } else {
                        if contains_remote_id(s, rid) {
                            let i = choose|i: int|
                                0 <= i < s.len() && has_remote_id(#[trigger] s[i], rid);
                            assert(i < s.len() - 1 ==> has_remote_id(pre[i], rid));
                        }
                    }
                }
            },
            None => {
                if contains_remote_id(s, rid) {
                    let i = choose|i: int| 0 <= i < s.len() && has_remote_id(#[trigger] s[i], rid);
                    assert(i != s.len() - 1);
                    assert(has_remote_id(pre[i], rid));
                    let j = crate::ledger::remote_index_of(pre, rid);
                    assert(has_remote_id(pre[j], rid));
                    assert(pre[j] == s[j]);
                    crate::ledger::lemma_remote_index_is(s, j, rid);
                }
            },
        }
    }
}

/// Replacing one entry by another with the same remote id rewrites only
/// that id's marker in the marker map.
proof fn lemma_marker_map_update(s: Seq<Worklog>, i: int, w: Worklog)
    requires
        crate::ledger::unique_remote_ids(s),
        0 <= i < s.len(),
        s[i].jira_worklog_id is Some,
        w.jira_worklog_id == s[i].jira_worklog_id,
    ensures
        marker_map_of(s.update(i, w)) == marker_map_of(s).insert(
            s[i].jira_worklog_id->0@,
            marker_view(w.jira_updated_at),
        ),
    decreases s.len(),
{
    let rid = s[i].jira_worklog_id->0@;
    let t = s.update(i, w);
    let pre = s.drop_last();
    assert(crate::ledger::unique_remote_ids(pre)) by {
        assert forall|a: int, b: int|
            0 <= a < b < pre.len() && pre[a].jira_worklog_id is Some && pre[b].jira_worklog_id
                is Some implies (#[trigger] pre[a].jira_worklog_id)->0@ != (
        #[trigger] pre[b].jira_worklog_id)->0@ by {
            assert(pre[a] == s[a] && pre[b] == s[b]);
        }
    }
    if i == s.len() - 1 {
        assert(t.drop_last() =~= pre);
        assert(t.last() == w);
        assert(marker_map_of(t) == marker_map_of(pre).insert(rid, marker_view(w.jira_updated_at)));
        assert(marker_map_of(s) == marker_map_of(pre).insert(
            rid,
            marker_view(s[i].jira_updated_at),
        ));
        assert(marker_map_of(pre).insert(rid, marker_view(s[i].jira_updated_at)).insert(
            rid,
            marker_view(w.jira_updated_at),
        ) =~= marker_map_of(pre).insert(rid, marker_view(w.jira_updated_at)));
    } else {
        lemma_marker_map_update(pre, i, w);
        assert(t.drop_last() =~= pre.update(i, w));
        assert(t.last() == s.last());
        match s.last().jira_worklog_id {
            Some(lrid) => {
                assert(lrid@ != rid) by {
                    assert(s[i].jira_worklog_id is Some);
                    assert(s[s.len() - 1].jira_worklog_id is Some);
                }
                assert(marker_map_of(t) == marker_map_of(pre).insert(
                    rid,
                    marker_view(w.jira_updated_at),
                ).insert(lrid@, marker_view(s.last().jira_updated_at)));
                assert(marker_map_of(s) == marker_map_of(pre).insert(
                    lrid@,
                    marker_view(s.last().jira_updated_at),
                ));
                assert(marker_map_of(pre).insert(rid, marker_view(w.jira_updated_at)).insert(
                    lrid@,
                    marker_view(s.last().jira_updated_at),
                ) =~= marker_map_of(pre).insert(
                    lrid@,
                    marker_view(s.last().jira_updated_at),
                ).insert(rid, marker_view(w.jira_updated_at)));
            },
            None => {
                assert(marker_map_of(t) == marker_map_of(pre).insert(
                    rid,
                    marker_view(w.jira_updated_at),
                ));
                assert(marker_map_of(s) == marker_map_of(pre));
            },
        }
    }
}

/// Appending an entry with a remote id inserts that id's marker into the
/// marker map.
proof fn lemma_marker_map_push(s: Seq<Worklog>, w: Worklog)
    requires
        w.jira_worklog_id is Some,
    ensures
        marker_map_of(s.push(w)) == marker_map_of(s).insert(
            w.jira_worklog_id->0@,
            marker_view(w.jira_updated_at),
        ),
{
    assert(s.push(w).drop_last() =~= s);
    assert(s.push(w).last() == w);
}

/// One reconciliation step over the marker map: a worklog off the target
/// date is passed over silently; an unknown remote id is imported; a
/// known id with a changed marker is updated; a known id with the same
/// marker is skipped. The result is the map after the whole sequence and
/// the three counts.
pub open spec fn apply_remote_seq(
    m: Map<Seq<char>, Option<Seq<char>>>,
    items: Seq<AnnotatedRemote>,
    target: Date,
) -> (Map<Seq<char>, Option<Seq<char>>>, int, int, int)
    decreases items.len(),
{
    if items.len() == 0 {
        (m, 0int, 0int, 0int)
    } else {
        let a = items[0];
        let rest = items.drop_first();
        if a.local_date != target {
            apply_remote_seq(m, rest, target)
        } else if !m.dom().contains(a.remote_id@) {
            let r = apply_remote_seq(m.insert(a.remote_id@, Some(a.marker@)), rest, target);
            (r.0, r.1 + 1, r.2, r.3)
        } else if m[a.remote_id@] != Some(a.marker@) {
            let r = apply_remote_seq(m.insert(a.remote_id@, Some(a.marker@)), rest, target);
            (r.0, r.1, r.2 + 1, r.3)
        } else {
            let r = apply_remote_seq(m, rest, target);
            (r.0, r.1, r.2, r.3 + 1)
        }
    }
}

/// The annotated worklogs of all successful fetches, in fetch order.
pub open spec fn annotated_of(fetches: Seq<AnnotatedFetch>) -> Seq<AnnotatedRemote>
    decreases fetches.len(),
{
    if fetches.len() == 0 {
        Seq::empty()
    } else {
        (match fetches[0].outcome {
            Ok(v) => v@,
            Err(_) => Seq::<AnnotatedRemote>::empty(),
        }) + annotated_of(fetches.drop_first())
    }
}

/// The issue keys whose fetches failed, in fetch order.
pub open spec fn failed_keys_of(fetches: Seq<AnnotatedFetch>) -> Seq<Seq<char>>
    decreases fetches.len(),
{
    if fetches.len() == 0 {
        Seq::empty()
    } else {
        failed_keys_of(fetches.drop_last()) + (match fetches.last().outcome {
            Ok(_) => Seq::<Seq<char>>::empty(),
            Err(_) => seq![fetches.last().issue_key@],
        })
    }
}

/// The warning lines of the failed fetches, in fetch order.
pub open spec fn warning_texts_of(fetches: Seq<AnnotatedFetch>) -> Seq<Seq<char>>
    decreases fetches.len(),
{
    if fetches.len() == 0 {
        Seq::empty()
    } else {
        warning_texts_of(fetches.drop_last()) + (match fetches.last().outcome {
            Ok(_) => Seq::<Seq<char>>::empty(),
            Err(m) => seq![
                "Failed to fetch worklogs for "@ + fetches.last().issue_key@ + ": "@ + m@,
            ],
        })
    }
}

/// Every annotated duration of every successful fetch is nonnegative.
pub open spec fn items_durations_ok(v: Seq<AnnotatedRemote>) -> bool {
    forall|j: int| 0 <= j < v.len() ==> (#[trigger] v[j]).duration_seconds >= 0
}

/// Every fetch's annotated worklogs carry nonnegative durations.
pub open spec fn fetches_ok(fetches: Seq<AnnotatedFetch>) -> bool {
    forall|i: int|
        0 <= i < fetches.len() ==> match (#[trigger] fetches[i]).outcome {
            Ok(v) => items_durations_ok(v@),
            Err(_) => true,
        }
}

/// The remote ids of the worklogs on the target date, in order.
pub open spec fn relevant_ids_of(items: Seq<AnnotatedRemote>, target: Date) -> Seq<Seq<char>>
    decreases items.len(),
{
    if items.len() == 0 {
        Seq::empty()
    } else {
        relevant_ids_of(items.drop_last(), target) + (if items.last().local_date == target {
            seq![items.last().remote_id@]
        } else {
            Seq::<Seq<char>>::empty()
        })
    }
}

/// Reconciliation folds over concatenation: the second part starts from
/// the map the first part left.
proof fn lemma_apply_remote_seq_concat(
    m: Map<Seq<char>, Option<Seq<char>>>,
    a: Seq<AnnotatedRemote>,
    b: Seq<AnnotatedRemote>,
    target: Date,
)
    ensures
        ({
            let ra = apply_remote_seq(m, a, target);
            let rb = apply_remote_seq(ra.0, b, target);
            apply_remote_seq(m, a + b, target) == (rb.0, ra.1 + rb.1, ra.2 + rb.2, ra.3 + rb.3)
        }),
    decreases a.len(),
{
    if a.len() == 0 {
        assert(a + b =~= b);
        let rb = apply_remote_seq(m, b, target);
        assert(apply_remote_seq(m, a + b, target) == rb);
        assert((rb.0, 0 + rb.1, 0 + rb.2, 0 + rb.3) == rb);
    } else {
        let x = a[0];
        assert((a + b)[0] == x);
        assert((a + b).drop_first() =~= a.drop_first() + b);
        if x.local_date != target {
            lemma_apply_remote_seq_concat(m, a.drop_first(), b, target);
        } else if !m.dom().contains(x.remote_id@) {
            lemma_apply_remote_seq_concat(
                m.insert(x.remote_id@, Some(x.marker@)),
                a.drop_first(),
                b,
                target,
            );
        } else if m[x.remote_id@] != Some(x.marker@) {
            lemma_apply_remote_seq_concat(
                m.insert(x.remote_id@, Some(x.marker@)),
                a.drop_first(),
                b,
                target,
            );
        } else {
            lemma_apply_remote_seq_concat(m, a.drop_first(), b, target);
        }
    }
}

/// A reconciliation fold never counts negatively.
proof fn lemma_apply_remote_seq_nonneg(
    m: Map<Seq<char>, Option<Seq<char>>>,
    items: Seq<AnnotatedRemote>,
    target: Date,
)
    ensures
        apply_remote_seq(m, items, target).1 >= 0,
        apply_remote_seq(m, items, target).2 >= 0,
        apply_remote_seq(m, items, target).3 >= 0,
        apply_remote_seq(m, items, target).1 + apply_remote_seq(m, items, target).2
            + apply_remote_seq(m, items, target).3 <= items.len(),
    decreases items.len(),
{
    if items.len() == 0 {
    } else {
        let a = items[0];
        let rest = items.drop_first();
        if a.local_date != target {
            lemma_apply_remote_seq_nonneg(m, rest, target);
        } else if !m.dom().contains(a.remote_id@) {
            lemma_apply_remote_seq_nonneg(m.insert(a.remote_id@, Some(a.marker@)), rest, target);
        } else if m[a.remote_id@] != Some(a.marker@) {
            lemma_apply_remote_seq_nonneg(m.insert(a.remote_id@, Some(a.marker@)), rest, target);
        } else {
            lemma_apply_remote_seq_nonneg(m, rest, target);
        }
    }
}

/// Relevant ids distribute over concatenation.
proof fn lemma_relevant_ids_concat(a: Seq<AnnotatedRemote>, b: Seq<AnnotatedRemote>, target: Date)
    ensures
        relevant_ids_of(a + b, target) == relevant_ids_of(a, target) + relevant_ids_of(b, target),
    decreases b.len(),
{
    if b.len() == 0 {
        assert(a + b =~= a);
        assert(relevant_ids_of(a, target) + relevant_ids_of(b, target) =~= relevant_ids_of(
            a,
            target,
        ));
    } else {
        lemma_relevant_ids_concat(a, b.drop_last(), target);
        assert((a + b).drop_last() =~= a + b.drop_last());
        assert((a + b).last() == b.last());
        assert(relevant_ids_of(a + b, target) =~= relevant_ids_of(a, target) + relevant_ids_of(
            b,
            target,
        ));
    }
}

/// What a reconciliation pass never touches: existing rows keep their
/// position, identity, issue, status, remote id and creation instant;
/// rows are only appended, never removed.
pub open spec fn preserves_rows(s0: Seq<Worklog>, s1: Seq<Worklog>) -> bool {
    &&& s1.len() >= s0.len()
    &&& forall|j: int|
        0 <= j < s0.len() ==> (#[trigger] s1[j]).id == s0[j].id && s1[j].issue_key == s0[j].issue_key
            && s1[j].sync_status == s0[j].sync_status && s1[j].jira_worklog_id
            == s0[j].jira_worklog_id && s1[j].created_at == s0[j].created_at
}

/// Whether a row's remote-owned content is an annotated worklog's: the
/// locally rendered start, the duration, the description, the remote id
/// and its change marker, with the modification instant bumped.
pub open spec fn content_from(w: Worklog, a: AnnotatedRemote, now: Seq<char>) -> bool {
    &&& w.started_at@ == a.started_local@
    &&& w.duration_seconds == a.duration_seconds
    &&& w.description@ == a.description@
    &&& has_remote_id(w, a.remote_id@)
    &&& w.jira_updated_at matches Some(m) && m@ == a.marker@
    &&& w.updated_at@ == now
}

/// Whether a row's content is that of some worklog of a list.
pub open spec fn content_from_some(w: Worklog, items: Seq<AnnotatedRemote>, now: Seq<char>) -> bool {
    exists|k: int| 0 <= k < items.len() && content_from(w, #[trigger] items[k], now)
}

/// Whether a row's issue is one of the fetched issues.
pub open spec fn key_of_some_fetch(w: Worklog, fetches: Seq<AnnotatedFetch>) -> bool {
    exists|q: int| 0 <= q < fetches.len() && w.issue_key@ == (#[trigger] fetches[q]).issue_key@
}

/// Whether a row's content is that of some worklog of the target date.
pub open spec fn content_from_some_relevant(
    w: Worklog,
    items: Seq<AnnotatedRemote>,
    target: Date,
    now: Seq<char>,
) -> bool {
    exists|k: int|
        0 <= k < items.len() && (#[trigger] items[k]).local_date == target && content_from(
            w,
            items[k],
            now,
        )
}

/// Whether reconciliation has any business with a row: some worklog of
/// the target date carries the row's remote id with a marker other than
/// the stored one. A row for which no such worklog exists is left
/// byte-for-byte as it was — a marker match is a no-op.
pub open spec fn row_would_change(w: Worklog, items: Seq<AnnotatedRemote>, target: Date) -> bool {
    exists|k: int|
        0 <= k < items.len() && (#[trigger] items[k]).local_date == target && has_remote_id(
            w,
            items[k].remote_id@,
        ) && Some(items[k].marker@) != marker_view(w.jira_updated_at)
}

/// The running counters of a reconciliation pass.
#[derive(Debug)]
pub struct ReconcileCounts {
    pub imported: u32,
    pub updated: u32,
    pub skipped: u32,
}

/// Reconcile one issue's worklogs into the ledger: each worklog on the
/// target date is imported, updated or skipped as the marker-map fold
/// says, and its remote id is appended to the seen list.
fn reconcile_items(
    ledger: &mut Ledger,
    target: Date,
    issue_key: &str,
    items: &Vec<AnnotatedRemote>,
    counts: &mut ReconcileCounts,
    seen: &mut Vec<String>,
    now: &str,
) -> (r: ())
    requires
        old(ledger).wf(),
        forall|j: int| 0 <= j < items@.len() ==> (#[trigger] items@[j]).duration_seconds >= 0,
        old(ledger).next_id + items@.len() <= i64::MAX,
        ({
            let r0 = apply_remote_seq(marker_map_of(old(ledger).entries@), items@, target);
            &&& old(counts).imported + r0.1 <= u32::MAX
            &&& old(counts).updated + r0.2 <= u32::MAX
            &&& old(counts).skipped + r0.3 <= u32::MAX
        }),
    ensures
        final(ledger).wf(),
        ({
            let r0 = apply_remote_seq(marker_map_of(old(ledger).entries@), items@, target);
            &&& marker_map_of(final(ledger).entries@) == r0.0
            &&& final(counts).imported == old(counts).imported + r0.1
            &&& final(counts).updated == old(counts).updated + r0.2
            &&& final(counts).skipped == old(counts).skipped + r0.3
        }),
        views_of(final(seen)@) == views_of(old(seen)@) + relevant_ids_of(items@, target),
        preserves_rows(old(ledger).entries@, final(ledger).entries@),
        old(ledger).next_id <= final(ledger).next_id <= old(ledger).next_id + items@.len(),
        final(ledger).entries@.len() <= old(ledger).entries@.len() + items@.len(),
        forall|j: int|
            old(ledger).entries@.len() <= j < final(ledger).entries@.len() ==> ({
                let w = #[trigger] final(ledger).entries@[j];
                &&& content_from_some_relevant(w, items@, target, now@)
                &&& w.issue_key@ == issue_key@
                &&& w.sync_status is Synced
                &&& w.sync_error is None
                &&& w.created_at@ == now@
            }),
        forall|j: int|
            0 <= j < old(ledger).entries@.len() ==> (#[trigger] final(ledger).entries@[j])
                == old(ledger).entries@[j] || (content_from_some_relevant(
                final(ledger).entries@[j],
                items@,
                target,
                now@,
            ) && final(ledger).entries@[j].sync_error == old(ledger).entries@[j].sync_error
                && final(ledger).entries@[j].created_at == old(ledger).entries@[j].created_at),
        forall|j: int|
            0 <= j < old(ledger).entries@.len() && !row_would_change(
                (#[trigger] old(ledger).entries@[j]),
                items@,
                target,
            ) ==> final(ledger).entries@[j] == old(ledger).entries@[j],
        final(ledger).entries@.len() == old(ledger).entries@.len() + apply_remote_seq(
            marker_map_of(old(ledger).entries@),
            items@,
            target,
        ).1,
{
    let n = items.len();
    let ghost m_init = marker_map_of(old(ledger).entries@);
    let ghost r0 = apply_remote_seq(m_init, items@, target);
    let ghost counts0 = *counts;
    let ghost seen0 = seen@;
    let ghost entries0 = old(ledger).entries@;
    let ghost next0 = old(ledger).next_id;
    proof {
        assert(items@.subrange(0, n as int) =~= items@);
        assert(items@.subrange(0, 0).len() == 0);
        assert(views_of(seen@) + relevant_ids_of(items@.subrange(0, 0), target) =~= views_of(
            seen@,
        ));
    }
    let mut k: usize = 0;
    while k < n
        invariant
            n == items@.len(),
            k <= n,
            ledger.wf(),
            forall|j: int| 0 <= j < items@.len() ==> (#[trigger] items@[j]).duration_seconds >= 0,
            r0 == apply_remote_seq(m_init, items@, target),
            ({
                let rr = apply_remote_seq(
                    marker_map_of(ledger.entries@),
                    items@.subrange(k as int, n as int),
                    target,
                );
                &&& rr.0 == r0.0
                &&& counts.imported + rr.1 == counts0.imported + r0.1
                &&& counts.updated + rr.2 == counts0.updated + r0.2
                &&& counts.skipped + rr.3 == counts0.skipped + r0.3
            }),
            counts0.imported + r0.1 <= u32::MAX,
            counts0.updated + r0.2 <= u32::MAX,
            counts0.skipped + r0.3 <= u32::MAX,
            views_of(seen@) == views_of(seen0) + relevant_ids_of(
                items@.subrange(0, k as int),
                target,
            ),
            preserves_rows(entries0, ledger.entries@),
            next0 <= ledger.next_id <= next0 + k,
            next0 + items@.len() <= i64::MAX,
            ledger.entries@.len() <= entries0.len() + k,
            forall|j: int|
                entries0.len() <= j < ledger.entries@.len() ==> ({
                    let w = #[trigger] ledger.entries@[j];
                    &&& content_from_some_relevant(w, items@, target, now@)
                    &&& w.issue_key@ == issue_key@
                    &&& w.sync_status is Synced
                    &&& w.sync_error is None
                    &&& w.created_at@ == now@
                }),
            forall|j: int|
                0 <= j < entries0.len() ==> (#[trigger] ledger.entries@[j]) == entries0[j] || (
                content_from_some_relevant(ledger.entries@[j], items@, target, now@)
                    && ledger.entries@[j].sync_error == entries0[j].sync_error
                    && ledger.entries@[j].created_at == entries0[j].created_at),
            forall|j: int|
                0 <= j < entries0.len() && !row_would_change(
                    (#[trigger] entries0[j]),
                    items@,
                    target,
                ) ==> ledger.entries@[j] == entries0[j],
            ledger.entries@.len() == entries0.len() + (counts.imported - counts0.imported),
        decreases n - k,
    {
        let ghost suffix = items@.subrange(k as int, n as int);
        let ghost l_pre = *ledger;
        proof {
            assert(suffix.len() > 0);
            assert(suffix[0] == items@[k as int]);
            assert(suffix.drop_first() =~= items@.subrange(k + 1, n as int));
            assert(items@.subrange(0, k + 1).drop_last() =~= items@.subrange(0, k as int));
            assert(items@.subrange(0, k + 1).last() == items@[k as int]);
            let mm = marker_map_of(ledger.entries@);
            let a0 = suffix[0];
            lemma_apply_remote_seq_nonneg(mm, suffix, target);
            lemma_apply_remote_seq_nonneg(mm, suffix.drop_first(), target);
            lemma_apply_remote_seq_nonneg(
                mm.insert(a0.remote_id@, Some(a0.marker@)),
                suffix.drop_first(),
                target,
            );
        }
        let a = &items[k];
        if !(a.local_date.year == target.year && a.local_date.month == target.month
            && a.local_date.day == target.day) {
            proof {
                assert(a.local_date != target);
                assert(relevant_ids_of(items@.subrange(0, k + 1), target) =~= relevant_ids_of(
                    items@.subrange(0, k as int),
                    target,
                ));
            }
            k = k + 1;
            continue ;
        }
        proof {
            assert(a.local_date == target);
            assert(views_of(seen@.push(a.remote_id)) =~= views_of(seen@).push(a.remote_id@));
            assert(views_of(seen0) + relevant_ids_of(items@.subrange(0, k + 1), target)
                =~= (views_of(seen0) + relevant_ids_of(items@.subrange(0, k as int), target)).push(
                a.remote_id@,
            ));
        }
        seen.push(a.remote_id.clone());
        let stored = ledger.marker_of_remote(a.remote_id.as_str());
        proof {
            lemma_marker_map_lookup(ledger.entries@, a.remote_id@);
        }
        match stored {
            None => {
                let inserted = ledger.insert_synced_or_ignore(
                    String::from_str(issue_key),
                    a.started_local.clone(),
                    a.duration_seconds,
                    a.description.clone(),
                    a.remote_id.clone(),
                    a.marker.clone(),
                    String::from_str(now),
                );
                proof {
                    assert(inserted);
                    lemma_marker_map_push(l_pre.entries@, ledger.entries@.last());
                    assert(marker_map_of(ledger.entries@) == marker_map_of(l_pre.entries@).insert(
                        a.remote_id@,
                        Some(a.marker@),
                    ));
                    assert(content_from_some(ledger.entries@.last(), items@, now@)) by {
                        assert(content_from(ledger.entries@.last(), items@[k as int], now@));
                    }
                }
                counts.imported = counts.imported + 1;
            },
            Some(marker_opt) => {
                let differs = match &marker_opt {
                    None => true,
                    Some(sm) => !str_eq(sm.as_str(), a.marker.as_str()),
                };
                proof {
                    let mm = marker_map_of(l_pre.entries@);
                    assert(mm.dom().contains(a.remote_id@));
                    assert(mm[a.remote_id@] == marker_view(marker_opt));
                    assert(differs <==> mm[a.remote_id@] != Some(a.marker@));
                }
                if differs {
                    let ghost i = crate::ledger::remote_index_of(l_pre.entries@, a.remote_id@);
                    let updated_now = ledger.update_from_remote(
                        a.remote_id.as_str(),
                        a.started_local.clone(),
                        a.duration_seconds,
                        a.description.clone(),
                        a.marker.clone(),
                        String::from_str(now),
                    );
                    proof {
                        assert(updated_now);
                        assert(ledger.entries@ == l_pre.entries@.update(
                            i,
                            ledger.entries@[i],
                        ));
                        assert(l_pre.entries@[i].jira_worklog_id is Some);
                        assert(l_pre.entries@[i].jira_worklog_id->0@ == a.remote_id@);
                        lemma_marker_map_update(l_pre.entries@, i, ledger.entries@[i]);
                        assert(marker_view(ledger.entries@[i].jira_updated_at) == Some(
                            a.marker@,
                        ));
                        assert(marker_map_of(ledger.entries@) == marker_map_of(
                            l_pre.entries@,
                        ).insert(a.remote_id@, Some(a.marker@)));
                        assert(content_from_some(ledger.entries@[i], items@, now@)) by {
                            assert(content_from(ledger.entries@[i], items@[k as int], now@));
                        }
                        assert forall|j: int|
                            entries0.len() <= j < ledger.entries@.len() implies ({
                            let w = #[trigger] ledger.entries@[j];
                            &&& content_from_some(w, items@, now@)
                            &&& w.issue_key@ == issue_key@
                            &&& w.sync_status is Synced
                            &&& w.sync_error is None
                            &&& w.created_at@ == now@
                        }) by {
                            if j != i {
                                assert(ledger.entries@[j] == l_pre.entries@[j]);
                            }
                        }
                        assert forall|j: int|
                            0 <= j < entries0.len() implies (#[trigger] ledger.entries@[j])
                            == entries0[j] || (content_from_some(ledger.entries@[j], items@, now@)
                            && ledger.entries@[j].sync_error == entries0[j].sync_error
                            && ledger.entries@[j].created_at == entries0[j].created_at) by {
                            if j != i {
                                assert(ledger.entries@[j] == l_pre.entries@[j]);
                            }
                        }
                    }
                    counts.updated = counts.updated + 1;
                } else {
                    counts.skipped = counts.skipped + 1;
                }
            },
        }
        k = k + 1;
    }
    proof {
        assert(items@.subrange(k as int, n as int).len() == 0);
        assert(items@.subrange(0, k as int) =~= items@);
    }
}

/// What a reconciliation pass hands back: the counts, the remote ids
/// seen on the target date, the issues whose fetch failed, and one
/// warning line per failure.
#[derive(Debug)]
pub struct ReconcileOutcome {
    pub counts: ReconcileCounts,
    pub seen: Vec<String>,
    pub failed_issues: Vec<String>,
    pub warnings: Vec<String>,
}

/// Reconcile every fetched issue into the ledger. Each worklog on the
/// target date is imported, updated or skipped as the marker-map fold
/// says; a failed fetch contributes a warning and marks its issue's
/// worklogs as unknown. Existing rows are never removed here.
pub fn reconcile_fetches(
    ledger: &mut Ledger,
    target: Date,
    fetches: &Vec<AnnotatedFetch>,
    now: &str,
) -> (r: ReconcileOutcome)
    requires
        old(ledger).wf(),
        fetches_ok(fetches@),
        old(ledger).next_id + annotated_of(fetches@).len() <= i64::MAX,
        ({
            let r0 = apply_remote_seq(
                marker_map_of(old(ledger).entries@),
                annotated_of(fetches@),
                target,
            );
            &&& r0.1 <= u32::MAX
            &&& r0.2 <= u32::MAX
            &&& r0.3 <= u32::MAX
        }),
    ensures
        final(ledger).wf(),
        ({
            let r0 = apply_remote_seq(
                marker_map_of(old(ledger).entries@),
                annotated_of(fetches@),
                target,
            );
            &&& marker_map_of(final(ledger).entries@) == r0.0
            &&& r.counts.imported == r0.1
            &&& r.counts.updated == r0.2
            &&& r.counts.skipped == r0.3
        }),
        views_of(r.seen@) == relevant_ids_of(annotated_of(fetches@), target),
        views_of(r.failed_issues@) == failed_keys_of(fetches@),
        views_of(r.warnings@) == warning_texts_of(fetches@),
        preserves_rows(old(ledger).entries@, final(ledger).entries@),
        old(ledger).next_id <= final(ledger).next_id,
        final(ledger).entries@.len() <= old(ledger).entries@.len() + annotated_of(
            fetches@,
        ).len(),
        forall|j: int|
            old(ledger).entries@.len() <= j < final(ledger).entries@.len() ==> ({
                let w = #[trigger] final(ledger).entries@[j];
                &&& content_from_some_relevant(w, annotated_of(fetches@), target, now@)
                &&& key_of_some_fetch(w, fetches@)
                &&& w.sync_status is Synced
                &&& w.sync_error is None
                &&& w.created_at@ == now@
            }),
        forall|j: int|
            0 <= j < old(ledger).entries@.len() ==> (#[trigger] final(ledger).entries@[j])
                == old(ledger).entries@[j] || (content_from_some_relevant(
                final(ledger).entries@[j],
                annotated_of(fetches@),
                target,
                now@,
            ) && final(ledger).entries@[j].sync_error == old(ledger).entries@[j].sync_error
                && final(ledger).entries@[j].created_at == old(ledger).entries@[j].created_at),
        forall|j: int|
            0 <= j < old(ledger).entries@.len() && !row_would_change(
                (#[trigger] old(ledger).entries@[j]),
                annotated_of(fetches@),
                target,
            ) ==> final(ledger).entries@[j] == old(ledger).entries@[j],
        final(ledger).entries@.len() == old(ledger).entries@.len() + apply_remote_seq(
            marker_map_of(old(ledger).entries@),
            annotated_of(fetches@),
            target,
        ).1,
{
    let nf = fetches.len();
    let ghost m_init = marker_map_of(old(ledger).entries@);
    let ghost whole = annotated_of(fetches@);
    let ghost r0 = apply_remote_seq(m_init, whole, target);
    let ghost entries0 = old(ledger).entries@;
    let ghost next0 = old(ledger).next_id;
    let mut counts = ReconcileCounts { imported: 0, updated: 0, skipped: 0 };
    let mut seen: Vec<String> = Vec::new();
    let mut failed_issues: Vec<String> = Vec::new();
    let mut warnings: Vec<String> = Vec::new();
    let ghost mut done: Seq<AnnotatedRemote> = Seq::empty();
    proof {
        assert(fetches@.subrange(0, nf as int) =~= fetches@);
        assert(done + annotated_of(fetches@.subrange(0, nf as int)) =~= whole);
        assert(views_of(seen@) =~= relevant_ids_of(done, target));
        assert(views_of(failed_issues@) =~= failed_keys_of(fetches@.subrange(0, 0)));
        assert(views_of(warnings@) =~= warning_texts_of(fetches@.subrange(0, 0)));
    }
    let mut q: usize = 0;
    while q < nf
        invariant
            nf == fetches@.len(),
            q <= nf,
            ledger.wf(),
            fetches_ok(fetches@),
            whole == annotated_of(fetches@),
            r0 == apply_remote_seq(m_init, whole, target),
            r0.1 <= u32::MAX && r0.2 <= u32::MAX && r0.3 <= u32::MAX,
            done + annotated_of(fetches@.subrange(q as int, nf as int)) == whole,
            ({
                let rr = apply_remote_seq(
                    marker_map_of(ledger.entries@),
                    annotated_of(fetches@.subrange(q as int, nf as int)),
                    target,
                );
                &&& rr.0 == r0.0
                &&& counts.imported + rr.1 == r0.1
                &&& counts.updated + rr.2 == r0.2
                &&& counts.skipped + rr.3 == r0.3
            }),
            views_of(seen@) == relevant_ids_of(done, target),
            views_of(failed_issues@) == failed_keys_of(fetches@.subrange(0, q as int)),
            views_of(warnings@) == warning_texts_of(fetches@.subrange(0, q as int)),
            preserves_rows(entries0, ledger.entries@),
            next0 <= ledger.next_id,
            ledger.next_id + annotated_of(fetches@.subrange(q as int, nf as int)).len()
                <= i64::MAX,
            ledger.entries@.len() + annotated_of(fetches@.subrange(q as int, nf as int)).len()
                <= entries0.len() + whole.len(),
            forall|j: int|
                entries0.len() <= j < ledger.entries@.len() ==> ({
                    let w = #[trigger] ledger.entries@[j];
                    &&& content_from_some_relevant(w, whole, target, now@)
                    &&& key_of_some_fetch(w, fetches@)
                    &&& w.sync_status is Synced
                    &&& w.sync_error is None
                    &&& w.created_at@ == now@
                }),
            forall|j: int|
                0 <= j < entries0.len() ==> (#[trigger] ledger.entries@[j]) == entries0[j] || (
                content_from_some_relevant(ledger.entries@[j], whole, target, now@)
                    && ledger.entries@[j].sync_error == entries0[j].sync_error
                    && ledger.entries@[j].created_at == entries0[j].created_at),
            forall|j: int|
                0 <= j < entries0.len() && !row_would_change(
                    (#[trigger] entries0[j]),
                    whole,
                    target,
                ) ==> ledger.entries@[j] == entries0[j],
            ledger.entries@.len() == entries0.len() + counts.imported,
        decreases nf - q,
    {
        let ghost suf_f = fetches@.subrange(q as int, nf as int);
        let ghost suf_rest = fetches@.subrange(q + 1, nf as int);
        let ghost cur_items = (match fetches@[q as int].outcome {
            Ok(v) => v@,
            Err(_) => Seq::<AnnotatedRemote>::empty(),
        });
        let ghost l_pre = *ledger;
        proof {
            assert(suf_f.len() > 0);
            assert(suf_f[0] == fetches@[q as int]);
            assert(suf_f.drop_first() =~= suf_rest);
            assert(annotated_of(suf_f) == cur_items + annotated_of(suf_rest));
            assert(fetches@.subrange(0, q + 1).drop_last() =~= fetches@.subrange(0, q as int));
            assert(fetches@.subrange(0, q + 1).last() == fetches@[q as int]);
            lemma_apply_remote_seq_concat(
                marker_map_of(ledger.entries@),
                cur_items,
                annotated_of(suf_rest),
                target,
            );
            lemma_relevant_ids_concat(done, cur_items, target);
            lemma_apply_remote_seq_nonneg(marker_map_of(ledger.entries@), cur_items, target);
            lemma_apply_remote_seq_nonneg(
                apply_remote_seq(marker_map_of(ledger.entries@), cur_items, target).0,
                annotated_of(suf_rest),
                target,
            );
        }
        match &fetches[q].outcome {
            Ok(items) => {
                proof {
                    assert(items@ == cur_items);
                    assert(items_durations_ok(items@));
                }
                reconcile_items(
                    ledger,
                    target,
                    fetches[q].issue_key.as_str(),
                    items,
                    &mut counts,
                    &mut seen,
                    now,
                );
                proof {
                    assert(views_of(failed_issues@) =~= failed_keys_of(
                        fetches@.subrange(0, q + 1),
                    ));
                    assert(views_of(warnings@) =~= warning_texts_of(fetches@.subrange(0, q + 1)));
                    assert(preserves_rows(entries0, ledger.entries@)) by {
                        assert(preserves_rows(entries0, l_pre.entries@));
                        assert(preserves_rows(l_pre.entries@, ledger.entries@));
                    }
                    assert(whole == done + (cur_items + annotated_of(suf_rest)));
                    assert forall|w: Worklog|
                        content_from_some_relevant(
                            w,
                            cur_items,
                            target,
                            now@,
                        ) implies content_from_some_relevant(w, whole, target, now@) by {
                        let k = choose|k: int|
                            0 <= k < cur_items.len() && (#[trigger] cur_items[k]).local_date
                                == target && content_from(w, cur_items[k], now@);
                        assert(whole[done.len() + k] == cur_items[k]);
                        assert(whole[done.len() + k].local_date == target && content_from(
                            w,
                            whole[done.len() + k],
                            now@,
                        ));
                    }
                    assert forall|w: Worklog|
                        row_would_change(w, cur_items, target) implies row_would_change(
                        w,
                        whole,
                        target,
                    ) by {
                        let k = choose|k: int|
                            0 <= k < cur_items.len() && (#[trigger] cur_items[k]).local_date
                                == target && has_remote_id(w, cur_items[k].remote_id@) && Some(
                                cur_items[k].marker@,
                            ) != marker_view(w.jira_updated_at);
                        assert(whole[done.len() + k] == cur_items[k]);
                        assert(whole[done.len() + k].local_date == target && has_remote_id(
                            w,
                            whole[done.len() + k].remote_id@,
                        ) && Some(whole[done.len() + k].marker@) != marker_view(
                            w.jira_updated_at,
                        ));
                    }
                    assert forall|j: int|
                        entries0.len() <= j < ledger.entries@.len() implies ({
                        let w = #[trigger] ledger.entries@[j];
                        &&& content_from_some_relevant(w, whole, target, now@)
                        &&& key_of_some_fetch(w, fetches@)
                        &&& w.sync_status is Synced
                        &&& w.sync_error is None
                        &&& w.created_at@ == now@
                    }) by {
                        let w = ledger.entries@[j];
                        if j < l_pre.entries@.len() {
                            if w != l_pre.entries@[j] {
                                assert(content_from_some_relevant(w, cur_items, target, now@));
                                assert(w.sync_error == l_pre.entries@[j].sync_error);
                                assert(w.created_at == l_pre.entries@[j].created_at);
                            }
                        } else {
                            assert(content_from_some_relevant(w, cur_items, target, now@));
                            assert(w.issue_key@ == fetches@[q as int].issue_key@);
                        }
                    }
                    assert forall|j: int|
                        0 <= j < entries0.len() implies (#[trigger] ledger.entries@[j])
                        == entries0[j] || (content_from_some_relevant(
                        ledger.entries@[j],
                        whole,
                        target,
                        now@,
                    ) && ledger.entries@[j].sync_error == entries0[j].sync_error
                        && ledger.entries@[j].created_at == entries0[j].created_at) by {
                        let w = ledger.entries@[j];
                        if w != entries0[j] {
                            if w == l_pre.entries@[j] {
                            } else {
                                assert(content_from_some_relevant(w, cur_items, target, now@));
                            }
                        }
                    }
                    assert forall|j: int|
                        0 <= j < entries0.len() && !row_would_change(
                            (#[trigger] entries0[j]),
                            whole,
                            target,
                        ) implies ledger.entries@[j] == entries0[j] by {
                        assert(l_pre.entries@[j] == entries0[j]);
                        assert(!row_would_change(l_pre.entries@[j], cur_items, target));
                    }
                }
            },
            Err(msg) => {
                proof {
                    assert(cur_items.len() == 0);
                    assert(cur_items + annotated_of(suf_rest) =~= annotated_of(suf_rest));
                    assert(done + Seq::<AnnotatedRemote>::empty() =~= done);
                }
                let line = String::from_str("Failed to fetch worklogs for ").concat(
                    fetches[q].issue_key.as_str(),
                ).concat(": ").concat(msg.as_str());
                proof {
                    assert(line@ =~= "Failed to fetch worklogs for "@ + fetches@[q as int].issue_key@
                        + ": "@ + msg@);
                }
                warnings.push(line);
                failed_issues.push(fetches[q].issue_key.clone());
                proof {
                    assert(views_of(failed_issues@) =~= failed_keys_of(
                        fetches@.subrange(0, q + 1),
                    ));
                    assert(views_of(warnings@) =~= warning_texts_of(fetches@.subrange(0, q + 1)));
                }
            },
        }
        proof {
            done = done + cur_items;
        }
        q = q + 1;
    }
    proof {
        assert(fetches@.subrange(0, q as int) =~= fetches@);
        assert(annotated_of(fetches@.subrange(q as int, nf as int)).len() == 0);
        assert(done + Seq::<AnnotatedRemote>::empty() =~= done);
        assert(done == whole);
    }
    ReconcileOutcome { counts, seen, failed_issues, warnings }
}

/// Whether an entry is due for deletion after a run: remote-owned, its
/// stored start on the target date, its remote id not observed remotely,
/// and its issue's fetch not failed. The last two conditions are the
/// safety valves: an unobserved id of a failed issue means unknown, not
/// deleted.
pub open spec fn deletion_candidate(
    w: Worklog,
    target: Date,
    seen: Seq<String>,
    failed: Seq<String>,
) -> bool {
    &&& w.sync_status is Synced
    &&& w.jira_worklog_id matches Some(rid) && !seq_contains_str(seen, rid@)
    &&& !seq_contains_str(failed, w.issue_key@)
    &&& date_prefix_of(w.started_at@) == Some(target)
}

/// Whether some entry before `bound` carries this id and is due for
/// deletion.
pub open spec fn candidate_id_below(
    entries: Seq<Worklog>,
    id: i64,
    bound: int,
    target: Date,
    seen: Seq<String>,
    failed: Seq<String>,
) -> bool {
    exists|i: int|
        0 <= i < bound && i < entries.len() && (#[trigger] entries[i]).id == id
            && deletion_candidate(entries[i], target, seen, failed)
}

/// Whether some entry carries this id and is due for deletion.
pub open spec fn candidate_id(
    entries: Seq<Worklog>,
    id: i64,
    target: Date,
    seen: Seq<String>,
    failed: Seq<String>,
) -> bool {
    candidate_id_below(entries, id, entries.len() as int, target, seen, failed)
}

/// The local ids of exactly the entries due for deletion.
pub fn deletion_candidates(
    ledger: &Ledger,
    target: &Date,
    seen: &Vec<String>,
    failed: &Vec<String>,
) -> (r: Vec<i64>)
    requires
        ledger.wf(),
    ensures
        forall|k: int|
            0 <= k < r@.len() ==> candidate_id(
                ledger.entries@,
                #[trigger] r@[k],
                *target,
                seen@,
                failed@,
            ),
        forall|i: int|
            0 <= i < ledger.entries@.len() && deletion_candidate(
                #[trigger] ledger.entries@[i],
                *target,
                seen@,
                failed@,
            ) ==> r@.contains(ledger.entries@[i].id),
        forall|k1: int, k2: int| 0 <= k1 < k2 < r@.len() ==> r@[k1] != r@[k2],
{
    let n = ledger.entries.len();
    let mut r: Vec<i64> = Vec::new();
    let mut i: usize = 0;
    while i < n
        invariant
            n == ledger.entries@.len(),
            i <= n,
            ledger.wf(),
            forall|k: int|
                0 <= k < r@.len() ==> candidate_id_below(
                    ledger.entries@,
                    #[trigger] r@[k],
                    i as int,
                    *target,
                    seen@,
                    failed@,
                ),
            forall|ii: int|
                0 <= ii < i && deletion_candidate(
                    #[trigger] ledger.entries@[ii],
                    *target,
                    seen@,
                    failed@,
                ) ==> r@.contains(ledger.entries@[ii].id),
            forall|k1: int, k2: int| 0 <= k1 < k2 < r@.len() ==> r@[k1] != r@[k2],
        decreases n - i,
    {
        let w = &ledger.entries[i];
        let is_synced = match w.sync_status {
            SyncStatus::Synced => true,
            _ => false,
        };
        let mut candidate = false;
        if is_synced {
            match &w.jira_worklog_id {
                Some(rid) => {
                    if !crate::strutil::contains_str(seen, rid.as_str())
                        && !crate::strutil::contains_str(failed, w.issue_key.as_str()) {
                        match crate::dates::parse_date_prefix(w.started_at.as_str()) {
                            Some(d) => {
                                if d.year == target.year && d.month == target.month && d.day
                                    == target.day {
                                    candidate = true;
                                    assert(d == *target);
                                }
                            },
                            None => {},
                        }
                    }
                },
                None => {},
            }
        }
        if candidate {
            assert(deletion_candidate(ledger.entries@[i as int], *target, seen@, failed@));
            let ghost r_pre = r@;
            r.push(w.id);
            proof {
                assert(r@[r@.len() - 1] == ledger.entries@[i as int].id);
                assert forall|k: int| 0 <= k < r@.len() implies candidate_id_below(
                    ledger.entries@,
                    #[trigger] r@[k],
                    i + 1,
                    *target,
                    seen@,
                    failed@,
                ) by {
                    if k < r@.len() - 1 {
                        assert(r@[k] == r_pre[k]);
                        assert(candidate_id_below(
                            ledger.entries@,
                            r_pre[k],
                            i as int,
                            *target,
                            seen@,
                            failed@,
                        ));
                        let ii = choose|ii: int|
                            0 <= ii < i && ii < ledger.entries@.len() && (
                            #[trigger] ledger.entries@[ii]).id == r_pre[k] && deletion_candidate(
                                ledger.entries@[ii],
                                *target,
                                seen@,
                                failed@,
                            );
                        assert(0 <= ii < i + 1 && ledger.entries@[ii].id == r@[k]
                            && deletion_candidate(ledger.entries@[ii], *target, seen@, failed@));
                    } else {
                        assert((ledger.entries@[i as int]).id == r@[k] && deletion_candidate(
                            ledger.entries@[i as int],
                            *target,
                            seen@,
                            failed@,
                        ));
                    }
                }
                assert forall|ii: int|
                    0 <= ii < i + 1 && deletion_candidate(
                        #[trigger] ledger.entries@[ii],
                        *target,
                        seen@,
                        failed@,
                    ) implies r@.contains(ledger.entries@[ii].id) by {
                    if ii < i {
                        let k = choose|k: int|
                            0 <= k < r_pre.len() && r_pre[k] == ledger.entries@[ii].id;
                        assert(r@[k] == ledger.entries@[ii].id);
                    } else {
                        assert(r@[r@.len() - 1] == ledger.entries@[ii].id);
                    }
                }
                assert forall|k1: int, k2: int| 0 <= k1 < k2 < r@.len() implies r@[k1]
                    != r@[k2] by {
                    if k2 == r@.len() - 1 {
                        assert(r@[k1] == r_pre[k1]);
                        assert(candidate_id_below(
                            ledger.entries@,
                            r_pre[k1],
                            i as int,
                            *target,
                            seen@,
                            failed@,
                        ));
                        let ii = choose|ii: int|
                            0 <= ii < i && ii < ledger.entries@.len() && (
                            #[trigger] ledger.entries@[ii]).id == r_pre[k1] && deletion_candidate(
                                ledger.entries@[ii],
                                *target,
                                seen@,
                                failed@,
                            );
                        assert(ledger.entries@[ii].id != ledger.entries@[i as int].id);
                    } else {
                        assert(r@[k1] == r_pre[k1] && r@[k2] == r_pre[k2]);
                    }
                }
            }
        } else {
            assert(!deletion_candidate(ledger.entries@[i as int], *target, seen@, failed@));
            proof {
                assert forall|ii: int|
                    0 <= ii < i + 1 && deletion_candidate(
                        #[trigger] ledger.entries@[ii],
                        *target,
                        seen@,
                        failed@,
                    ) implies r@.contains(ledger.entries@[ii].id) by {
                    assert(ii < i);
                }
            }
        }
        i = i + 1;
    }
    r
}

/// Whether the entry at a position of `s0` is still represented in `s1`:
/// same local id, issue, status and remote id.
pub open spec fn survives(s0: Seq<Worklog>, s1: Seq<Worklog>, j0: int) -> bool {
    exists|j: int|
        0 <= j < s1.len() && (#[trigger] s1[j]).id == s0[j0].id && s1[j].issue_key
            == s0[j0].issue_key && s1[j].sync_status == s0[j0].sync_status && s1[j].jira_worklog_id
            == s0[j0].jira_worklog_id
}

/// Whether a row occurs somewhere in a sequence of rows.
pub open spec fn seq_has_row(s: Seq<Worklog>, w: Worklog) -> bool {
    exists|j: int| 0 <= j < s.len() && #[trigger] s[j] == w
}

/// One deletion step keeps the pass's bookkeeping: ids processed so far
/// stay absent, every surviving row was already present, and every row
/// whose id was not processed survives.
proof fn lemma_delete_step(
    entries0: Seq<Worklog>,
    pre: Seq<Worklog>,
    post: Seq<Worklog>,
    ids: Seq<i64>,
    t: int,
)
    requires
        crate::ledger::unique_ids(pre),
        0 <= t < ids.len(),
        forall|k1: int, k2: int| 0 <= k1 < k2 < ids.len() ==> ids[k1] != ids[k2],
        forall|k: int| 0 <= k < t ==> !contains_id(pre, #[trigger] ids[k]),
        forall|j: int| 0 <= j < pre.len() ==> seq_has_row(entries0, #[trigger] pre[j]),
        forall|j0: int|
            0 <= j0 < entries0.len() && !ids.subrange(0, t).contains((#[trigger] entries0[j0]).id)
                ==> seq_has_row(pre, entries0[j0]),
        if contains_id(pre, ids[t]) {
            post == pre.remove(crate::ledger::entry_index_of(pre, ids[t]))
        } else {
            post == pre
        },
    ensures
        forall|k: int| 0 <= k < t + 1 ==> !contains_id(post, #[trigger] ids[k]),
        forall|j: int| 0 <= j < post.len() ==> seq_has_row(entries0, #[trigger] post[j]),
        forall|j0: int|
            0 <= j0 < entries0.len() && !ids.subrange(0, t + 1).contains(
                (#[trigger] entries0[j0]).id,
            ) ==> seq_has_row(post, entries0[j0]),
{
    assert forall|j0: int|
        0 <= j0 < entries0.len() && !ids.subrange(0, t + 1).contains(
            entries0[j0].id,
        ) implies !ids.subrange(0, t).contains(entries0[j0].id) && entries0[j0].id != ids[t] by {
        if ids.subrange(0, t).contains(entries0[j0].id) {
            let kk = choose|kk: int| 0 <= kk < t && ids.subrange(0, t)[kk] == entries0[j0].id;
            assert(ids.subrange(0, t + 1)[kk] == entries0[j0].id);
        }
        assert(ids.subrange(0, t + 1)[t] == ids[t]);
    }
    if contains_id(pre, ids[t]) {
        let w0 = choose|ii: int| 0 <= ii < pre.len() && (#[trigger] pre[ii]).id == ids[t];
        crate::ledger::lemma_entry_index_is(pre, w0, ids[t]);
        let ridx = crate::ledger::entry_index_of(pre, ids[t]);
        assert(0 <= ridx < pre.len() && pre[ridx].id == ids[t]);
        assert(post == pre.remove(ridx));
        assert forall|j: int| 0 <= j < post.len() implies (#[trigger] post[j]) == (if j < ridx {
            pre[j]
        } else {
            pre[j + 1]
        }) by {}
        assert forall|j: int| 0 <= j < post.len() implies seq_has_row(
            entries0,
            #[trigger] post[j],
        ) by {
            if j < ridx {
                assert(post[j] == pre[j]);
                assert(seq_has_row(entries0, pre[j]));
            } else {
                assert(post[j] == pre[j + 1]);
                assert(seq_has_row(entries0, pre[j + 1]));
            }
        }
        assert forall|k: int| 0 <= k < t + 1 implies !contains_id(post, #[trigger] ids[k]) by {
            assert forall|j: int| 0 <= j < post.len() implies (#[trigger] post[j]).id
                != ids[k] by {
                let jp = if j < ridx {
                    j
                } else {
                    j + 1
                };
                assert(post[j] == pre[jp]);
                if k < t {
                    assert(!contains_id(pre, ids[k]));
                } else {
                    assert(jp != ridx);
                    if jp < ridx {
                        assert(pre[jp].id != pre[ridx].id);
                    } else {
                        assert(pre[ridx].id != pre[jp].id);
                    }
                }
            }
        }
        assert forall|j0: int|
            0 <= j0 < entries0.len() && !ids.subrange(0, t + 1).contains(
                (#[trigger] entries0[j0]).id,
            ) implies seq_has_row(post, entries0[j0]) by {
            assert(seq_has_row(pre, entries0[j0]));
            let jw = choose|jw: int| 0 <= jw < pre.len() && #[trigger] pre[jw] == entries0[j0];
            assert(jw != ridx);
            if jw < ridx {
                assert(post[jw] == pre[jw]);
            } else {
                assert(post[jw - 1] == pre[jw]);
            }
        }
    } else {
        assert(post == pre);
        assert forall|k: int| 0 <= k < t + 1 implies !contains_id(post, #[trigger] ids[k]) by {
            if k == t {
                assert(!contains_id(pre, ids[t]));
            }
        }
    }
}

/// Remove the entries with the given local ids, whatever their status.
pub fn delete_ids(ledger: &mut Ledger, ids: &Vec<i64>) -> (deleted: u32)
    requires
        old(ledger).wf(),
        forall|k1: int, k2: int| 0 <= k1 < k2 < ids@.len() ==> ids@[k1] != ids@[k2],
        old(ledger).entries@.len() <= u32::MAX,
    ensures
        final(ledger).wf(),
        final(ledger).next_id == old(ledger).next_id,
        deleted == old(ledger).entries@.len() - final(ledger).entries@.len(),
        forall|k: int|
            0 <= k < ids@.len() ==> !contains_id(final(ledger).entries@, #[trigger] ids@[k]),
        forall|j: int|
            0 <= j < final(ledger).entries@.len() ==> seq_has_row(
                old(ledger).entries@,
                #[trigger] final(ledger).entries@[j],
            ),
        forall|j0: int|
            0 <= j0 < old(ledger).entries@.len() && !ids@.contains(
                (#[trigger] old(ledger).entries@[j0]).id,
            ) ==> seq_has_row(final(ledger).entries@, old(ledger).entries@[j0]),
{
    let nids = ids.len();
    let n0 = ledger.entries.len();
    let ghost entries0 = old(ledger).entries@;
    proof {
        assert forall|j: int| 0 <= j < ledger.entries@.len() implies seq_has_row(
            entries0,
            #[trigger] ledger.entries@[j],
        ) by {
            assert(entries0[j] == ledger.entries@[j]);
        }
        assert forall|j0: int|
            0 <= j0 < entries0.len() && !ids@.subrange(0, 0).contains(
                (#[trigger] entries0[j0]).id,
            ) implies seq_has_row(ledger.entries@, entries0[j0]) by {
            assert(ledger.entries@[j0] == entries0[j0]);
        }
    }
    let mut t: usize = 0;
    while t < nids
        invariant
            nids == ids@.len(),
            t <= nids,
            n0 == entries0.len(),
            ledger.wf(),
            ledger.next_id == old(ledger).next_id,
            forall|k1: int, k2: int| 0 <= k1 < k2 < ids@.len() ==> ids@[k1] != ids@[k2],
            ledger.entries@.len() <= entries0.len(),
            forall|k: int| 0 <= k < t ==> !contains_id(ledger.entries@, #[trigger] ids@[k]),
            forall|j: int|
                0 <= j < ledger.entries@.len() ==> seq_has_row(
                    entries0,
                    #[trigger] ledger.entries@[j],
                ),
            forall|j0: int|
                0 <= j0 < entries0.len() && !ids@.subrange(0, t as int).contains(
                    (#[trigger] entries0[j0]).id,
                ) ==> seq_has_row(ledger.entries@, entries0[j0]),
        decreases nids - t,
    {
        let ghost pre = ledger.entries@;
        let removed = ledger.remove_by_id(ids[t]);
        proof {
            lemma_delete_step(entries0, pre, ledger.entries@, ids@, t as int);
        }
        t = t + 1;
    }
    proof {
        assert(ids@.subrange(0, nids as int) =~= ids@);
    }
    (n0 - ledger.entries.len()) as u32
}

/// How an annotated worklog relates to the raw remote worklog it came
/// from: same id and marker, the duration clamped at zero, the
/// description extracted from the comment document, and the start
/// re-rendered locally at the same instant.
pub open spec fn annotated_from(a: AnnotatedRemote, e: JiraWorklogEntry) -> bool {
    &&& a.remote_id@ == e.id@
    &&& a.marker@ == e.updated@
    &&& a.duration_seconds == (if e.time_spent_seconds >= 0 {
        e.time_spent_seconds
    } else {
        0
    })
    &&& a.description@ == (match e.comment {
        Some(c) => crate::adf::adf_text_of(c),
        None => Seq::<char>::empty(),
    })
    &&& wire_instant_of(e.started@) matches Some(p) && (rfc3339_instant_of(a.started_local@)
        matches Some(q) && q.0 == p.0)
    &&& a.local_date.valid()
}

/// Whether an annotated worklog came from some raw worklog of a list.
pub open spec fn from_some_entry(a: AnnotatedRemote, es: Seq<JiraWorklogEntry>) -> bool {
    exists|j: int| 0 <= j < es.len() && annotated_from(a, #[trigger] es[j])
}

/// Whether a raw remote worklog is kept by annotation: authored by the
/// current account, with a start that parses in the wire format to a
/// plausible instant.
pub open spec fn entry_qualifies(e: JiraWorklogEntry, my: Seq<char>) -> bool {
    e.author.account_id@ == my && (wire_instant_of(e.started@) matches Some(p) && 0 <= p.0
        <= MAX_CLOCK_MS)
}

/// Whether a raw worklog has an annotated counterpart in a list.
pub open spec fn represented_in(e: JiraWorklogEntry, v: Seq<AnnotatedRemote>) -> bool {
    exists|k: int| 0 <= k < v.len() && annotated_from(#[trigger] v[k], e)
}

use crate::timefmt::rfc3339_instant_of;

/// Annotate one raw remote worklog: kept exactly when its author is the
/// current account, its start parses in the wire format, and the instant
/// lies in the plausible clock range. The machine's timezone decides the
/// local date and the re-rendered start text; the instant itself is
/// preserved.
pub fn annotate_entry(e: &JiraWorklogEntry, my_account_id: &str) -> (r: Option<AnnotatedRemote>)
    ensures
        r is Some <==> entry_qualifies(*e, my_account_id@),
        r matches Some(a) ==> annotated_from(a, *e),
{
    if !str_eq(e.author.account_id.as_str(), my_account_id) {
        return None;
    }
    let (ms, _off) = match parse_wire_ms(e.started.as_str()) {
        Some(p) => p,
        None => {
            return None;
        },
    };
    if !(0 <= ms && ms <= MAX_CLOCK_MS) {
        return None;
    }
    let local_date = local_civil_date(ms);
    let started_local = local_rfc3339(ms);
    let duration_seconds = if e.time_spent_seconds >= 0 {
        e.time_spent_seconds
    } else {
        0
    };
    let description = match &e.comment {
        Some(c) => crate::adf::extract_adf_text(c),
        None => String::new(),
    };
    Some(
        AnnotatedRemote {
            remote_id: e.id.clone(),
            started_local,
            local_date,
            duration_seconds,
            description,
            marker: e.updated.clone(),
        },
    )
}

/// Annotate one issue's fetch outcome: a failure is carried through as
/// the unknown it is; a success keeps the current account's parseable
/// worklogs, annotated, in order.
pub fn annotate_fetch(
    issue_key: String,
    fetched: Result<Vec<JiraWorklogEntry>, String>,
    my_account_id: &str,
) -> (r: AnnotatedFetch)
    ensures
        r.issue_key == issue_key,
        r.outcome is Ok <==> fetched is Ok,
        r.outcome matches Err(m) ==> (fetched matches Err(m0) && m == m0),
        r.outcome matches Ok(v) ==> (fetched matches Ok(es) && v@.len() <= es@.len()
            && items_durations_ok(v@) && (forall|k: int|
            0 <= k < v@.len() ==> from_some_entry(#[trigger] v@[k], es@)) && (forall|j: int|
            0 <= j < es@.len() && entry_qualifies(#[trigger] es@[j], my_account_id@)
                ==> represented_in(es@[j], v@))),
{
    let es = match fetched {
        Ok(es) => es,
        Err(m) => {
            return AnnotatedFetch { issue_key, outcome: Err(m) };
        },
    };
    let n = es.len();
    let mut v: Vec<AnnotatedRemote> = Vec::new();
    let mut i: usize = 0;
    while i < n
        invariant
            n == es@.len(),
            i <= n,
            v@.len() <= i,
            items_durations_ok(v@),
            forall|k: int| 0 <= k < v@.len() ==> from_some_entry(#[trigger] v@[k], es@),
            forall|j: int|
                0 <= j < i && entry_qualifies(#[trigger] es@[j], my_account_id@)
                    ==> represented_in(es@[j], v@),
        decreases n - i,
    {
        let ghost v_pre = v@;
        match annotate_entry(&es[i], my_account_id) {
            Some(a) => {
                proof {
                    assert(annotated_from(a, es@[i as int]));
                }
                v.push(a);
                proof {
                    assert forall|k: int| 0 <= k < v@.len() implies from_some_entry(
                        #[trigger] v@[k],
                        es@,
                    ) by {
                        if k == v@.len() - 1 {
                            assert(annotated_from(v@[k], es@[i as int]));
                        }
                    }
                    assert forall|j: int|
                        0 <= j < i + 1 && entry_qualifies(
                            #[trigger] es@[j],
                            my_account_id@,
                        ) implies represented_in(es@[j], v@) by {
                        if j < i {
                            let k = choose|k: int|
                                0 <= k < v_pre.len() && annotated_from(
                                    #[trigger] v_pre[k],
                                    es@[j],
                                );
                            assert(annotated_from(v@[k], es@[j]));
                        } else {
                            assert(annotated_from(v@[v@.len() - 1], es@[j]));
                        }
                    }
                }
            },
            None => {
                proof {
                    assert(!entry_qualifies(es@[i as int], my_account_id@));
                }
            },
        }
        i = i + 1;
    }
    AnnotatedFetch { issue_key, outcome: Ok(v) }
}

/// The prepared remote query for one import run: the target date, the
/// padded day range, the search text, and the epoch-millisecond lower
/// bound for per-issue fetches.
#[derive(Debug)]
pub struct ImportQuery {
    pub target: Date,
    pub day_before: Date,
    pub day_after: Date,
    pub jql: String,
    pub started_after_ms: i64,
}

/// Build the remote query for a target date given as `YYYY-MM-DD`. The
/// search range is padded by one day on each side to absorb timezone
/// skew between the remote account and this machine; the fetch bound is
/// the padded range's first midnight, UTC. Fails `InvalidDate` when the
/// text is not a valid date or lies at the very edge of the calendar.
pub fn build_import_query(date: &str) -> (r: Result<ImportQuery, SyncError>)
    ensures
        r is Ok <==> (date_of_str(date@) matches Some(d) && 2 <= d.year <= 9998),
        r is Err ==> r == Err::<ImportQuery, SyncError>(SyncError::InvalidDate),
        r matches Ok(q) ==> ({
            let d = date_of_str(date@)->0;
            &&& q.target == d
            &&& q.day_before == crate::dates::spec_prev_day(d)
            &&& q.day_after == crate::dates::spec_next_day(d)
            &&& q.jql@ == "worklogDate >= \""@ + date_str_of(q.day_before)
                + "\" AND worklogDate <= \""@ + date_str_of(q.day_after)
                + "\" AND worklogAuthor = currentUser()"@
            &&& q.started_after_ms == epoch_day_of(
                q.day_before.year as int,
                q.day_before.month as int,
                q.day_before.day as int,
            ) * 86400000
        }),
{
    let target = match parse_date(date) {
        Some(d) => d,
        None => {
            return Err(SyncError::InvalidDate);
        },
    };
    if target.year < 2 || target.year > 9998 {
        return Err(SyncError::InvalidDate);
    }
    let day_before = prev_day(target);
    let day_after = next_day(target);
    let jql = String::from_str("worklogDate >= \"").concat(
        date_to_string(day_before).as_str(),
    ).concat("\" AND worklogDate <= \"").concat(date_to_string(day_after).as_str()).concat(
        "\" AND worklogAuthor = currentUser()",
    );
    proof {
        assert(jql@ =~= "worklogDate >= \""@ + date_str_of(day_before)
            + "\" AND worklogDate <= \""@ + date_str_of(day_after)
            + "\" AND worklogAuthor = currentUser()"@);
    }
    let started_after_ms = epoch_millis_utc_midnight(day_before);
    Ok(ImportQuery { target, day_before, day_after, jql, started_after_ms })
}

/// A worklog of the target date has its remote id among the relevant ids.
proof fn lemma_relevant_id_member(items: Seq<AnnotatedRemote>, target: Date, k: int)
    requires
        0 <= k < items.len(),
        items[k].local_date == target,
    ensures
        relevant_ids_of(items, target).contains(items[k].remote_id@),
    decreases items.len(),
{
    let ids = relevant_ids_of(items, target);
    if k == items.len() - 1 {
        assert(items.last() == items[k]);
        assert(ids[ids.len() - 1] == items[k].remote_id@);
    } else {
        assert(items.drop_last()[k] == items[k]);
        lemma_relevant_id_member(items.drop_last(), target, k);
        let pre = relevant_ids_of(items.drop_last(), target);
        let kk = choose|kk: int| 0 <= kk < pre.len() && pre[kk] == items[k].remote_id@;
        assert(ids[kk] == items[k].remote_id@);
    }
}

/// Whether a run with these fetches is due to delete a row: remote-owned,
/// stored start on the target date, its remote id not among the observed
/// worklogs of the date, and its issue's fetch not failed.
pub open spec fn spec_deletion_candidate(
    w: Worklog,
    target: Date,
    fetches: Seq<AnnotatedFetch>,
) -> bool {
    &&& w.sync_status is Synced
    &&& w.jira_worklog_id matches Some(rid) && !relevant_ids_of(
        annotated_of(fetches),
        target,
    ).contains(rid@)
    &&& !failed_keys_of(fetches).contains(w.issue_key@)
    &&& date_prefix_of(w.started_at@) == Some(target)
}

/// Apply a whole run to the ledger: reconcile every fetch, then — only
/// when the search itself succeeded — delete the remote-owned rows of
/// the target date whose remote ids were not observed, sparing every row
/// of an issue whose fetch failed. A failed search disables the deletion
/// pass entirely and contributes the first warning.
#[verifier::rlimit(60)]
pub fn finish_import(
    ledger: &mut Ledger,
    target: Date,
    jql_error: Option<String>,
    fetches: &Vec<AnnotatedFetch>,
    now: &str,
) -> (r: ImportSummary)
    requires
        old(ledger).wf(),
        fetches_ok(fetches@),
        fetches@.len() <= u32::MAX,
        old(ledger).next_id + annotated_of(fetches@).len() <= i64::MAX,
        old(ledger).entries@.len() + annotated_of(fetches@).len() <= u32::MAX,
        ({
            let r0 = apply_remote_seq(
                marker_map_of(old(ledger).entries@),
                annotated_of(fetches@),
                target,
            );
            &&& r0.1 <= u32::MAX
            &&& r0.2 <= u32::MAX
            &&& r0.3 <= u32::MAX
        }),
    ensures
        final(ledger).wf(),
        ({
            let r0 = apply_remote_seq(
                marker_map_of(old(ledger).entries@),
                annotated_of(fetches@),
                target,
            );
            &&& r.imported == r0.1
            &&& r.updated == r0.2
            &&& r.skipped == r0.3
        }),
        r.issues_checked == fetches@.len(),
        views_of(r.warnings@) == (match jql_error {
            Some(m) => seq!["JQL search failed: "@ + m@],
            None => Seq::<Seq<char>>::empty(),
        }) + warning_texts_of(fetches@),
        jql_error is Some ==> r.deleted == 0 && preserves_rows(
            old(ledger).entries@,
            final(ledger).entries@,
        ),
        forall|j0: int|
            0 <= j0 < old(ledger).entries@.len() && failed_keys_of(fetches@).contains(
                (#[trigger] old(ledger).entries@[j0]).issue_key@,
            ) ==> survives(old(ledger).entries@, final(ledger).entries@, j0),
        final(ledger).entries@.len() + r.deleted == old(ledger).entries@.len() + r.imported,
        forall|j0: int|
            0 <= j0 < old(ledger).entries@.len() && !spec_deletion_candidate(
                (#[trigger] old(ledger).entries@[j0]),
                target,
                fetches@,
            ) ==> survives(old(ledger).entries@, final(ledger).entries@, j0),
        forall|j0: int|
            0 <= j0 < old(ledger).entries@.len() && !row_would_change(
                (#[trigger] old(ledger).entries@[j0]),
                annotated_of(fetches@),
                target,
            ) && !spec_deletion_candidate(old(ledger).entries@[j0], target, fetches@)
                ==> seq_has_row(final(ledger).entries@, old(ledger).entries@[j0]),
        jql_error is Some ==> forall|j0: int|
            0 <= j0 < old(ledger).entries@.len() && !row_would_change(
                (#[trigger] old(ledger).entries@[j0]),
                annotated_of(fetches@),
                target,
            ) ==> final(ledger).entries@[j0] == old(ledger).entries@[j0],
        forall|j: int|
            0 <= j < final(ledger).entries@.len() ==> ({
                let w = #[trigger] final(ledger).entries@[j];
                (exists|j0: int|
                    0 <= j0 < old(ledger).entries@.len() && (w == (
                    #[trigger] old(ledger).entries@[j0]) || (w.id == old(ledger).entries@[j0].id
                        && content_from_some_relevant(w, annotated_of(fetches@), target, now@))))
                    || (content_from_some_relevant(w, annotated_of(fetches@), target, now@)
                    && key_of_some_fetch(w, fetches@) && w.sync_status is Synced)
            }),
{
    let ghost entries0 = old(ledger).entries@;
    let mut outcome = reconcile_fetches(ledger, target, fetches, now);
    let ghost mid = ledger.entries@;
    let mut warnings: Vec<String> = Vec::new();
    let mut jql_failed = false;
    match jql_error {
        Some(m) => {
            jql_failed = true;
            let line = String::from_str("JQL search failed: ").concat(m.as_str());
            proof {
                assert(line@ =~= "JQL search failed: "@ + m@);
            }
            warnings.push(line);
        },
        None => {},
    }
    let ghost pre_append = warnings@;
    let ghost fetch_warnings = outcome.warnings@;
    warnings.append(&mut outcome.warnings);
    proof {
        assert(views_of(warnings@) =~= views_of(pre_append) + views_of(fetch_warnings)) by {
            assert(warnings@ == pre_append + fetch_warnings);
            assert forall|k: int| 0 <= k < warnings@.len() implies views_of(warnings@)[k] == (
            views_of(pre_append) + views_of(fetch_warnings))[k] by {
                if k < pre_append.len() {
                    assert(warnings@[k] == pre_append[k]);
                } else {
                    assert(warnings@[k] == fetch_warnings[k - pre_append.len()]);
                }
            }
        }
    }
    let mut deleted: u32 = 0;
    if !jql_failed {
        let candidates = deletion_candidates(ledger, &target, &outcome.seen, &outcome.failed_issues);
        deleted = delete_ids(ledger, &candidates);
        proof {
            assert forall|j0: int|
                0 <= j0 < entries0.len() && failed_keys_of(fetches@).contains(
                    (#[trigger] entries0[j0]).issue_key@,
                ) implies survives(entries0, ledger.entries@, j0) by {
                assert(preserves_rows(entries0, mid));
                assert(mid[j0].issue_key == entries0[j0].issue_key);
                assert(seq_contains_str(outcome.failed_issues@, mid[j0].issue_key@)) by {
                    let kk = choose|kk: int|
                        0 <= kk < failed_keys_of(fetches@).len() && failed_keys_of(fetches@)[kk]
                            == entries0[j0].issue_key@;
                    assert(views_of(outcome.failed_issues@)[kk] == entries0[j0].issue_key@);
                    assert(outcome.failed_issues@[kk]@ == entries0[j0].issue_key@);
                }
                assert(!deletion_candidate(mid[j0], target, outcome.seen@, outcome.failed_issues@));
                assert(!candidates@.contains(mid[j0].id)) by {
                    if candidates@.contains(mid[j0].id) {
                        let kc = choose|kc: int|
                            0 <= kc < candidates@.len() && candidates@[kc] == mid[j0].id;
                        assert(candidate_id(
                            mid,
                            candidates@[kc],
                            target,
                            outcome.seen@,
                            outcome.failed_issues@,
                        ));
                        let ii = choose|ii: int|
                            0 <= ii < mid.len() && ii < mid.len() && (#[trigger] mid[ii]).id
                                == candidates@[kc] && deletion_candidate(
                                mid[ii],
                                target,
                                outcome.seen@,
                                outcome.failed_issues@,
                            );
                        if ii != j0 {
                            if ii < j0 {
                                assert(mid[ii].id != mid[j0].id);
                            } else {
                                assert(mid[j0].id != mid[ii].id);
                            }
                        }
                    }
                }
                assert(seq_has_row(ledger.entries@, mid[j0]));
                let jf = choose|jf: int|
                    0 <= jf < ledger.entries@.len() && #[trigger] ledger.entries@[jf] == mid[j0];
                assert(ledger.entries@[jf].id == entries0[j0].id && ledger.entries@[jf].issue_key
                    == entries0[j0].issue_key && ledger.entries@[jf].sync_status
                    == entries0[j0].sync_status && ledger.entries@[jf].jira_worklog_id
                    == entries0[j0].jira_worklog_id);
            }
            let whole = annotated_of(fetches@);
            assert forall|j0: int|
                0 <= j0 < entries0.len() && !spec_deletion_candidate(
                    (#[trigger] entries0[j0]),
                    target,
                    fetches@,
                ) implies !deletion_candidate(
                mid[j0],
                target,
                outcome.seen@,
                outcome.failed_issues@,
            ) && seq_has_row(ledger.entries@, mid[j0]) by {
                assert(preserves_rows(entries0, mid));
                assert(!deletion_candidate(
                    mid[j0],
                    target,
                    outcome.seen@,
                    outcome.failed_issues@,
                )) by {
                    if deletion_candidate(mid[j0], target, outcome.seen@, outcome.failed_issues@) {
                        let rid = mid[j0].jira_worklog_id->0@;
                        if mid[j0] == entries0[j0] {
                            assert(!relevant_ids_of(whole, target).contains(rid)) by {
                                if relevant_ids_of(whole, target).contains(rid) {
                                    let kk = choose|kk: int|
                                        0 <= kk < relevant_ids_of(whole, target).len() && relevant_ids_of(
                                            whole,
                                            target,
                                        )[kk] == rid;
                                    assert(views_of(outcome.seen@)[kk] == rid);
                                    assert(outcome.seen@[kk]@ == rid);
                                    assert(seq_contains_str(outcome.seen@, rid));
                                }
                            }
                            assert(!failed_keys_of(fetches@).contains(
                                entries0[j0].issue_key@,
                            )) by {
                                if failed_keys_of(fetches@).contains(entries0[j0].issue_key@) {
                                    let kk = choose|kk: int|
                                        0 <= kk < failed_keys_of(fetches@).len() && failed_keys_of(
                                            fetches@,
                                        )[kk] == entries0[j0].issue_key@;
                                    assert(views_of(outcome.failed_issues@)[kk] == entries0[j0].issue_key@);
                                    assert(outcome.failed_issues@[kk]@ == entries0[j0].issue_key@);
                                    assert(seq_contains_str(
                                        outcome.failed_issues@,
                                        mid[j0].issue_key@,
                                    ));
                                }
                            }
                            assert(spec_deletion_candidate(entries0[j0], target, fetches@));
                        } else {
                            assert(content_from_some_relevant(mid[j0], whole, target, now@));
                            let k = choose|k: int|
                                0 <= k < whole.len() && (#[trigger] whole[k]).local_date == target
                                    && content_from(mid[j0], whole[k], now@);
                            assert(has_remote_id(mid[j0], whole[k].remote_id@));
                            assert(rid == whole[k].remote_id@);
                            lemma_relevant_id_member(whole, target, k);
                            let kk = choose|kk: int|
                                0 <= kk < relevant_ids_of(whole, target).len() && relevant_ids_of(
                                    whole,
                                    target,
                                )[kk] == rid;
                            assert(views_of(outcome.seen@)[kk] == rid);
                            assert(outcome.seen@[kk]@ == rid);
                            assert(seq_contains_str(outcome.seen@, rid));
                        }
                    }
                }
                assert(!candidates@.contains(mid[j0].id)) by {
                    if candidates@.contains(mid[j0].id) {
                        let kc = choose|kc: int|
                            0 <= kc < candidates@.len() && candidates@[kc] == mid[j0].id;
                        assert(candidate_id(
                            mid,
                            candidates@[kc],
                            target,
                            outcome.seen@,
                            outcome.failed_issues@,
                        ));
                        let ii = choose|ii: int|
                            0 <= ii < mid.len() && ii < mid.len() && (#[trigger] mid[ii]).id
                                == candidates@[kc] && deletion_candidate(
                                mid[ii],
                                target,
                                outcome.seen@,
                                outcome.failed_issues@,
                            );
                        if ii != j0 {
                            if ii < j0 {
                                assert(mid[ii].id != mid[j0].id);
                            } else {
                                assert(mid[j0].id != mid[ii].id);
                            }
                        }
                    }
                }
            }
            assert forall|j0: int|
                0 <= j0 < entries0.len() && !spec_deletion_candidate(
                    (#[trigger] entries0[j0]),
                    target,
                    fetches@,
                ) implies survives(entries0, ledger.entries@, j0) by {
                assert(seq_has_row(ledger.entries@, mid[j0]));
                let jf = choose|jf: int|
                    0 <= jf < ledger.entries@.len() && #[trigger] ledger.entries@[jf] == mid[j0];
                assert(ledger.entries@[jf].id == entries0[j0].id && ledger.entries@[jf].issue_key
                    == entries0[j0].issue_key && ledger.entries@[jf].sync_status
                    == entries0[j0].sync_status && ledger.entries@[jf].jira_worklog_id
                    == entries0[j0].jira_worklog_id);
            }
            assert forall|j0: int|
                0 <= j0 < entries0.len() && !row_would_change(
                    (#[trigger] entries0[j0]),
                    whole,
                    target,
                ) && !spec_deletion_candidate(entries0[j0], target, fetches@) implies seq_has_row(
                ledger.entries@,
                entries0[j0],
            ) by {
                assert(mid[j0] == entries0[j0]);
                assert(seq_has_row(ledger.entries@, mid[j0]));
            }
            assert(mid.len() == entries0.len() + outcome.counts.imported);
            assert(ledger.entries@.len() + deleted == entries0.len()
                + outcome.counts.imported);
        }
    } else {
        proof {
            assert forall|j0: int|
                0 <= j0 < entries0.len() && failed_keys_of(fetches@).contains(
                    (#[trigger] entries0[j0]).issue_key@,
                ) implies survives(entries0, ledger.entries@, j0) by {
                assert(ledger.entries@[j0].id == entries0[j0].id);
            }
            assert forall|j0: int|
                0 <= j0 < entries0.len() && !spec_deletion_candidate(
                    (#[trigger] entries0[j0]),
                    target,
                    fetches@,
                ) implies survives(entries0, ledger.entries@, j0) by {
                assert(ledger.entries@[j0].id == entries0[j0].id);
            }
            assert forall|j0: int|
                0 <= j0 < entries0.len() && !row_would_change(
                    (#[trigger] entries0[j0]),
                    annotated_of(fetches@),
                    target,
                ) implies seq_has_row(ledger.entries@, entries0[j0]) by {
                assert(ledger.entries@[j0] == entries0[j0]);
            }
            assert(ledger.entries@.len() + deleted == entries0.len()
                + outcome.counts.imported);
        }
    }
    proof {
        assert forall|j: int| 0 <= j < ledger.entries@.len() implies ({
            let w = #[trigger] ledger.entries@[j];
            (exists|j0: int|
                0 <= j0 < entries0.len() && (w == (#[trigger] entries0[j0]) || (w.id
                    == entries0[j0].id && content_from_some_relevant(
                    w,
                    annotated_of(fetches@),
                    target,
                    now@,
                )))) || (content_from_some_relevant(w, annotated_of(fetches@), target, now@)
                && key_of_some_fetch(w, fetches@) && w.sync_status is Synced)
        }) by {
            let w = ledger.entries@[j];
            assert(seq_has_row(mid, w) || ledger.entries@ == mid) by {
                if !jql_failed {
                } else {
                    assert(ledger.entries@ == mid);
                }
            }
            let jm = if ledger.entries@ == mid {
                j
            } else {
                choose|jm: int| 0 <= jm < mid.len() && #[trigger] mid[jm] == w
            };
            assert(0 <= jm < mid.len() && mid[jm] == w);
            if jm < entries0.len() {
                assert(w == entries0[jm] || (content_from_some_relevant(
                    w,
                    annotated_of(fetches@),
                    target,
                    now@,
                ) && w.sync_error == entries0[jm].sync_error && w.created_at
                    == entries0[jm].created_at));
                assert(w.id == entries0[jm].id) by {
                    assert(preserves_rows(entries0, mid));
                }
            } else {
                assert(content_from_some_relevant(w, annotated_of(fetches@), target, now@)
                    && key_of_some_fetch(w, fetches@) && w.sync_status is Synced);
            }
        }
    }
    ImportSummary {
        imported: outcome.counts.imported,
        updated: outcome.counts.updated,
        deleted,
        skipped: outcome.counts.skipped,
        issues_checked: fetches.len() as u32,
        warnings,
    }
}

/// A reconciliation fold touches no key other than the relevant ids.
proof fn lemma_fold_frame(
    m: Map<Seq<char>, Option<Seq<char>>>,
    items: Seq<AnnotatedRemote>,
    target: Date,
    key: Seq<char>,
)
    requires
        forall|k: int|
            0 <= k < items.len() && (#[trigger] items[k]).local_date == target
                ==> items[k].remote_id@ != key,
    ensures
        apply_remote_seq(m, items, target).0.dom().contains(key) == m.dom().contains(key),
        m.dom().contains(key) ==> apply_remote_seq(m, items, target).0[key] == m[key],
    decreases items.len(),
{
    if items.len() == 0 {
    } else {
        let a = items[0];
        let rest = items.drop_first();
        assert(forall|k: int|
            0 <= k < rest.len() && (#[trigger] rest[k]).local_date == target ==> rest[k].remote_id@
                != key) by {
            assert(forall|k: int| 0 <= k < rest.len() ==> rest[k] == items[k + 1]);
        }
        if a.local_date != target {
            lemma_fold_frame(m, rest, target, key);
        } else {
            assert(a.remote_id@ != key);
            if !m.dom().contains(a.remote_id@) || m[a.remote_id@] != Some(a.marker@) {
                lemma_fold_frame(m.insert(a.remote_id@, Some(a.marker@)), rest, target, key);
            } else {
                lemma_fold_frame(m, rest, target, key);
            }
        }
    }
}

/// After a pass, the map records every relevant worklog's marker.
proof fn lemma_fold_records_markers(
    m: Map<Seq<char>, Option<Seq<char>>>,
    items: Seq<AnnotatedRemote>,
    target: Date,
)
    requires
        forall|i: int, j: int|
            0 <= i < j < items.len() && (#[trigger] items[i]).local_date == target && (
            #[trigger] items[j]).local_date == target ==> items[i].remote_id@
                != items[j].remote_id@,
    ensures
        forall|k: int|
            0 <= k < items.len() && (#[trigger] items[k]).local_date == target ==> ({
                let mf = apply_remote_seq(m, items, target).0;
                mf.dom().contains(items[k].remote_id@) && mf[items[k].remote_id@] == Some(
                    items[k].marker@,
                )
            }),
    decreases items.len(),
{
    if items.len() == 0 {
    } else {
        let a = items[0];
        let rest = items.drop_first();
        assert(forall|k: int| 0 <= k < rest.len() ==> rest[k] == items[k + 1]);
        assert(forall|i: int, j: int|
            0 <= i < j < rest.len() && (#[trigger] rest[i]).local_date == target && (
            #[trigger] rest[j]).local_date == target ==> rest[i].remote_id@ != rest[j].remote_id@);
        let mf = apply_remote_seq(m, items, target).0;
        if a.local_date != target {
            lemma_fold_records_markers(m, rest, target);
            assert(apply_remote_seq(m, items, target).0 == apply_remote_seq(m, rest, target).0);
            assert forall|k: int|
                0 <= k < items.len() && (#[trigger] items[k]).local_date == target implies ({
                mf.dom().contains(items[k].remote_id@) && mf[items[k].remote_id@] == Some(
                    items[k].marker@,
                )
            }) by {
                assert(k > 0);
                assert(items[k] == rest[k - 1]);
            }
        } else {
            let m1 = if !m.dom().contains(a.remote_id@) || m[a.remote_id@] != Some(a.marker@) {
                m.insert(a.remote_id@, Some(a.marker@))
            } else {
                m
            };
            assert(m1.dom().contains(a.remote_id@) && m1[a.remote_id@] == Some(a.marker@));
            assert(apply_remote_seq(m, items, target).0 == apply_remote_seq(m1, rest, target).0);
            lemma_fold_records_markers(m1, rest, target);
            assert(forall|k: int|
                0 <= k < rest.len() && (#[trigger] rest[k]).local_date == target
                    ==> rest[k].remote_id@ != a.remote_id@) by {
                assert(forall|k: int|
                    0 <= k < rest.len() && (#[trigger] rest[k]).local_date == target ==> items[k
                        + 1].local_date == target);
            }
            lemma_fold_frame(m1, rest, target, a.remote_id@);
            assert forall|k: int|
                0 <= k < items.len() && (#[trigger] items[k]).local_date == target implies ({
                mf.dom().contains(items[k].remote_id@) && mf[items[k].remote_id@] == Some(
                    items[k].marker@,
                )
            }) by {
                if k > 0 {
                    assert(items[k] == rest[k - 1]);
                }
            }
        }
    }
}

/// Idempotent re-import: a second pass over the same remote data, from
/// the state the first pass left, imports nothing, updates nothing, and
/// skips every worklog of the target date. Stated for remote data whose
/// worklogs of the target date carry distinct remote ids, as a remote
/// system delivers them; a payload repeating one remote id with two
/// different change markers would alternate between the two on every
/// pass.
pub proof fn lemma_reimport_idempotent(
    m0: Map<Seq<char>, Option<Seq<char>>>,
    items: Seq<AnnotatedRemote>,
    target: Date,
)
    requires
        forall|i: int, j: int|
            0 <= i < j < items.len() && (#[trigger] items[i]).local_date == target && (
            #[trigger] items[j]).local_date == target ==> items[i].remote_id@
                != items[j].remote_id@,
    ensures
        ({
            let r1 = apply_remote_seq(m0, items, target);
            let r2 = apply_remote_seq(r1.0, items, target);
            &&& r2.0 == r1.0
            &&& r2.1 == 0
            &&& r2.2 == 0
            &&& r2.3 == relevant_ids_of(items, target).len()
        }),
    decreases items.len(),
{
    if items.len() == 0 {
    } else {
        let a = items[0];
        let rest = items.drop_first();
        assert(forall|k: int| 0 <= k < rest.len() ==> rest[k] == items[k + 1]);
        assert(forall|i: int, j: int|
            0 <= i < j < rest.len() && (#[trigger] rest[i]).local_date == target && (
            #[trigger] rest[j]).local_date == target ==> rest[i].remote_id@ != rest[j].remote_id@);
        assert(items =~= seq![a] + rest);
        lemma_relevant_ids_concat(seq![a], rest, target);
        assert(seq![a].drop_last() =~= Seq::<AnnotatedRemote>::empty());
        assert(relevant_ids_of(Seq::<AnnotatedRemote>::empty(), target) == Seq::<Seq<char>>::empty());
        assert(seq![a].last() == a);
        if a.local_date == target {
            assert(relevant_ids_of(seq![a], target) =~= seq![a.remote_id@]);
        } else {
            assert(relevant_ids_of(seq![a], target) =~= Seq::<Seq<char>>::empty());
        }
        let r1 = apply_remote_seq(m0, items, target);
        if a.local_date != target {
            lemma_reimport_idempotent(m0, rest, target);
            assert(apply_remote_seq(r1.0, items, target).0 == apply_remote_seq(
                r1.0,
                rest,
                target,
            ).0);
        } else {
            let m1 = if !m0.dom().contains(a.remote_id@) || m0[a.remote_id@] != Some(a.marker@) {
                m0.insert(a.remote_id@, Some(a.marker@))
            } else {
                m0
            };
            assert(m1.dom().contains(a.remote_id@) && m1[a.remote_id@] == Some(a.marker@));
            assert(r1.0 == apply_remote_seq(m1, rest, target).0);
            lemma_fold_records_markers(m1, rest, target);
            assert(forall|k: int|
                0 <= k < rest.len() && (#[trigger] rest[k]).local_date == target
                    ==> rest[k].remote_id@ != a.remote_id@);
            lemma_fold_frame(m1, rest, target, a.remote_id@);
            assert(r1.0.dom().contains(a.remote_id@) && r1.0[a.remote_id@] == Some(a.marker@));
            lemma_reimport_idempotent(m1, rest, target);
        }
    }
}

} // verus!
