//! The push engine: upload locally created entries to the remote system
//! and record the outcome per entry.
//!
//! A push is two-phase. The engine first prepares a request from the
//! ledger — the wire-format start instant, the duration, the comment —
//! and the transport performs the call; the outcome is then recorded:
//! success turns the entry `synced` with its remote id, failure turns it
//! `error` with the message. A batch processes every `pending` entry of
//! one calendar day in order; one entry's failure never aborts the batch.

use vstd::prelude::*;
use crate::dates::{date_str_of, date_to_string, Date};
use crate::errors::{StateIssue, SyncError};
use crate::ledger::{
    contains_id, contains_remote_id, entry_index_of, lemma_entry_index_is, mark_error_rel,
    mark_synced_rel, remote_edit_rel, Ledger, SyncStatus, Worklog,
};
use crate::strutil::{lex_le, views_of};
use crate::timefmt::{format_for_jira, formattable_instant, wire_text_of};

verus! {

/// What a batch push reports: the counts and one `issue: message` line
/// per failed entry.
#[derive(Debug)]
pub struct PushSummary {
    pub total: u32,
    pub success: u32,
    pub failed: u32,
    pub errors: Vec<String>,
}

/// One upload the transport is asked to perform.
#[derive(Debug)]
pub struct PushRequest {
    pub entry_id: i64,
    pub issue_key: String,
    pub started_wire: String,
    pub duration_seconds: i64,
    pub description: String,
}

/// How a prepared request relates to the ledger entry it uploads.
pub open spec fn push_request_ok(req: PushRequest, w: Worklog) -> bool {
    &&& req.entry_id == w.id
    &&& req.issue_key@ == w.issue_key@
    &&& req.duration_seconds == w.duration_seconds
    &&& req.description@ == w.description@
    &&& formattable_instant(w.started_at@) matches Some(p) && req.started_wire@ == wire_text_of(
        p.0,
        p.1,
    )
}

/// Prepare the upload of one entry. Fails `NotFound` for a missing id,
/// `AlreadySynced` for a `synced` entry, and `InvalidTimestamp` when the
/// stored start instant does not parse; otherwise the request carries the
/// entry's data with the start instant in wire format.
pub fn prepare_push(ledger: &Ledger, worklog_id: i64) -> (r: Result<PushRequest, SyncError>)
    requires
        ledger.wf(),
    ensures
        r == Err::<PushRequest, SyncError>(SyncError::NotFound) <==> !contains_id(
            ledger.entries@,
            worklog_id,
        ),
        contains_id(ledger.entries@, worklog_id) ==> ({
            let w = ledger.entries@[entry_index_of(ledger.entries@, worklog_id)];
            if w.sync_status is Synced {
                r == Err::<PushRequest, SyncError>(
                    SyncError::InvalidState(StateIssue::AlreadySynced),
                )
            } else if formattable_instant(w.started_at@) is None {
                r == Err::<PushRequest, SyncError>(SyncError::InvalidTimestamp)
            } else {
                r matches Ok(req) && push_request_ok(req, w)
            }
        }),
{
    let idx = match ledger.find_index(worklog_id) {
        Some(i) => i,
        None => {
            return Err(SyncError::NotFound);
        },
    };
    proof {
        lemma_entry_index_is(ledger.entries@, idx as int, worklog_id);
    }
    let w = &ledger.entries[idx];
    match w.sync_status {
        SyncStatus::Synced => {
            return Err(SyncError::InvalidState(StateIssue::AlreadySynced));
        },
        _ => {},
    }
    let started_wire = match format_for_jira(w.started_at.as_str()) {
        Ok(s) => s,
        Err(e) => {
            return Err(e);
        },
    };
    Ok(
        PushRequest {
            entry_id: w.id,
            issue_key: w.issue_key.clone(),
            started_wire,
            duration_seconds: w.duration_seconds,
            description: w.description.clone(),
        },
    )
}

/// Record what the transport reported for one pushed entry: a remote id
/// on success — the entry becomes `synced` — or a message on failure —
/// the entry becomes `error` and the message is passed back. Either way
/// the outcome is recorded before this returns. A remote id that another
/// entry already carries leaves the ledger unchanged, as the storage
/// uniqueness constraint would have.
pub fn apply_push_outcome(
    ledger: &mut Ledger,
    entry_id: i64,
    outcome: Result<String, String>,
    now: String,
) -> (r: Result<(), String>)
    requires
        old(ledger).wf(),
    ensures
        final(ledger).wf(),
        final(ledger).next_id == old(ledger).next_id,
        !contains_id(old(ledger).entries@, entry_id) ==> *final(ledger) == *old(ledger),
        r is Ok <==> outcome is Ok,
        r matches Err(m) ==> (outcome matches Err(msg) && m@ == msg@),
        contains_id(old(ledger).entries@, entry_id) ==> ({
            let i = entry_index_of(old(ledger).entries@, entry_id);
            match outcome {
                Ok(rid) => (final(ledger).entries@ == old(ledger).entries@.update(
                    i,
                    final(ledger).entries@[i],
                ) && mark_synced_rel(
                    old(ledger).entries@[i],
                    final(ledger).entries@[i],
                    rid@,
                    now@,
                )) || (*final(ledger) == *old(ledger) && contains_remote_id(
                    old(ledger).entries@,
                    rid@,
                )),
                Err(msg) => final(ledger).entries@ == old(ledger).entries@.update(
                    i,
                    final(ledger).entries@[i],
                ) && mark_error_rel(
                    old(ledger).entries@[i],
                    final(ledger).entries@[i],
                    msg@,
                    now@,
                ),
            }
        }),
{
    match outcome {
        Ok(rid) => {
            let res = ledger.mark_synced(entry_id, rid, now);
            proof {
                if contains_id(old(ledger).entries@, entry_id) {
                    assert(res != Err::<(), SyncError>(SyncError::NotFound));
                }
            }
            Ok(())
        },
        Err(msg) => {
            let m = msg.clone();
            let res = ledger.mark_error(entry_id, msg, now);
            Err(m)
        },
    }
}

/// Whether an entry is `pending` with a start instant on the given day:
/// at or after the day's first second and at or before its last, in text
/// order, as the batch selection reads the stored text.
pub open spec fn pending_on_date(w: Worklog, d: Date) -> bool {
    &&& w.sync_status is Pending
    &&& lex_le(date_str_of(d) + "T00:00:00"@, w.started_at@)
    &&& lex_le(w.started_at@, date_str_of(d) + "T23:59:59"@)
}

/// A batch of uploads in flight: the queue of uploadable requests, how
/// far it has come, and what it has recorded. Selected entries whose
/// stored start could not be rendered are recorded as failures up front;
/// `total` counts them together with the queue.
#[derive(Debug)]
pub struct PushBatch {
    pub queue: Vec<PushRequest>,
    pub next: usize,
    pub success: u32,
    pub errors: Vec<String>,
    pub total: u32,
}

impl PushBatch {
    /// The batch's bookkeeping invariant: every recorded outcome is a
    /// success or an error line, and the failures recorded up front make
    /// up the difference between the selection and the queue.
    pub open spec fn wf(self) -> bool {
        &&& self.next <= self.queue@.len()
        &&& self.queue@.len() <= self.total <= u32::MAX
        &&& self.success + self.errors@.len() == self.next + (self.total - self.queue@.len())
    }

    /// Whether every queued upload has been performed and recorded.
    pub open spec fn done(self) -> bool {
        self.next == self.queue@.len()
    }
}

/// Whether an entry's stored start can be rendered in wire format.
pub open spec fn formattable_entry(w: Worklog) -> bool {
    formattable_instant(w.started_at@) is Some
}

/// The error line recorded for a selected entry whose stored start
/// cannot be rendered in wire format.
pub open spec fn invalid_stamp_line(w: Worklog) -> Seq<char> {
    w.issue_key@ + ": "@ + "Invalid timestamp"@
}

/// Start a batch for one calendar day: every `pending` entry whose start
/// falls on that day is selected, in ledger order. An entry whose stored
/// start can be rendered is queued for upload; one whose start cannot be
/// rendered is recorded as a failed entry with an `issue: message` line,
/// and the batch goes on — one entry's failure never aborts the batch.
pub fn start_push_batch(ledger: &Ledger, date: &Date) -> (batch: PushBatch)
    requires
        ledger.wf(),
        date.valid(),
        ledger.entries@.len() <= u32::MAX,
    ensures
        batch.wf(),
        batch.next == 0,
        batch.success == 0,
        ({
            let sel = ledger.entries@.filter(|w: Worklog| pending_on_date(w, *date));
            let good = sel.filter(|w: Worklog| formattable_entry(w));
            let bad = sel.filter(|w: Worklog| !formattable_entry(w));
            &&& batch.total == sel.len()
            &&& batch.queue@.len() == good.len()
            &&& forall|k: int|
                0 <= k < good.len() ==> push_request_ok(#[trigger] batch.queue@[k], good[k])
            &&& views_of(batch.errors@) == bad.map_values(|w: Worklog| invalid_stamp_line(w))
        }),
{
    let ghost pred = |w: Worklog| pending_on_date(w, *date);
    let ghost fmt_ok = |w: Worklog| formattable_entry(w);
    let ghost fmt_bad = |w: Worklog| !formattable_entry(w);
    let ghost line_of = |w: Worklog| invalid_stamp_line(w);
    let day = date_to_string(*date);
    let from = day.clone().concat("T00:00:00");
    let to = day.concat("T23:59:59");
    let n = ledger.entries.len();
    let mut queue: Vec<PushRequest> = Vec::new();
    let mut errors: Vec<String> = Vec::new();
    let mut total: u32 = 0;
    proof {
        assert(ledger.entries@.subrange(0, 0).filter(pred) =~= Seq::<Worklog>::empty());
        assert(Seq::<Worklog>::empty().filter(fmt_ok) =~= Seq::<Worklog>::empty());
        assert(Seq::<Worklog>::empty().filter(fmt_bad) =~= Seq::<Worklog>::empty());
        assert(views_of(errors@) =~= Seq::<Worklog>::empty().map_values(line_of));
    }
    let mut i: usize = 0;
    while i < n
        invariant
            n == ledger.entries@.len(),
            n <= u32::MAX,
            i <= n,
            ledger.wf(),
            from@ == date_str_of(*date) + "T00:00:00"@,
            to@ == date_str_of(*date) + "T23:59:59"@,
            pred == (|w: Worklog| pending_on_date(w, *date)),
            fmt_ok == (|w: Worklog| formattable_entry(w)),
            fmt_bad == (|w: Worklog| !formattable_entry(w)),
            line_of == (|w: Worklog| invalid_stamp_line(w)),
            ({
                let sel = ledger.entries@.subrange(0, i as int).filter(pred);
                let good = sel.filter(fmt_ok);
                let bad = sel.filter(fmt_bad);
                &&& total == sel.len()
                &&& sel.len() <= i
                &&& queue@.len() + errors@.len() == total
                &&& queue@.len() == good.len()
                &&& forall|k: int|
                    0 <= k < good.len() ==> push_request_ok(#[trigger] queue@[k], good[k])
                &&& views_of(errors@) == bad.map_values(line_of)
            }),
        decreases n - i,
    {
        let ghost pre = ledger.entries@.subrange(0, i as int);
        let ghost cur = ledger.entries@.subrange(0, i + 1);
        let ghost selp = pre.filter(pred);
        proof {
            assert(cur.drop_last() =~= pre);
            assert(cur.last() == ledger.entries@[i as int]);
            reveal_with_fuel(Seq::filter, 2);
        }
        let w = &ledger.entries[i];
        let is_pending = match w.sync_status {
            SyncStatus::Pending => true,
            _ => false,
        };
        if is_pending && crate::strutil::str_le(from.as_str(), w.started_at.as_str())
            && crate::strutil::str_le(w.started_at.as_str(), to.as_str()) {
            proof {
                assert(pred(ledger.entries@[i as int]));
                assert(cur.filter(pred) == selp.push(ledger.entries@[i as int]));
                assert(selp.push(ledger.entries@[i as int]).drop_last() =~= selp);
            }
            total = total + 1;
            match format_for_jira(w.started_at.as_str()) {
                Ok(started_wire) => {
                    proof {
                        assert(fmt_ok(ledger.entries@[i as int]));
                        assert(cur.filter(pred).filter(fmt_ok) == selp.filter(fmt_ok).push(
                            ledger.entries@[i as int],
                        ));
                        assert(cur.filter(pred).filter(fmt_bad) == selp.filter(fmt_bad));
                    }
                    let req = PushRequest {
                        entry_id: w.id,
                        issue_key: w.issue_key.clone(),
                        started_wire,
                        duration_seconds: w.duration_seconds,
                        description: w.description.clone(),
                    };
                    queue.push(req);
                },
                Err(_) => {
                    proof {
                        assert(fmt_bad(ledger.entries@[i as int]));
                        assert(cur.filter(pred).filter(fmt_ok) == selp.filter(fmt_ok));
                        assert(cur.filter(pred).filter(fmt_bad) == selp.filter(fmt_bad).push(
                            ledger.entries@[i as int],
                        ));
                    }
                    let msg = SyncError::InvalidTimestamp.message();
                    let line = w.issue_key.clone().concat(": ").concat(msg.as_str());
                    proof {
                        assert(line@ =~= invalid_stamp_line(ledger.entries@[i as int]));
                    }
                    let ghost errors_pre = errors@;
                    errors.push(line);
                    proof {
                        let ghost wv = ledger.entries@[i as int];
                        let ghost badp = selp.filter(fmt_bad);
                        assert(errors@ == errors_pre.push(line));
                        assert(views_of(errors_pre).len() == errors_pre.len());
                        assert(errors_pre.len() == badp.len()) by {
                            assert(badp.map_values(line_of).len() == badp.len());
                        }
                        assert forall|k: int| 0 <= k < errors@.len() implies views_of(errors@)[k]
                            == badp.push(wv).map_values(line_of)[k] by {
                            if k < errors@.len() - 1 {
                                assert(errors@[k] == errors_pre[k]);
                                assert(views_of(errors_pre)[k] == errors_pre[k]@);
                                assert(views_of(errors_pre)[k] == badp.map_values(line_of)[k]);
                                assert(badp.push(wv)[k] == badp[k]);
                            } else {
                                assert(errors@[k] == line);
                                assert(badp.push(wv)[k] == wv);
                            }
                        }
                        assert(views_of(errors@) =~= badp.push(wv).map_values(line_of));
                    }
                },
            }
        } else {
            proof {
                assert(!pred(ledger.entries@[i as int]));
                assert(cur.filter(pred) == selp);
            }
        }
        i = i + 1;
    }
    proof {
        assert(ledger.entries@.subrange(0, n as int) =~= ledger.entries@);
    }
    PushBatch { queue, next: 0, success: 0, errors, total }
}

/// The next upload a batch asks the transport to perform, if any is left.
pub fn current_request(batch: &PushBatch) -> (r: Option<&PushRequest>)
    requires
        batch.wf(),
    ensures
        batch.done() ==> r is None,
        !batch.done() ==> (r matches Some(req) && *req == batch.queue@[batch.next as int]),
{
    if batch.next < batch.queue.len() {
        let el = &batch.queue[batch.next];
        assert(*el == batch.queue@[batch.next as int]);
        Some(el)
    } else {
        None
    }
}

/// Record the transport's outcome for the batch's current upload and move
/// on: a success is counted, a failure is recorded on the entry and
/// collected as an `issue: message` line. The batch never aborts.
pub fn record_batch_outcome(
    batch: &mut PushBatch,
    ledger: &mut Ledger,
    outcome: Result<String, String>,
    now: String,
) -> (r: ())
    requires
        old(batch).wf(),
        !old(batch).done(),
        old(ledger).wf(),
    ensures
        final(batch).wf(),
        final(ledger).wf(),
        final(ledger).next_id == old(ledger).next_id,
        final(batch).queue == old(batch).queue,
        final(batch).total == old(batch).total,
        final(batch).next == old(batch).next + 1,
        outcome is Ok ==> final(batch).success == old(batch).success + 1 && final(batch).errors
            == old(batch).errors,
        outcome matches Err(msg) ==> final(batch).success == old(batch).success && final(batch).errors@ == old(batch).errors@.push(final(batch).errors@.last()) && final(batch).errors@.last()@ == old(batch).queue@[old(batch).next as int].issue_key@ + ": "@ + msg@,
        ({
            let req = old(batch).queue@[old(batch).next as int];
            !contains_id(old(ledger).entries@, req.entry_id) ==> *final(ledger) == *old(ledger)
        }),
        ({
            let req = old(batch).queue@[old(batch).next as int];
            contains_id(old(ledger).entries@, req.entry_id) ==> ({
                let i = entry_index_of(old(ledger).entries@, req.entry_id);
                match outcome {
                    Ok(rid) => (final(ledger).entries@ == old(ledger).entries@.update(
                        i,
                        final(ledger).entries@[i],
                    ) && mark_synced_rel(
                        old(ledger).entries@[i],
                        final(ledger).entries@[i],
                        rid@,
                        now@,
                    )) || (*final(ledger) == *old(ledger) && contains_remote_id(
                        old(ledger).entries@,
                        rid@,
                    )),
                    Err(msg) => final(ledger).entries@ == old(ledger).entries@.update(
                        i,
                        final(ledger).entries@[i],
                    ) && mark_error_rel(
                        old(ledger).entries@[i],
                        final(ledger).entries@[i],
                        msg@,
                        now@,
                    ),
                }
            })
        }),
{
    let entry_id = batch.queue[batch.next].entry_id;
    match apply_push_outcome(ledger, entry_id, outcome, now) {
        Ok(()) => {
            batch.success = batch.success + 1;
        },
        Err(msg) => {
            let line = batch.queue[batch.next].issue_key.clone().concat(": ").concat(msg.as_str());
            proof {
                assert(line@ =~= batch.queue@[batch.next as int].issue_key@ + ": "@ + msg@);
            }
            batch.errors.push(line);
        },
    }
    batch.next = batch.next + 1;
}

/// Close a finished batch into its summary: the selection size, the
/// successes, the failures as the difference, and the collected error
/// lines — one per failed entry.
pub fn finish_batch(batch: PushBatch) -> (r: PushSummary)
    requires
        batch.wf(),
        batch.done(),
    ensures
        r.total == batch.total,
        r.success == batch.success,
        r.failed == batch.total - batch.success,
        r.errors == batch.errors,
        r.failed == r.errors@.len(),
{
    PushSummary {
        total: batch.total,
        success: batch.success,
        failed: batch.total - batch.success,
        errors: batch.errors,
    }
}

/// What a remote-side update is asked to change: the merged fields, the
/// wire-format start, and where to send them.
#[derive(Debug)]
pub struct RemoteUpdateRequest {
    pub entry_id: i64,
    pub issue_key: String,
    pub remote_id: String,
    pub duration_seconds: i64,
    pub description: String,
    pub started_at: String,
    pub started_wire: String,
}

/// How an update request relates to the entry and the caller's partial
/// fields: provided values replace stored ones, and the merged start is
/// also rendered in wire format.
pub open spec fn remote_update_request_ok(
    req: RemoteUpdateRequest,
    w: Worklog,
    duration_seconds: Option<i64>,
    description: Option<String>,
    started_at: Option<String>,
) -> bool {
    &&& req.entry_id == w.id
    &&& req.issue_key@ == w.issue_key@
    &&& w.jira_worklog_id matches Some(rid) && req.remote_id@ == rid@
    &&& req.duration_seconds == (match duration_seconds {
        Some(d) => d,
        None => w.duration_seconds,
    })
    &&& req.description@ == (match description {
        Some(d) => d@,
        None => w.description@,
    })
    &&& req.started_at@ == (match started_at {
        Some(t) => t@,
        None => w.started_at@,
    })
    &&& formattable_instant(req.started_at@) matches Some(p) && req.started_wire@
        == wire_text_of(p.0, p.1)
}

/// Prepare a remote-side update of a `synced` entry: merge the provided
/// fields over the stored ones and render the start in wire format.
/// Nothing is written locally; the write-back happens only after the
/// remote call succeeded. Fails `NotFound`, `NotSynced` for an entry not
/// `synced`, `NoRemoteId` for one without a remote id, and
/// `InvalidTimestamp` when the merged start does not parse.
pub fn prepare_remote_update(
    ledger: &Ledger,
    worklog_id: i64,
    duration_seconds: Option<i64>,
    description: Option<String>,
    started_at: Option<String>,
) -> (r: Result<RemoteUpdateRequest, SyncError>)
    requires
        ledger.wf(),
    ensures
        r == Err::<RemoteUpdateRequest, SyncError>(SyncError::NotFound) <==> !contains_id(
            ledger.entries@,
            worklog_id,
        ),
        contains_id(ledger.entries@, worklog_id) ==> ({
            let w = ledger.entries@[entry_index_of(ledger.entries@, worklog_id)];
            if !(w.sync_status is Synced) {
                r == Err::<RemoteUpdateRequest, SyncError>(
                    SyncError::InvalidState(StateIssue::NotSynced),
                )
            } else if w.jira_worklog_id is None {
                r == Err::<RemoteUpdateRequest, SyncError>(
                    SyncError::InvalidState(StateIssue::NoRemoteId),
                )
            } else {
                let merged_start = (match started_at {
                    Some(t) => t@,
                    None => w.started_at@,
                });
                if formattable_instant(merged_start) is None {
                    r == Err::<RemoteUpdateRequest, SyncError>(SyncError::InvalidTimestamp)
                } else {
                    r matches Ok(req) && remote_update_request_ok(
                        req,
                        w,
                        duration_seconds,
                        description,
                        started_at,
                    )
                }
            }
        }),
{
    let idx = match ledger.find_index(worklog_id) {
        Some(i) => i,
        None => {
            return Err(SyncError::NotFound);
        },
    };
    proof {
        lemma_entry_index_is(ledger.entries@, idx as int, worklog_id);
    }
    let w = &ledger.entries[idx];
    match w.sync_status {
        SyncStatus::Synced => {},
        _ => {
            return Err(SyncError::InvalidState(StateIssue::NotSynced));
        },
    }
    let remote_id = match &w.jira_worklog_id {
        Some(rid) => rid.clone(),
        None => {
            return Err(SyncError::InvalidState(StateIssue::NoRemoteId));
        },
    };
    let merged_duration = match duration_seconds {
        Some(d) => d,
        None => w.duration_seconds,
    };
    let merged_description = match description {
        Some(d) => d,
        None => w.description.clone(),
    };
    let merged_started = match started_at {
        Some(t) => t,
        None => w.started_at.clone(),
    };
    let started_wire = match format_for_jira(merged_started.as_str()) {
        Ok(s) => s,
        Err(e) => {
            return Err(e);
        },
    };
    Ok(
        RemoteUpdateRequest {
            entry_id: w.id,
            issue_key: w.issue_key.clone(),
            remote_id,
            duration_seconds: merged_duration,
            description: merged_description,
            started_at: merged_started,
            started_wire,
        },
    )
}

/// Write back a remote-confirmed update: only now do the merged fields
/// reach the ledger, with the remote id the update returned and a fresh
/// change marker. Nothing changed locally before the remote write was
/// confirmed.
pub fn commit_remote_update(
    ledger: &mut Ledger,
    req: &RemoteUpdateRequest,
    confirmed_remote_id: String,
    now: String,
) -> (r: Result<(), SyncError>)
    requires
        old(ledger).wf(),
        req.duration_seconds >= 0,
    ensures
        final(ledger).wf(),
        r is Err ==> *final(ledger) == *old(ledger),
        r == Err::<(), SyncError>(SyncError::NotFound) <==> !contains_id(
            old(ledger).entries@,
            req.entry_id,
        ),
        r is Err ==> r == Err::<(), SyncError>(SyncError::NotFound) || r == Err::<(), SyncError>(
            SyncError::InvalidState(StateIssue::DuplicateRemoteId),
        ),
        r == Err::<(), SyncError>(
            SyncError::InvalidState(StateIssue::DuplicateRemoteId),
        ) ==> contains_remote_id(old(ledger).entries@, confirmed_remote_id@),
        r matches Ok(()) ==> ({
            let i = entry_index_of(old(ledger).entries@, req.entry_id);
            &&& contains_id(old(ledger).entries@, req.entry_id)
            &&& final(ledger).entries@ == old(ledger).entries@.update(
                i,
                final(ledger).entries@[i],
            )
            &&& remote_edit_rel(
                old(ledger).entries@[i],
                final(ledger).entries@[i],
                req.duration_seconds,
                req.description@,
                req.started_at@,
                confirmed_remote_id@,
                now@,
            )
        }),
{
    ledger.apply_remote_edit(
        req.entry_id,
        req.duration_seconds,
        req.description.clone(),
        req.started_at.clone(),
        confirmed_remote_id,
        now,
    )
}

/// Where a remote-side deletion is sent.
#[derive(Debug)]
pub struct RemoteDeleteRequest {
    pub entry_id: i64,
    pub issue_key: String,
    pub remote_id: String,
}

/// Prepare a remote-side deletion of a `synced` entry. Nothing is removed
/// locally; the local row goes only after the remote system confirmed the
/// deletion. Fails `NotFound`, `NotSynced`, and `NoRemoteId` as an update
/// does.
pub fn prepare_remote_delete(ledger: &Ledger, worklog_id: i64) -> (r: Result<
    RemoteDeleteRequest,
    SyncError,
>)
    requires
        ledger.wf(),
    ensures
        r == Err::<RemoteDeleteRequest, SyncError>(SyncError::NotFound) <==> !contains_id(
            ledger.entries@,
            worklog_id,
        ),
        contains_id(ledger.entries@, worklog_id) ==> ({
            let w = ledger.entries@[entry_index_of(ledger.entries@, worklog_id)];
            if !(w.sync_status is Synced) {
                r == Err::<RemoteDeleteRequest, SyncError>(
                    SyncError::InvalidState(StateIssue::NotSynced),
                )
            } else if w.jira_worklog_id is None {
                r == Err::<RemoteDeleteRequest, SyncError>(
                    SyncError::InvalidState(StateIssue::NoRemoteId),
                )
            } else {
                r matches Ok(req) && req.entry_id == w.id && req.issue_key@ == w.issue_key@
                    && req.remote_id@ == w.jira_worklog_id->0@
            }
        }),
{
    let idx = match ledger.find_index(worklog_id) {
        Some(i) => i,
        None => {
            return Err(SyncError::NotFound);
        },
    };
    proof {
        lemma_entry_index_is(ledger.entries@, idx as int, worklog_id);
    }
    let w = &ledger.entries[idx];
    match w.sync_status {
        SyncStatus::Synced => {},
        _ => {
            return Err(SyncError::InvalidState(StateIssue::NotSynced));
        },
    }
    let remote_id = match &w.jira_worklog_id {
        Some(rid) => rid.clone(),
        None => {
            return Err(SyncError::InvalidState(StateIssue::NoRemoteId));
        },
    };
    Ok(RemoteDeleteRequest { entry_id: w.id, issue_key: w.issue_key.clone(), remote_id })
}

/// Remove the local row of a remote-confirmed deletion: the remote
/// worklog went first, and only then does the local row go.
pub fn commit_remote_delete(ledger: &mut Ledger, req: &RemoteDeleteRequest) -> (removed: bool)
    requires
        old(ledger).wf(),
    ensures
        final(ledger).wf(),
        removed <==> contains_id(old(ledger).entries@, req.entry_id),
        !removed ==> *final(ledger) == *old(ledger),
        removed ==> final(ledger).entries@ == old(ledger).entries@.remove(
            entry_index_of(old(ledger).entries@, req.entry_id),
        ),
{
    ledger.remove_by_id(req.entry_id)
}

} // verus!
