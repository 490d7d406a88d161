//! The local ledger of worklog entries.
//!
//! The ledger owns the durable rows of the engine. Its well-formedness
//! invariant carries what a storage schema would enforce with
//! constraints: local ids are unique and below the next free id, remote
//! worklog ids are unique among the entries that have one, a `synced` entry
//! always has a remote id, an `error` entry always has an error message, and
//! durations are never negative.

use vstd::prelude::*;
use vstd::multiset::Multiset;
use crate::errors::{StateIssue, SyncError};
use crate::strutil::{lex_le, lemma_lex_le_refl, lemma_lex_le_total, lemma_lex_le_trans, str_eq, str_le};

verus! {

/// The synchronization status of a ledger entry.
#[derive(Clone, Copy, Debug, PartialEq, Eq, Structural)]
pub enum SyncStatus {
    Pending,
    Synced,
    Error,
}

/// The status keyword used in filters and user-facing listings.
pub open spec fn status_text(st: SyncStatus) -> Seq<char> {
    match st {
        SyncStatus::Pending => "pending"@,
        SyncStatus::Synced => "synced"@,
        SyncStatus::Error => "error"@,
    }
}

impl SyncStatus {
    /// The status keyword, executable form.
    pub fn as_str(&self) -> (r: &'static str)
        ensures
            r@ == status_text(*self),
    {
        match self {
            SyncStatus::Pending => "pending",
            SyncStatus::Synced => "synced",
            SyncStatus::Error => "error",
        }
    }
}

/// A ledger entry: one durable record of time spent on an issue.
#[derive(Debug)]
pub struct Worklog {
    pub id: i64,
    pub issue_key: String,
    pub started_at: String,
    pub duration_seconds: i64,
    pub description: String,
    pub sync_status: SyncStatus,
    pub jira_worklog_id: Option<String>,
    pub sync_error: Option<String>,
    pub jira_updated_at: Option<String>,
    pub created_at: String,
    pub updated_at: String,
    pub issue_summary: Option<String>,
}

/// Copy an optional owned string.
pub fn clone_opt_string(o: &Option<String>) -> (r: Option<String>)
    ensures
        r == *o,
{
    match o {
        Some(s) => Some(s.clone()),
        None => None,
    }
}

impl Clone for Worklog {
    /// An exact copy of the entry.
    fn clone(&self) -> (r: Self)
        ensures
            r == *self,
    {
        Worklog {
            id: self.id,
            issue_key: self.issue_key.clone(),
            started_at: self.started_at.clone(),
            duration_seconds: self.duration_seconds,
            description: self.description.clone(),
            sync_status: self.sync_status,
            jira_worklog_id: clone_opt_string(&self.jira_worklog_id),
            sync_error: clone_opt_string(&self.sync_error),
            jira_updated_at: clone_opt_string(&self.jira_updated_at),
            created_at: self.created_at.clone(),
            updated_at: self.updated_at.clone(),
            issue_summary: clone_opt_string(&self.issue_summary),
        }
    }
}

/// Per-entry well-formedness: what the data model demands of a single row.
pub open spec fn wl_wf(w: Worklog) -> bool {
    &&& w.duration_seconds >= 0
    &&& w.sync_status is Synced ==> w.jira_worklog_id is Some
    &&& w.sync_status is Error ==> w.sync_error is Some
}

/// Whether an entry carries the given remote worklog id.
pub open spec fn has_remote_id(w: Worklog, rid: Seq<char>) -> bool {
    match w.jira_worklog_id {
        Some(s) => s@ == rid,
        None => false,
    }
}

/// Whether some entry of a sequence carries the given remote worklog id.
pub open spec fn contains_remote_id(s: Seq<Worklog>, rid: Seq<char>) -> bool {
    exists|i: int| 0 <= i < s.len() && has_remote_id(#[trigger] s[i], rid)
}

/// Whether some entry of a sequence carries the given local id.
pub open spec fn contains_id(s: Seq<Worklog>, id: i64) -> bool {
    exists|i: int| 0 <= i < s.len() && (#[trigger] s[i]).id == id
}

/// No two entries share a local id.
pub open spec fn unique_ids(s: Seq<Worklog>) -> bool {
    forall|i: int, j: int|
        0 <= i < j < s.len() ==> (#[trigger] s[i]).id != (#[trigger] s[j]).id
}

/// No two entries share a remote worklog id.
pub open spec fn unique_remote_ids(s: Seq<Worklog>) -> bool {
    forall|i: int, j: int|
        0 <= i < j < s.len() && s[i].jira_worklog_id is Some && s[j].jira_worklog_id is Some
            ==> (#[trigger] s[i].jira_worklog_id)->0@ != (#[trigger] s[j].jira_worklog_id)->0@
}

/// The position of the entry with a local id, where one exists.
pub open spec fn entry_index_of(s: Seq<Worklog>, id: i64) -> int {
    choose|i: int| 0 <= i < s.len() && (#[trigger] s[i]).id == id
}

/// The position of the entry with a remote worklog id, where one exists.
pub open spec fn remote_index_of(s: Seq<Worklog>, rid: Seq<char>) -> int {
    choose|i: int| 0 <= i < s.len() && has_remote_id(#[trigger] s[i], rid)
}

/// With unique local ids, `entry_index_of` is the one position holding `id`.
pub proof fn lemma_entry_index_is(s: Seq<Worklog>, idx: int, id: i64)
    requires
        unique_ids(s),
        0 <= idx < s.len(),
        s[idx].id == id,
    ensures
        entry_index_of(s, id) == idx,
        contains_id(s, id),
{
    assert(contains_id(s, id)) by {
        assert(0 <= idx < s.len() && s[idx].id == id);
    }
    let i = entry_index_of(s, id);
    assert(0 <= i < s.len() && s[i].id == id) by {
        assert(0 <= idx < s.len() && s[idx].id == id);
    }
    if i < idx {
        assert(s[i].id != s[idx].id);
    } else if idx < i {
        assert(s[idx].id != s[i].id);
    }
}

/// With unique remote ids, `remote_index_of` is the one position holding `rid`.
pub proof fn lemma_remote_index_is(s: Seq<Worklog>, idx: int, rid: Seq<char>)
    requires
        unique_remote_ids(s),
        0 <= idx < s.len(),
        has_remote_id(s[idx], rid),
    ensures
        remote_index_of(s, rid) == idx,
        contains_remote_id(s, rid),
{
    assert(contains_remote_id(s, rid)) by {
        assert(0 <= idx < s.len() && has_remote_id(s[idx], rid));
    }
    let i = remote_index_of(s, rid);
    assert(0 <= i < s.len() && has_remote_id(s[i], rid)) by {
        assert(0 <= idx < s.len() && has_remote_id(s[idx], rid));
    }
    if i < idx {
        assert(s[i].jira_worklog_id->0@ != s[idx].jira_worklog_id->0@);
    } else if idx < i {
        assert(s[idx].jira_worklog_id->0@ != s[i].jira_worklog_id->0@);
    }
}

/// Uniqueness of remote rows: a well-formed ledger never holds two rows
/// for one remote worklog id — two positions carrying the same remote id
/// are one position. A repeated insert of an already-present remote id is
/// a no-op (`insert_synced_or_ignore`), never a duplicate and never an
/// error, so two runs that both observe a remote worklog id not yet
/// present locally leave exactly one row for it.
pub proof fn lemma_remote_id_unique(l: Ledger, i: int, j: int, rid: Seq<char>)
    requires
        l.wf(),
        0 <= i < l.entries@.len(),
        0 <= j < l.entries@.len(),
        has_remote_id(l.entries@[i], rid),
        has_remote_id(l.entries@[j], rid),
    ensures
        i == j,
{
    if i < j {
        assert(l.entries@[i].jira_worklog_id->0@ != l.entries@[j].jira_worklog_id->0@);
    } else if j < i {
        assert(l.entries@[j].jira_worklog_id->0@ != l.entries@[i].jira_worklog_id->0@);
    }
}

/// The local ledger: the entries and the next free local id.
pub struct Ledger {
    pub entries: Vec<Worklog>,
    pub next_id: i64,
}

impl Ledger {
    /// The ledger's invariant.
    pub open spec fn wf(self) -> bool {
        &&& 1 <= self.next_id
        &&& forall|i: int|
            0 <= i < self.entries@.len() ==> wl_wf(#[trigger] self.entries@[i]) && 1 <= self.entries@[i].id
                < self.next_id
        &&& unique_ids(self.entries@)
        &&& unique_remote_ids(self.entries@)
    }

    /// An empty ledger.
    pub fn new() -> (r: Ledger)
        ensures
            r.wf(),
            r.entries@.len() == 0,
            r.next_id == 1,
    {
        Ledger { entries: Vec::new(), next_id: 1 }
    }

    /// The position of the entry with a local id.
    pub fn find_index(&self, id: i64) -> (r: Option<usize>)
        ensures
            r matches Some(i) ==> i < self.entries@.len() && self.entries@[i as int].id == id,
            r is None ==> !contains_id(self.entries@, id),
    {
        let n = self.entries.len();
        let mut i: usize = 0;
        while i < n
            invariant
                n == self.entries@.len(),
                i <= n,
                forall|j: int| 0 <= j < i ==> (#[trigger] self.entries@[j]).id != id,
            decreases n - i,
        {
            if self.entries[i].id == id {
                return Some(i);
            }
            i = i + 1;
        }
        None
    }

    /// The position of the entry carrying a remote worklog id.
    pub fn find_by_remote_id(&self, rid: &str) -> (r: Option<usize>)
        ensures
            r matches Some(i) ==> i < self.entries@.len() && has_remote_id(
                self.entries@[i as int],
                rid@,
            ),
            r is None ==> !contains_remote_id(self.entries@, rid@),
    {
        let n = self.entries.len();
        let mut i: usize = 0;
        while i < n
            invariant
                n == self.entries@.len(),
                i <= n,
                forall|j: int| 0 <= j < i ==> !has_remote_id(#[trigger] self.entries@[j], rid@),
            decreases n - i,
        {
            let hit = match &self.entries[i].jira_worklog_id {
                Some(s) => str_eq(s.as_str(), rid),
                None => false,
            };
            if hit {
                return Some(i);
            }
            i = i + 1;
        }
        None
    }

    /// A copy of the entry with a local id.
    pub fn get(&self, id: i64) -> (r: Option<Worklog>)
        ensures
            r matches Some(w) ==> exists|i: int|
                0 <= i < self.entries@.len() && self.entries@[i] == w && w.id == id,
            r is None ==> !contains_id(self.entries@, id),
    {
        match self.find_index(id) {
            Some(i) => {
                let w = self.entries[i].clone();
                proof {
                    assert(exists|j: int|
                        0 <= j < self.entries@.len() && self.entries@[j] == w && w.id == id) by {
                        assert(self.entries@[i as int] == w);
                    }
                }
                Some(w)
            },
            None => None,
        }
    }

    /// Append a fresh `pending` entry and return its id.
    pub fn create_worklog(
        &mut self,
        issue_key: String,
        started_at: String,
        duration_seconds: i64,
        description: String,
        now: String,
    ) -> (id: i64)
        requires
            old(self).wf(),
            old(self).next_id < i64::MAX,
            duration_seconds >= 0,
        ensures
            final(self).wf(),
            id == old(self).next_id,
            final(self).next_id == old(self).next_id + 1,
            final(self).entries@.len() == old(self).entries@.len() + 1,
            final(self).entries@ == old(self).entries@.push(final(self).entries@.last()),
            ({
                let w = final(self).entries@.last();
                &&& w.id == id
                &&& w.issue_key@ == issue_key@
                &&& w.started_at@ == started_at@
                &&& w.duration_seconds == duration_seconds
                &&& w.description@ == description@
                &&& w.sync_status is Pending
                &&& w.jira_worklog_id is None
                &&& w.sync_error is None
                &&& w.jira_updated_at is None
                &&& w.created_at@ == now@
                &&& w.updated_at@ == now@
                &&& w.issue_summary is None
            }),
    {
        let id = self.next_id;
        let created = now.clone();
        let w = Worklog {
            id,
            issue_key,
            started_at,
            duration_seconds,
            description,
            sync_status: SyncStatus::Pending,
            jira_worklog_id: None,
            sync_error: None,
            jira_updated_at: None,
            created_at: created,
            updated_at: now,
            issue_summary: None,
        };
        self.entries.push(w);
        self.next_id = id + 1;
        id
    }

    /// Edit a non-`synced` entry through the local-only path. Editing a
    /// `synced` entry always fails with `InvalidState` and changes nothing;
    /// an edit of an `error` entry clears it back to `pending`.
    pub fn update_worklog(
        &mut self,
        id: i64,
        issue_key: Option<String>,
        duration_seconds: Option<i64>,
        description: Option<String>,
        started_at: Option<String>,
        now: String,
    ) -> (r: Result<Worklog, SyncError>)
        requires
            old(self).wf(),
            duration_seconds matches Some(d) ==> d >= 0,
        ensures
            final(self).wf(),
            final(self).next_id == old(self).next_id,
            r is Err ==> *final(self) == *old(self),
            r == Err::<Worklog, SyncError>(SyncError::NotFound) <==> !contains_id(
                old(self).entries@,
                id,
            ),
            contains_id(old(self).entries@, id) ==> ({
                let i = entry_index_of(old(self).entries@, id);
                if old(self).entries@[i].sync_status is Synced {
                    r == Err::<Worklog, SyncError>(
                        SyncError::InvalidState(StateIssue::CannotEditSynced),
                    )
                } else if issue_key is None && duration_seconds is None && description is None
                    && started_at is None {
                    r matches Ok(w) && w == old(self).entries@[i] && *final(self) == *old(self)
                } else {
                    r matches Ok(w) && final(self).entries@ == old(self).entries@.update(i, w)
                        && local_update_rel(
                        old(self).entries@[i],
                        w,
                        issue_key,
                        duration_seconds,
                        description,
                        started_at,
                        now@,
                    )
                }
            }),
    {
        let idx = match self.find_index(id) {
            Some(i) => i,
            None => {
                return Err(SyncError::NotFound);
            },
        };
        proof {
            lemma_entry_index_is(self.entries@, idx as int, id);
        }
        match self.entries[idx].sync_status {
            SyncStatus::Synced => {
                return Err(SyncError::InvalidState(StateIssue::CannotEditSynced));
            },
            _ => {},
        }
        let any = issue_key.is_some() || duration_seconds.is_some() || description.is_some()
            || started_at.is_some();
        if !any {
            return Ok(self.entries[idx].clone());
        }
        let mut w2 = self.entries[idx].clone();
        match issue_key {
            Some(k) => {
                w2.issue_key = k;
            },
            None => {},
        }
        match duration_seconds {
            Some(d) => {
                w2.duration_seconds = d;
            },
            None => {},
        }
        match description {
            Some(d) => {
                w2.description = d;
            },
            None => {},
        }
        match started_at {
            Some(t) => {
                w2.started_at = t;
            },
            None => {},
        }
        match w2.sync_status {
            SyncStatus::Error => {
                w2.sync_status = SyncStatus::Pending;
                w2.sync_error = None;
            },
            _ => {},
        }
        w2.updated_at = now;
        let wr = w2.clone();
        let ghost l0 = *self;
        self.entries[idx] = w2;
        proof {
            lemma_wf_update_keep_rid(l0, *self, idx as int);
        }
        Ok(wr)
    }

    /// Delete a non-`synced` entry through the local-only path. Deleting a
    /// `synced` entry always fails with `InvalidState` and changes nothing.
    pub fn delete_worklog(&mut self, id: i64) -> (r: Result<(), SyncError>)
        requires
            old(self).wf(),
        ensures
            final(self).wf(),
            final(self).next_id == old(self).next_id,
            r is Err ==> *final(self) == *old(self),
            r == Err::<(), SyncError>(SyncError::NotFound) <==> !contains_id(
                old(self).entries@,
                id,
            ),
            contains_id(old(self).entries@, id) ==> ({
                let i = entry_index_of(old(self).entries@, id);
                if old(self).entries@[i].sync_status is Synced {
                    r == Err::<(), SyncError>(
                        SyncError::InvalidState(StateIssue::CannotDeleteSynced),
                    )
                } else {
                    r is Ok && final(self).entries@ == old(self).entries@.remove(i)
                }
            }),
    {
        let idx = match self.find_index(id) {
            Some(i) => i,
            None => {
                return Err(SyncError::NotFound);
            },
        };
        proof {
            lemma_entry_index_is(self.entries@, idx as int, id);
        }
        match self.entries[idx].sync_status {
            SyncStatus::Synced => {
                return Err(SyncError::InvalidState(StateIssue::CannotDeleteSynced));
            },
            _ => {},
        }
        let ghost l0 = *self;
        self.entries.remove(idx);
        proof {
            lemma_wf_remove(l0, *self, idx as int);
        }
        Ok(())
    }

    /// Record a successful push: the entry becomes `synced`, carries the
    /// remote id, and its error state is cleared.
    pub fn mark_synced(&mut self, id: i64, remote_id: String, now: String) -> (r: Result<
        (),
        SyncError,
    >)
        requires
            old(self).wf(),
        ensures
            final(self).wf(),
            final(self).next_id == old(self).next_id,
            r is Err ==> *final(self) == *old(self),
            r == Err::<(), SyncError>(SyncError::NotFound) <==> !contains_id(
                old(self).entries@,
                id,
            ),
            r matches Ok(()) ==> ({
                let i = entry_index_of(old(self).entries@, id);
                &&& contains_id(old(self).entries@, id)
                &&& final(self).entries@ == old(self).entries@.update(i, final(self).entries@[i])
                &&& mark_synced_rel(old(self).entries@[i], final(self).entries@[i], remote_id@, now@)
            }),
            r == Err::<(), SyncError>(
                SyncError::InvalidState(StateIssue::DuplicateRemoteId),
            ) ==> contains_remote_id(old(self).entries@, remote_id@),
            r is Err ==> r == Err::<(), SyncError>(SyncError::NotFound) || r == Err::<
                (),
                SyncError,
            >(SyncError::InvalidState(StateIssue::DuplicateRemoteId)),
    {
        let idx = match self.find_index(id) {
            Some(i) => i,
            None => {
                return Err(SyncError::NotFound);
            },
        };
        proof {
            lemma_entry_index_is(self.entries@, idx as int, id);
        }
        match self.find_by_remote_id(remote_id.as_str()) {
            Some(j) => {
                if j != idx {
                    return Err(SyncError::InvalidState(StateIssue::DuplicateRemoteId));
                }
            },
            None => {},
        }
        let mut w2 = self.entries[idx].clone();
        w2.sync_status = SyncStatus::Synced;
        w2.jira_worklog_id = Some(remote_id);
        w2.sync_error = None;
        w2.updated_at = now;
        let ghost l0 = *self;
        self.entries[idx] = w2;
        proof {
            lemma_wf_update_new_rid(l0, *self, idx as int);
        }
        Ok(())
    }

    /// Record a failed push: the entry becomes `error` and keeps the message.
    pub fn mark_error(&mut self, id: i64, message: String, now: String) -> (r: Result<
        (),
        SyncError,
    >)
        requires
            old(self).wf(),
        ensures
            final(self).wf(),
            final(self).next_id == old(self).next_id,
            r is Err ==> *final(self) == *old(self),
            r == Err::<(), SyncError>(SyncError::NotFound) <==> !contains_id(
                old(self).entries@,
                id,
            ),
            r matches Ok(()) ==> ({
                let i = entry_index_of(old(self).entries@, id);
                &&& contains_id(old(self).entries@, id)
                &&& final(self).entries@ == old(self).entries@.update(i, final(self).entries@[i])
                &&& mark_error_rel(old(self).entries@[i], final(self).entries@[i], message@, now@)
            }),
            r is Err ==> r == Err::<(), SyncError>(SyncError::NotFound),
    {
        let idx = match self.find_index(id) {
            Some(i) => i,
            None => {
                return Err(SyncError::NotFound);
            },
        };
        proof {
            lemma_entry_index_is(self.entries@, idx as int, id);
        }
        let mut w2 = self.entries[idx].clone();
        w2.sync_status = SyncStatus::Error;
        w2.sync_error = Some(message);
        w2.updated_at = now;
        let ghost l0 = *self;
        self.entries[idx] = w2;
        proof {
            lemma_wf_update_keep_rid(l0, *self, idx as int);
        }
        Ok(())
    }

    /// Insert a `synced` entry for a remote worklog id not seen locally;
    /// a second insert for the same remote id is a no-op, not an error.
    pub fn insert_synced_or_ignore(
        &mut self,
        issue_key: String,
        started_at: String,
        duration_seconds: i64,
        description: String,
        remote_id: String,
        marker: String,
        now: String,
    ) -> (inserted: bool)
        requires
            old(self).wf(),
            old(self).next_id < i64::MAX,
            duration_seconds >= 0,
        ensures
            final(self).wf(),
            contains_remote_id(old(self).entries@, remote_id@) ==> !inserted && *final(self)
                == *old(self),
            !contains_remote_id(old(self).entries@, remote_id@) ==> ({
                let w = final(self).entries@.last();
                &&& inserted
                &&& final(self).next_id == old(self).next_id + 1
                &&& final(self).entries@ == old(self).entries@.push(w)
                &&& w.id == old(self).next_id
                &&& w.issue_key@ == issue_key@
                &&& w.started_at@ == started_at@
                &&& w.duration_seconds == duration_seconds
                &&& w.description@ == description@
                &&& w.sync_status is Synced
                &&& has_remote_id(w, remote_id@)
                &&& w.sync_error is None
                &&& w.jira_updated_at matches Some(m) && m@ == marker@
                &&& w.created_at@ == now@
                &&& w.updated_at@ == now@
                &&& w.issue_summary is None
            }),
    {
        match self.find_by_remote_id(remote_id.as_str()) {
            Some(_) => {
                return false;
            },
            None => {},
        }
        let id = self.next_id;
        let created = now.clone();
        let w = Worklog {
            id,
            issue_key,
            started_at,
            duration_seconds,
            description,
            sync_status: SyncStatus::Synced,
            jira_worklog_id: Some(remote_id),
            sync_error: None,
            jira_updated_at: Some(marker),
            created_at: created,
            updated_at: now,
            issue_summary: None,
        };
        let ghost l0 = *self;
        self.entries.push(w);
        self.next_id = id + 1;
        proof {
            lemma_wf_push(l0, *self);
        }
        true
    }

    /// Overwrite a remote-owned entry with the remote system's current
    /// start, duration, description and change marker. Remote truth wins
    /// unconditionally; nothing else of the entry changes.
    pub fn update_from_remote(
        &mut self,
        remote_id: &str,
        started_at: String,
        duration_seconds: i64,
        description: String,
        marker: String,
        now: String,
    ) -> (updated: bool)
        requires
            old(self).wf(),
            duration_seconds >= 0,
        ensures
            final(self).wf(),
            final(self).next_id == old(self).next_id,
            updated <==> contains_remote_id(old(self).entries@, remote_id@),
            !updated ==> *final(self) == *old(self),
            updated ==> ({
                let i = remote_index_of(old(self).entries@, remote_id@);
                &&& final(self).entries@ == old(self).entries@.update(i, final(self).entries@[i])
                &&& remote_update_rel(
                    old(self).entries@[i],
                    final(self).entries@[i],
                    started_at@,
                    duration_seconds,
                    description@,
                    marker@,
                    now@,
                )
            }),
    {
        let idx = match self.find_by_remote_id(remote_id) {
            Some(i) => i,
            None => {
                return false;
            },
        };
        proof {
            lemma_remote_index_is(self.entries@, idx as int, remote_id@);
        }
        let mut w2 = self.entries[idx].clone();
        w2.started_at = started_at;
        w2.duration_seconds = duration_seconds;
        w2.description = description;
        w2.jira_updated_at = Some(marker);
        w2.updated_at = now;
        let ghost l0 = *self;
        self.entries[idx] = w2;
        proof {
            lemma_wf_update_keep_rid(l0, *self, idx as int);
        }
        true
    }

    /// Remove an entry by local id, whatever its status. This is the
    /// primitive behind remote-confirmed deletion and import repair; the
    /// guarded local path is `delete_worklog`.
    pub fn remove_by_id(&mut self, id: i64) -> (removed: bool)
        requires
            old(self).wf(),
        ensures
            final(self).wf(),
            final(self).next_id == old(self).next_id,
            removed <==> contains_id(old(self).entries@, id),
            !removed ==> *final(self) == *old(self),
            removed ==> final(self).entries@ == old(self).entries@.remove(
                entry_index_of(old(self).entries@, id),
            ),
    {
        let idx = match self.find_index(id) {
            Some(i) => i,
            None => {
                return false;
            },
        };
        proof {
            lemma_entry_index_is(self.entries@, idx as int, id);
        }
        let ghost l0 = *self;
        self.entries.remove(idx);
        proof {
            lemma_wf_remove(l0, *self, idx as int);
        }
        true
    }

    /// Write back a remote-confirmed edit: the merged duration, description
    /// and start, the remote id the update returned, and a fresh change
    /// marker. Called only after the remote system accepted the update.
    pub fn apply_remote_edit(
        &mut self,
        id: i64,
        duration_seconds: i64,
        description: String,
        started_at: String,
        remote_id: String,
        now: String,
    ) -> (r: Result<(), SyncError>)
        requires
            old(self).wf(),
            duration_seconds >= 0,
        ensures
            final(self).wf(),
            final(self).next_id == old(self).next_id,
            r is Err ==> *final(self) == *old(self),
            r == Err::<(), SyncError>(SyncError::NotFound) <==> !contains_id(
                old(self).entries@,
                id,
            ),
            r matches Ok(()) ==> ({
                let i = entry_index_of(old(self).entries@, id);
                &&& contains_id(old(self).entries@, id)
                &&& final(self).entries@ == old(self).entries@.update(i, final(self).entries@[i])
                &&& remote_edit_rel(
                    old(self).entries@[i],
                    final(self).entries@[i],
                    duration_seconds,
                    description@,
                    started_at@,
                    remote_id@,
                    now@,
                )
            }),
            r == Err::<(), SyncError>(
                SyncError::InvalidState(StateIssue::DuplicateRemoteId),
            ) ==> contains_remote_id(old(self).entries@, remote_id@),
            r is Err ==> r == Err::<(), SyncError>(SyncError::NotFound) || r == Err::<
                (),
                SyncError,
            >(SyncError::InvalidState(StateIssue::DuplicateRemoteId)),
    {
        let idx = match self.find_index(id) {
            Some(i) => i,
            None => {
                return Err(SyncError::NotFound);
            },
        };
        proof {
            lemma_entry_index_is(self.entries@, idx as int, id);
        }
        match self.find_by_remote_id(remote_id.as_str()) {
            Some(j) => {
                if j != idx {
                    return Err(SyncError::InvalidState(StateIssue::DuplicateRemoteId));
                }
            },
            None => {},
        }
        let mut w2 = self.entries[idx].clone();
        w2.duration_seconds = duration_seconds;
        w2.description = description;
        w2.started_at = started_at;
        w2.jira_worklog_id = Some(remote_id);
        w2.jira_updated_at = Some(now.clone());
        w2.updated_at = now;
        let ghost l0 = *self;
        self.entries[idx] = w2;
        proof {
            lemma_wf_update_new_rid(l0, *self, idx as int);
        }
        Ok(())
    }

    /// The stored remote change marker of the entry carrying a remote id,
    /// if the ledger has that entry.
    pub fn marker_of_remote(&self, rid: &str) -> (r: Option<Option<String>>)
        requires
            self.wf(),
        ensures
            r is Some <==> contains_remote_id(self.entries@, rid@),
            r matches Some(m) ==> m == self.entries@[remote_index_of(self.entries@, rid@)].jira_updated_at,
    {
        match self.find_by_remote_id(rid) {
            Some(i) => {
                proof {
                    lemma_remote_index_is(self.entries@, i as int, rid@);
                }
                Some(clone_opt_string(&self.entries[i].jira_updated_at))
            },
            None => None,
        }
    }
}

/// How a local edit rewrites an entry: provided fields replace stored ones,
/// an `error` status falls back to `pending` with its message cleared, the
/// modification instant is bumped, and everything else is untouched.
pub open spec fn local_update_rel(
    w0: Worklog,
    w: Worklog,
    issue_key: Option<String>,
    duration_seconds: Option<i64>,
    description: Option<String>,
    started_at: Option<String>,
    now: Seq<char>,
) -> bool {
    &&& w.id == w0.id
    &&& w.issue_key@ == (match issue_key {
        Some(k) => k@,
        None => w0.issue_key@,
    })
    &&& w.duration_seconds == (match duration_seconds {
        Some(d) => d,
        None => w0.duration_seconds,
    })
    &&& w.description@ == (match description {
        Some(d) => d@,
        None => w0.description@,
    })
    &&& w.started_at@ == (match started_at {
        Some(t) => t@,
        None => w0.started_at@,
    })
    &&& w.sync_status == (if w0.sync_status is Error {
        SyncStatus::Pending
    } else {
        w0.sync_status
    })
    &&& w.sync_error == (if w0.sync_status is Error {
        Option::<String>::None
    } else {
        w0.sync_error
    })
    &&& w.jira_worklog_id == w0.jira_worklog_id
    &&& w.jira_updated_at == w0.jira_updated_at
    &&& w.created_at == w0.created_at
    &&& w.updated_at@ == now
    &&& w.issue_summary == w0.issue_summary
}

/// How a successful push rewrites an entry.
pub open spec fn mark_synced_rel(w0: Worklog, w: Worklog, rid: Seq<char>, now: Seq<char>) -> bool {
    &&& w.id == w0.id
    &&& w.issue_key == w0.issue_key
    &&& w.started_at == w0.started_at
    &&& w.duration_seconds == w0.duration_seconds
    &&& w.description == w0.description
    &&& w.sync_status is Synced
    &&& has_remote_id(w, rid)
    &&& w.sync_error is None
    &&& w.jira_updated_at == w0.jira_updated_at
    &&& w.created_at == w0.created_at
    &&& w.updated_at@ == now
    &&& w.issue_summary == w0.issue_summary
}

/// How a failed push rewrites an entry.
pub open spec fn mark_error_rel(w0: Worklog, w: Worklog, msg: Seq<char>, now: Seq<char>) -> bool {
    &&& w.id == w0.id
    &&& w.issue_key == w0.issue_key
    &&& w.started_at == w0.started_at
    &&& w.duration_seconds == w0.duration_seconds
    &&& w.description == w0.description
    &&& w.sync_status is Error
    &&& w.jira_worklog_id == w0.jira_worklog_id
    &&& w.sync_error matches Some(m) && m@ == msg
    &&& w.jira_updated_at == w0.jira_updated_at
    &&& w.created_at == w0.created_at
    &&& w.updated_at@ == now
    &&& w.issue_summary == w0.issue_summary
}

/// How a remote-confirmed edit writes back locally.
pub open spec fn remote_edit_rel(
    w0: Worklog,
    w: Worklog,
    duration_seconds: i64,
    description: Seq<char>,
    started_at: Seq<char>,
    rid: Seq<char>,
    now: Seq<char>,
) -> bool {
    &&& w.id == w0.id
    &&& w.issue_key == w0.issue_key
    &&& w.started_at@ == started_at
    &&& w.duration_seconds == duration_seconds
    &&& w.description@ == description
    &&& w.sync_status == w0.sync_status
    &&& has_remote_id(w, rid)
    &&& w.sync_error == w0.sync_error
    &&& w.jira_updated_at matches Some(m) && m@ == now
    &&& w.created_at == w0.created_at
    &&& w.updated_at@ == now
    &&& w.issue_summary == w0.issue_summary
}

/// How a remote-side edit rewrites an entry during import.
pub open spec fn remote_update_rel(
    w0: Worklog,
    w: Worklog,
    started_at: Seq<char>,
    duration_seconds: i64,
    description: Seq<char>,
    marker: Seq<char>,
    now: Seq<char>,
) -> bool {
    &&& w.id == w0.id
    &&& w.issue_key == w0.issue_key
    &&& w.started_at@ == started_at
    &&& w.duration_seconds == duration_seconds
    &&& w.description@ == description
    &&& w.sync_status == w0.sync_status
    &&& w.jira_worklog_id == w0.jira_worklog_id
    &&& w.sync_error == w0.sync_error
    &&& w.jira_updated_at matches Some(m) && m@ == marker
    &&& w.created_at == w0.created_at
    &&& w.updated_at@ == now
    &&& w.issue_summary == w0.issue_summary
}

/// Replacing one entry with one of the same id and the same remote id
/// keeps the ledger well-formed.
proof fn lemma_wf_update_keep_rid(l0: Ledger, l1: Ledger, k: int)
    requires
        l0.wf(),
        0 <= k < l0.entries@.len(),
        l1.next_id == l0.next_id,
        l1.entries@ == l0.entries@.update(k, l1.entries@[k]),
        wl_wf(l1.entries@[k]),
        l1.entries@[k].id == l0.entries@[k].id,
        l1.entries@[k].jira_worklog_id == l0.entries@[k].jira_worklog_id,
    ensures
        l1.wf(),
{
    let e0 = l0.entries@;
    let e1 = l1.entries@;
    assert(e1.len() == e0.len());
    assert forall|i: int| 0 <= i < e1.len() implies wl_wf(#[trigger] e1[i]) && 1 <= e1[i].id
        < l1.next_id by {
        if i != k {
            assert(e1[i] == e0[i]);
        }
    }
    assert forall|i: int, j: int| 0 <= i < j < e1.len() implies (#[trigger] e1[i]).id != (
    #[trigger] e1[j]).id by {
        assert(e1[i].id == e0[i].id);
        assert(e1[j].id == e0[j].id);
    }
    assert forall|i: int, j: int|
        0 <= i < j < e1.len() && e1[i].jira_worklog_id is Some && e1[j].jira_worklog_id
            is Some implies (#[trigger] e1[i].jira_worklog_id)->0@ != (
    #[trigger] e1[j].jira_worklog_id)->0@ by {
        assert(e1[i].jira_worklog_id == e0[i].jira_worklog_id);
        assert(e1[j].jira_worklog_id == e0[j].jira_worklog_id);
    }
}

/// Replacing one entry with one of the same id whose remote id no other
/// entry carries keeps the ledger well-formed.
proof fn lemma_wf_update_new_rid(l0: Ledger, l1: Ledger, k: int)
    requires
        l0.wf(),
        0 <= k < l0.entries@.len(),
        l1.next_id == l0.next_id,
        l1.entries@ == l0.entries@.update(k, l1.entries@[k]),
        wl_wf(l1.entries@[k]),
        l1.entries@[k].id == l0.entries@[k].id,
        l1.entries@[k].jira_worklog_id matches Some(s) ==> forall|j: int|
            0 <= j < l0.entries@.len() && j != k ==> !has_remote_id(
                #[trigger] l0.entries@[j],
                s@,
            ),
    ensures
        l1.wf(),
{
    let e0 = l0.entries@;
    let e1 = l1.entries@;
    assert forall|i: int| 0 <= i < e1.len() implies wl_wf(#[trigger] e1[i]) && 1 <= e1[i].id
        < l1.next_id by {
        if i != k {
            assert(e1[i] == e0[i]);
        }
    }
    assert forall|i: int, j: int| 0 <= i < j < e1.len() implies (#[trigger] e1[i]).id != (
    #[trigger] e1[j]).id by {
        assert(e1[i].id == e0[i].id);
        assert(e1[j].id == e0[j].id);
    }
    assert forall|i: int, j: int|
        0 <= i < j < e1.len() && e1[i].jira_worklog_id is Some && e1[j].jira_worklog_id
            is Some implies (#[trigger] e1[i].jira_worklog_id)->0@ != (
    #[trigger] e1[j].jira_worklog_id)->0@ by {
        if i != k && j != k {
            assert(e1[i] == e0[i]);
            assert(e1[j] == e0[j]);
        } else if i == k {
            assert(e1[j] == e0[j]);
            assert(!has_remote_id(e0[j], e1[k].jira_worklog_id->0@));
        } else {
            assert(e1[i] == e0[i]);
            assert(!has_remote_id(e0[i], e1[k].jira_worklog_id->0@));
        }
    }
}

/// Removing one entry keeps the ledger well-formed.
proof fn lemma_wf_remove(l0: Ledger, l1: Ledger, k: int)
    requires
        l0.wf(),
        0 <= k < l0.entries@.len(),
        l1.next_id == l0.next_id,
        l1.entries@ == l0.entries@.remove(k),
    ensures
        l1.wf(),
{
    let e0 = l0.entries@;
    let e1 = l1.entries@;
    assert(e1.len() == e0.len() - 1);
    assert forall|i: int| 0 <= i < e1.len() implies wl_wf(#[trigger] e1[i]) && 1 <= e1[i].id
        < l1.next_id by {
        if i < k {
            assert(e1[i] == e0[i]);
        } else {
            assert(e1[i] == e0[i + 1]);
        }
    }
    assert forall|i: int, j: int| 0 <= i < j < e1.len() implies (#[trigger] e1[i]).id != (
    #[trigger] e1[j]).id by {
        let i0 = if i < k { i } else { i + 1 };
        let j0 = if j < k { j } else { j + 1 };
        assert(e1[i] == e0[i0]);
        assert(e1[j] == e0[j0]);
        assert(e0[i0].id != e0[j0].id);
    }
    assert forall|i: int, j: int|
        0 <= i < j < e1.len() && e1[i].jira_worklog_id is Some && e1[j].jira_worklog_id
            is Some implies (#[trigger] e1[i].jira_worklog_id)->0@ != (
    #[trigger] e1[j].jira_worklog_id)->0@ by {
        let i0 = if i < k { i } else { i + 1 };
        let j0 = if j < k { j } else { j + 1 };
        assert(e1[i] == e0[i0]);
        assert(e1[j] == e0[j0]);
        assert(e0[i0].jira_worklog_id->0@ != e0[j0].jira_worklog_id->0@);
    }
}

/// Appending an entry with the next free id and an unseen (or no) remote id
/// keeps the ledger well-formed.
proof fn lemma_wf_push(l0: Ledger, l1: Ledger)
    requires
        l0.wf(),
        l1.entries@.len() == l0.entries@.len() + 1,
        l1.entries@ == l0.entries@.push(l1.entries@.last()),
        l1.next_id == l0.next_id + 1,
        wl_wf(l1.entries@.last()),
        l1.entries@.last().id == l0.next_id,
        l1.entries@.last().jira_worklog_id matches Some(s) ==> !contains_remote_id(
            l0.entries@,
            s@,
        ),
    ensures
        l1.wf(),
{
    let e0 = l0.entries@;
    let e1 = l1.entries@;
    let n = e0.len() as int;
    assert forall|i: int| 0 <= i < e1.len() implies wl_wf(#[trigger] e1[i]) && 1 <= e1[i].id
        < l1.next_id by {
        if i < n {
            assert(e1[i] == e0[i]);
        } else {
            assert(e1[i] == e1.last());
        }
    }
    assert forall|i: int, j: int| 0 <= i < j < e1.len() implies (#[trigger] e1[i]).id != (
    #[trigger] e1[j]).id by {
        if j < n {
            assert(e1[i] == e0[i]);
            assert(e1[j] == e0[j]);
        } else {
            assert(e1[i] == e0[i]);
            assert(e1[j] == e1.last());
            assert(e0[i].id < l0.next_id);
        }
    }
    assert forall|i: int, j: int|
        0 <= i < j < e1.len() && e1[i].jira_worklog_id is Some && e1[j].jira_worklog_id
            is Some implies (#[trigger] e1[i].jira_worklog_id)->0@ != (
    #[trigger] e1[j].jira_worklog_id)->0@ by {
        if j < n {
            assert(e1[i] == e0[i]);
            assert(e1[j] == e0[j]);
            assert(e0[i].jira_worklog_id->0@ != e0[j].jira_worklog_id->0@);
        } else {
            assert(e1[i] == e0[i]);
            assert(e1[j] == e1.last());
            assert(!has_remote_id(e0[i], e1.last().jira_worklog_id->0@));
        }
    }
}

/// An optional restriction on a ledger listing: by issue key, by sync
/// status keyword (`"all"` matches everything), and by a started-at range
/// (inclusive lower bound, exclusive upper bound, in text order).
#[derive(Debug)]
pub struct WorklogFilter {
    pub issue_key: Option<String>,
    pub sync_status: Option<String>,
    pub date_from: Option<String>,
    pub date_to: Option<String>,
}

/// Whether an entry passes a listing filter.
pub open spec fn matches_filter(w: Worklog, f: Option<WorklogFilter>) -> bool {
    match f {
        None => true,
        Some(ff) => {
            &&& (match ff.sync_status {
                Some(st) => st@ == "all"@ || status_text(w.sync_status) == st@,
                None => true,
            })
            &&& (match ff.issue_key {
                Some(k) => w.issue_key@ == k@,
                None => true,
            })
            &&& (match ff.date_from {
                Some(df) => lex_le(df@, w.started_at@),
                None => true,
            })
            &&& (match ff.date_to {
                Some(dt) => !lex_le(dt@, w.started_at@),
                None => true,
            })
        },
    }
}

/// Whether an entry passes a listing filter, executable form.
pub fn matches_filter_ex(w: &Worklog, filter: &Option<WorklogFilter>) -> (r: bool)
    ensures
        r == matches_filter(*w, *filter),
{
    let ff = match filter {
        None => {
            return true;
        },
        Some(ff) => ff,
    };
    let status_ok = match &ff.sync_status {
        Some(st) => str_eq(st.as_str(), "all") || str_eq(w.sync_status.as_str(), st.as_str()),
        None => true,
    };
    let key_ok = match &ff.issue_key {
        Some(k) => str_eq(w.issue_key.as_str(), k.as_str()),
        None => true,
    };
    let from_ok = match &ff.date_from {
        Some(df) => str_le(df.as_str(), w.started_at.as_str()),
        None => true,
    };
    let to_ok = match &ff.date_to {
        Some(dt) => !str_le(dt.as_str(), w.started_at.as_str()),
        None => true,
    };
    status_ok && key_ok && from_ok && to_ok
}

/// Entries in descending text order of their start instants.
pub open spec fn sorted_desc(s: Seq<Worklog>) -> bool {
    forall|i: int, j: int|
        0 <= i < j < s.len() ==> lex_le((#[trigger] s[j]).started_at@, (#[trigger] s[i]).started_at@)
}

/// Sort entries by start instant, newest first: the result holds exactly
/// the given entries.
fn sort_by_started_desc(v: Vec<Worklog>) -> (r: Vec<Worklog>)
    ensures
        r@.to_multiset() == v@.to_multiset(),
        r@.len() == v@.len(),
        sorted_desc(r@),
{
    broadcast use vstd::seq_lib::group_to_multiset_ensures;

    let mut src = v;
    let mut out: Vec<Worklog> = Vec::new();
    proof {
        assert(out@.to_multiset().add(src@.to_multiset()) =~= v@.to_multiset());
    }
    while src.len() > 0
        invariant
            out@.to_multiset().add(src@.to_multiset()) == v@.to_multiset(),
            out@.len() + src@.len() == v@.len(),
            sorted_desc(out@),
            out@.len() > 0 ==> forall|k: int|
                0 <= k < src@.len() ==> lex_le(
                    (#[trigger] src@[k]).started_at@,
                    out@.last().started_at@,
                ),
        decreases src.len(),
    {
        let n = src.len();
        proof {
            lemma_lex_le_refl(src@[0].started_at@);
        }
        let mut m: usize = 0;
        let mut k: usize = 1;
        while k < n
            invariant
                n == src@.len(),
                m < k <= n,
                forall|t: int|
                    0 <= t < k ==> lex_le(
                        (#[trigger] src@[t]).started_at@,
                        src@[m as int].started_at@,
                    ),
            decreases n - k,
        {
            if !str_le(src[k].started_at.as_str(), src[m].started_at.as_str()) {
                proof {
                    lemma_lex_le_total(src@[k as int].started_at@, src@[m as int].started_at@);
                    lemma_lex_le_refl(src@[k as int].started_at@);
                    assert forall|t: int| 0 <= t < k implies lex_le(
                        (#[trigger] src@[t]).started_at@,
                        src@[k as int].started_at@,
                    ) by {
                        lemma_lex_le_trans(
                            src@[t].started_at@,
                            src@[m as int].started_at@,
                            src@[k as int].started_at@,
                        );
                    }
                }
                m = k;
            }
            k = k + 1;
        }
        let ghost out0 = out@;
        let ghost src0 = src@;
        let x = src.remove(m);
        out.push(x);
        proof {
            src0.to_multiset_ensures();
            out0.to_multiset_ensures();
            assert(src@.to_multiset() =~= src0.to_multiset().remove(x)) by {
                assert(src@ == src0.remove(m as int));
                assert(src0.remove(m as int).to_multiset() =~= src0.to_multiset().remove(
                    src0[m as int],
                ));
            }
            assert(out@.to_multiset() =~= out0.to_multiset().insert(x)) by {
                assert(out@ == out0.push(x));
                assert(out0.push(x).to_multiset() =~= out0.to_multiset().insert(x));
            }
            assert(src0.to_multiset().count(x) > 0) by {
                assert(src0.contains(x)) by {
                    assert(src0[m as int] == x);
                }
            }
            assert(out@.to_multiset().add(src@.to_multiset()) =~= v@.to_multiset());
            assert(sorted_desc(out@)) by {
                assert forall|i: int, j: int| 0 <= i < j < out@.len() implies lex_le(
                    (#[trigger] out@[j]).started_at@,
                    (#[trigger] out@[i]).started_at@,
                ) by {
                    if j < out@.len() - 1 {
                        assert(out@[i] == out0[i] && out@[j] == out0[j]);
                    } else {
                        assert(out@[j] == x);
                        assert(out@[i] == out0[i]);
                        if out0.len() > 0 {
                            assert(lex_le(x.started_at@, out0.last().started_at@)) by {
                                assert(src0[m as int] == x);
                            }
                            if i < out0.len() - 1 {
                                lemma_lex_le_trans(
                                    x.started_at@,
                                    out0.last().started_at@,
                                    out0[i].started_at@,
                                );
                            }
                        }
                    }
                }
            }
            assert(out@.len() > 0 ==> forall|t: int|
                0 <= t < src@.len() ==> lex_le(
                    (#[trigger] src@[t]).started_at@,
                    out@.last().started_at@,
                )) by {
                assert forall|t: int| 0 <= t < src@.len() implies lex_le(
                    (#[trigger] src@[t]).started_at@,
                    x.started_at@,
                ) by {
                    if t < m {
                        assert(src@[t] == src0[t]);
                    } else {
                        assert(src@[t] == src0[t + 1]);
                    }
                }
            }
        }
    }
    proof {
        assert(src@.to_multiset() =~= Multiset::<Worklog>::empty());
        assert(out@.to_multiset().add(Multiset::<Worklog>::empty()) =~= out@.to_multiset());
    }
    out
}

impl Ledger {
    /// List the entries that pass a filter, newest first.
    pub fn get_worklogs(&self, filter: &Option<WorklogFilter>) -> (r: Vec<Worklog>)
        ensures
            r@.to_multiset() == self.entries@.filter(
                |w: Worklog| matches_filter(w, *filter),
            ).to_multiset(),
            sorted_desc(r@),
    {
        let ghost pred = |w: Worklog| matches_filter(w, *filter);
        let n = self.entries.len();
        let mut picked: Vec<Worklog> = Vec::new();
        proof {
            assert(self.entries@.subrange(0, 0).filter(pred) =~= Seq::<Worklog>::empty());
        }
        let mut i: usize = 0;
        while i < n
            invariant
                n == self.entries@.len(),
                i <= n,
                picked@ == self.entries@.subrange(0, i as int).filter(pred),
                pred == (|w: Worklog| matches_filter(w, *filter)),
            decreases n - i,
        {
            let ghost pre = self.entries@.subrange(0, i as int);
            let ghost cur = self.entries@.subrange(0, i + 1);
            proof {
                assert(cur.drop_last() =~= pre);
                assert(cur.last() == self.entries@[i as int]);
                reveal_with_fuel(Seq::filter, 2);
            }
            if matches_filter_ex(&self.entries[i], filter) {
                picked.push(self.entries[i].clone());
            }
            i = i + 1;
        }
        proof {
            assert(self.entries@.subrange(0, n as int) =~= self.entries@);
        }
        sort_by_started_desc(picked)
    }
}

} // verus!
