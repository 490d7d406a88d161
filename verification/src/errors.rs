//! Error taxonomy for the synchronization engine.
//!
//! Remote-call failures reach the engine as plain message strings produced by
//! the transport layer; the variants here cover the failures the engine itself
//! detects: a missing local entity, an operation that is invalid for the
//! current sync status or timer state, and an unparseable timestamp or date.

use vstd::prelude::*;

verus! {

/// The reason an operation was invalid for the current state.
#[derive(Clone, Copy, Debug, PartialEq, Eq, Structural)]
pub enum StateIssue {
    /// The entry is `synced`; local-only edits are forbidden.
    CannotEditSynced,
    /// The entry is `synced`; local-only deletion is forbidden.
    CannotDeleteSynced,
    /// The entry is already `synced`; pushing it again is forbidden.
    AlreadySynced,
    /// The entry is not `synced`; remote update/delete needs a synced entry.
    NotSynced,
    /// The entry is `synced` but carries no remote worklog id.
    NoRemoteId,
    /// No timer is running or paused.
    NoActiveTimer,
    /// The timer is already paused.
    AlreadyPaused,
    /// The timer is running, not paused.
    NotPaused,
    /// Another entry already carries this remote worklog id.
    DuplicateRemoteId,
}

/// An error detected by the engine itself.
#[derive(Clone, Copy, Debug, PartialEq, Eq, Structural)]
pub enum SyncError {
    /// The addressed local entity does not exist.
    NotFound,
    /// The operation is not valid for the current sync status or timer state.
    InvalidState(StateIssue),
    /// A stored or supplied timestamp could not be parsed.
    InvalidTimestamp,
    /// A supplied calendar date string could not be parsed.
    InvalidDate,
}

impl SyncError {
    /// The user-facing message for this error.
    pub fn message(&self) -> (r: String)
        ensures
            r@ == self.spec_message(),
    {
        match self {
            SyncError::NotFound => String::from_str("Worklog not found"),
            SyncError::InvalidState(issue) => match issue {
                StateIssue::CannotEditSynced => String::from_str("Cannot edit a synced worklog"),
                StateIssue::CannotDeleteSynced => String::from_str(
                    "Cannot delete a synced worklog",
                ),
                StateIssue::AlreadySynced => String::from_str("Worklog already synced"),
                StateIssue::NotSynced => String::from_str("Worklog is not synced to Jira"),
                StateIssue::NoRemoteId => String::from_str("Worklog has no Jira worklog ID"),
                StateIssue::NoActiveTimer => String::from_str("No active timer"),
                StateIssue::AlreadyPaused => String::from_str("Timer is already paused"),
                StateIssue::NotPaused => String::from_str("Timer is not paused"),
                StateIssue::DuplicateRemoteId => String::from_str("Duplicate remote worklog id"),
            },
            SyncError::InvalidTimestamp => String::from_str("Invalid timestamp"),
            SyncError::InvalidDate => String::from_str("Invalid date"),
        }
    }

    /// The message text, as a mathematical sequence of characters.
    pub open spec fn spec_message(&self) -> Seq<char> {
        match self {
            SyncError::NotFound => "Worklog not found"@,
            SyncError::InvalidState(issue) => match issue {
                StateIssue::CannotEditSynced => "Cannot edit a synced worklog"@,
                StateIssue::CannotDeleteSynced => "Cannot delete a synced worklog"@,
                StateIssue::AlreadySynced => "Worklog already synced"@,
                StateIssue::NotSynced => "Worklog is not synced to Jira"@,
                StateIssue::NoRemoteId => "Worklog has no Jira worklog ID"@,
                StateIssue::NoActiveTimer => "No active timer"@,
                StateIssue::AlreadyPaused => "Timer is already paused"@,
                StateIssue::NotPaused => "Timer is not paused"@,
                StateIssue::DuplicateRemoteId => "Duplicate remote worklog id"@,
            },
            SyncError::InvalidTimestamp => "Invalid timestamp"@,
            SyncError::InvalidDate => "Invalid date"@,
        }
    }
}

} // verus!
