//! The timer state machine: Idle (no state), Running, Paused.
//!
//! The caller supplies the clock reading; every transition is a pure
//! function of the state and that instant. Stopping converts the state into
//! exactly one new `pending` ledger entry whose interval ends at the stop
//! instant: the total is banked seconds plus the running stretch, clamped
//! into range and rounded up to a whole minute, and the recorded start is
//! the stop instant minus that total.

use vstd::prelude::*;
use crate::errors::{StateIssue, SyncError};
use crate::ledger::Ledger;
use crate::timefmt::{
    parse_rfc3339_ms, rfc3339_instant_of, utc_rfc3339, utc_rfc3339_of, MAX_CLOCK_MS,
};

verus! {

/// The singleton in-progress interval: Running, or Paused with banked time.
#[derive(Debug)]
pub struct TimerState {
    pub issue_key: String,
    pub started_at: String,
    pub accumulated_secs: i64,
    pub is_paused: bool,
    pub paused_at: Option<String>,
    pub description: String,
}

impl Clone for TimerState {
    /// An exact copy of the state.
    fn clone(&self) -> (r: Self)
        ensures
            r == *self,
    {
        TimerState {
            issue_key: self.issue_key.clone(),
            started_at: self.started_at.clone(),
            accumulated_secs: self.accumulated_secs,
            is_paused: self.is_paused,
            paused_at: crate::ledger::clone_opt_string(&self.paused_at),
            description: self.description.clone(),
        }
    }
}

/// What stopping a timer reports: the new entry's id, issue and duration.
#[derive(Debug)]
pub struct StoppedWorklog {
    pub id: i64,
    pub issue_key: String,
    pub duration_seconds: i64,
}

/// The largest total a finalized timer can record, in seconds — about
/// 1900 years. Totals are clamped here so that the derived start instant
/// of an entry stays a four-digit-year date for any plausible stop
/// instant.
pub const MAX_TOTAL_SECS: i64 = 60000000000;

/// Whole seconds of a millisecond difference, rounded toward zero.
pub open spec fn secs_of_ms(diff: int) -> int {
    if diff >= 0 {
        diff / 1000
    } else {
        -((-diff) / 1000)
    }
}

/// Whole seconds between two instants, rounded toward zero.
pub fn elapsed_secs(now_ms: i64, start_ms: i64) -> (r: i64)
    requires
        -9000000000000000 <= now_ms <= 9000000000000000,
        -9000000000000000 <= start_ms <= 9000000000000000,
    ensures
        r == secs_of_ms(now_ms - start_ms),
{
    if now_ms >= start_ms {
        (now_ms - start_ms) / 1000
    } else {
        -((start_ms - now_ms) / 1000)
    }
}

/// Add a stretch of elapsed seconds to the banked total, kept within the
/// representable range.
pub open spec fn spec_bank(acc: int, elapsed: int) -> int {
    if acc + elapsed > MAX_TOTAL_SECS {
        MAX_TOTAL_SECS as int
    } else if acc + elapsed < -MAX_TOTAL_SECS {
        -MAX_TOTAL_SECS as int
    } else {
        acc + elapsed
    }
}

/// Add a stretch of elapsed seconds to the banked total, executable form.
pub fn bank_add(acc: i64, elapsed: i64) -> (r: i64)
    ensures
        r == spec_bank(acc as int, elapsed as int),
{
    if acc > 0 && elapsed > i64::MAX - acc {
        MAX_TOTAL_SECS
    } else if acc < 0 && elapsed < i64::MIN - acc {
        -MAX_TOTAL_SECS
    } else {
        let s = acc + elapsed;
        if s > MAX_TOTAL_SECS {
            MAX_TOTAL_SECS
        } else if s < -MAX_TOTAL_SECS {
            -MAX_TOTAL_SECS
        } else {
            s
        }
    }
}

/// A raw total clamped to the recordable range: never negative, never
/// beyond the largest recordable total.
pub open spec fn spec_clamp_total(raw: int) -> int {
    if raw < 0 {
        0
    } else if raw > MAX_TOTAL_SECS {
        MAX_TOTAL_SECS as int
    } else {
        raw
    }
}

/// A nonnegative total rounded up to the nearest whole minute; zero stays
/// zero.
pub open spec fn spec_round_up_minute(total: int) -> int {
    if total > 0 {
        ((total + 59) / 60) * 60
    } else {
        0
    }
}

/// The duration a stop records for a raw banked-plus-running total.
pub open spec fn spec_final_total(raw: int) -> int {
    spec_round_up_minute(spec_clamp_total(raw))
}

/// Clamp and round a raw total, executable form.
pub fn final_total(acc: i64, elapsed: i64) -> (r: i64)
    ensures
        r == spec_final_total(acc + elapsed),
        0 <= r <= MAX_TOTAL_SECS + 59,
{
    let banked = bank_add(acc, elapsed);
    let clamped = if banked < 0 {
        0
    } else {
        banked
    };
    assert(clamped == spec_clamp_total(acc + elapsed));
    if clamped > 0 {
        ((clamped + 59) / 60) * 60
    } else {
        0
    }
}

/// The round rule: a running stretch of 1 to 60 seconds records one
/// minute, an empty stretch records nothing, and 125 seconds records three
/// minutes.
pub proof fn lemma_round_rule(elapsed: int)
    ensures
        1 <= elapsed <= 60 ==> spec_final_total(elapsed) == 60,
        spec_final_total(0) == 0,
        spec_final_total(125) == 180,
        elapsed < 0 ==> spec_final_total(elapsed) == 0,
{
}

/// Banked time is conserved across pause and resume: two working
/// stretches of `d1` and `d2` seconds yield the duration rounded from
/// exactly `d1 + d2`, however long the timer sat paused in between —
/// the pause gap enters no formula.
pub proof fn lemma_pause_resume_conservation(d1: int, d2: int)
    requires
        0 <= d1,
        0 <= d2,
        d1 + d2 <= MAX_TOTAL_SECS,
    ensures
        spec_final_total(spec_bank(0, d1) + d2) == spec_round_up_minute(d1 + d2),
{
}

/// A snapshot of the active timer, or nothing when idle.
pub fn timer_get_state(timer: &Option<TimerState>) -> (r: Option<TimerState>)
    ensures
        r == *timer,
{
    match timer {
        Some(t) => Some(t.clone()),
        None => None,
    }
}

/// Pause a running timer: the elapsed stretch moves into the bank.
/// Fails when idle, when already paused, and when the stored start
/// instant does not parse; a failure changes nothing.
pub fn timer_pause(timer: &mut Option<TimerState>, now_ms: i64) -> (r: Result<
    TimerState,
    SyncError,
>)
    requires
        0 <= now_ms <= MAX_CLOCK_MS,
    ensures
        *old(timer) is None ==> r == Err::<TimerState, SyncError>(
            SyncError::InvalidState(StateIssue::NoActiveTimer),
        ) && *final(timer) == *old(timer),
        *old(timer) is Some && (old(timer)->0).is_paused ==> r == Err::<TimerState, SyncError>(
            SyncError::InvalidState(StateIssue::AlreadyPaused),
        ) && *final(timer) == *old(timer),
        *old(timer) is Some && !(old(timer)->0).is_paused ==> ({
            let t = old(timer)->0;
            match rfc3339_instant_of(t.started_at@) {
                None => r == Err::<TimerState, SyncError>(SyncError::InvalidTimestamp) && *final(timer) == *old(timer),
                Some(p) => r matches Ok(ts) && *final(timer) == Some(ts)
                    && ts.accumulated_secs == spec_bank(
                    t.accumulated_secs as int,
                    secs_of_ms(now_ms - p.0),
                ) && ts.is_paused && (ts.paused_at matches Some(pa) && pa@ == utc_rfc3339_of(
                    now_ms as int,
                )) && ts.started_at == t.started_at && ts.issue_key == t.issue_key
                    && ts.description == t.description,
            }
        }),
{
    let t = match timer {
        Some(t) => t.clone(),
        None => {
            return Err(SyncError::InvalidState(StateIssue::NoActiveTimer));
        },
    };
    if t.is_paused {
        return Err(SyncError::InvalidState(StateIssue::AlreadyPaused));
    }
    let start_ms = match parse_rfc3339_ms(t.started_at.as_str()) {
        Some((ms, _off)) => ms,
        None => {
            return Err(SyncError::InvalidTimestamp);
        },
    };
    let elapsed = elapsed_secs(now_ms, start_ms);
    let new_acc = bank_add(t.accumulated_secs, elapsed);
    let now_str = utc_rfc3339(now_ms);
    let ts = TimerState {
        issue_key: t.issue_key,
        started_at: t.started_at,
        accumulated_secs: new_acc,
        is_paused: true,
        paused_at: Some(now_str),
        description: t.description,
    };
    let out = ts.clone();
    *timer = Some(ts);
    Ok(out)
}

/// Resume a paused timer: the running stretch restarts at the given
/// instant; the bank is carried forward. Fails when idle or not paused;
/// a failure changes nothing.
pub fn timer_resume(timer: &mut Option<TimerState>, now_ms: i64) -> (r: Result<
    TimerState,
    SyncError,
>)
    requires
        0 <= now_ms <= MAX_CLOCK_MS,
    ensures
        *old(timer) is None ==> r == Err::<TimerState, SyncError>(
            SyncError::InvalidState(StateIssue::NoActiveTimer),
        ) && *final(timer) == *old(timer),
        *old(timer) is Some && !(old(timer)->0).is_paused ==> r == Err::<TimerState, SyncError>(
            SyncError::InvalidState(StateIssue::NotPaused),
        ) && *final(timer) == *old(timer),
        *old(timer) is Some && (old(timer)->0).is_paused ==> ({
            let t = old(timer)->0;
            r matches Ok(ts) && *final(timer) == Some(ts) && ts.started_at@ == utc_rfc3339_of(
                now_ms as int,
            ) && !ts.is_paused && ts.paused_at is None && ts.accumulated_secs == t.accumulated_secs
                && ts.issue_key == t.issue_key && ts.description == t.description
        }),
{
    let t = match timer {
        Some(t) => t.clone(),
        None => {
            return Err(SyncError::InvalidState(StateIssue::NoActiveTimer));
        },
    };
    if !t.is_paused {
        return Err(SyncError::InvalidState(StateIssue::NotPaused));
    }
    let now_str = utc_rfc3339(now_ms);
    let ts = TimerState {
        issue_key: t.issue_key,
        started_at: now_str,
        accumulated_secs: t.accumulated_secs,
        is_paused: false,
        paused_at: None,
        description: t.description,
    };
    let out = ts.clone();
    *timer = Some(ts);
    Ok(out)
}

/// Overwrite the in-progress description. Fails when idle; timing is
/// untouched.
pub fn timer_update_description(timer: &mut Option<TimerState>, description: String) -> (r: Result<
    (),
    SyncError,
>)
    ensures
        *old(timer) is None ==> r == Err::<(), SyncError>(
            SyncError::InvalidState(StateIssue::NoActiveTimer),
        ) && *final(timer) == *old(timer),
        *old(timer) is Some ==> ({
            let t = old(timer)->0;
            r matches Ok(()) && (*final(timer)) matches Some(ts) && ts.description == description
                && ts.issue_key == t.issue_key && ts.started_at == t.started_at
                && ts.accumulated_secs == t.accumulated_secs && ts.is_paused == t.is_paused
                && ts.paused_at == t.paused_at
        }),
{
    let t = match timer {
        Some(t) => t.clone(),
        None => {
            return Err(SyncError::InvalidState(StateIssue::NoActiveTimer));
        },
    };
    let ts = TimerState {
        issue_key: t.issue_key,
        started_at: t.started_at,
        accumulated_secs: t.accumulated_secs,
        is_paused: t.is_paused,
        paused_at: t.paused_at,
        description,
    };
    *timer = Some(ts);
    Ok(())
}

/// The raw total a stop at `now_ms` would finalize for state `t`: the bank
/// alone when paused, the bank plus the running stretch otherwise.
pub open spec fn spec_raw_total(t: TimerState, now_ms: int) -> int {
    if t.is_paused {
        t.accumulated_secs as int
    } else {
        t.accumulated_secs + secs_of_ms(now_ms - (rfc3339_instant_of(t.started_at@)->0).0)
    }
}

/// Whether a stop of state `t` at `now_ms` can finalize: a running timer
/// needs a parseable start instant; a paused one does not.
pub open spec fn can_finalize(t: TimerState, now_ms: int) -> bool {
    t.is_paused || rfc3339_instant_of(t.started_at@) is Some
}

/// What the ledger entry created by a stop looks like.
pub open spec fn finalized_entry_ok(
    w: crate::ledger::Worklog,
    t: TimerState,
    now_ms: int,
    now_str: Seq<char>,
) -> bool {
    let total = spec_final_total(spec_raw_total(t, now_ms));
    &&& w.issue_key@ == t.issue_key@
    &&& w.duration_seconds == total
    &&& w.started_at@ == utc_rfc3339_of(now_ms - total * 1000)
    &&& w.description@ == t.description@
    &&& w.sync_status is Pending
    &&& w.jira_worklog_id is None
    &&& w.created_at@ == now_str
}

/// Finalize a state into a `pending` ledger entry ending at `now_ms`.
fn finalize_into_ledger(t: &TimerState, ledger: &mut Ledger, now_ms: i64) -> (r: Result<
    StoppedWorklog,
    SyncError,
>)
    requires
        old(ledger).wf(),
        old(ledger).next_id < i64::MAX,
        0 <= now_ms <= MAX_CLOCK_MS,
    ensures
        final(ledger).wf(),
        !can_finalize(*t, now_ms as int) ==> r == Err::<StoppedWorklog, SyncError>(
            SyncError::InvalidTimestamp,
        ) && *final(ledger) == *old(ledger),
        can_finalize(*t, now_ms as int) ==> ({
            &&& r matches Ok(sw)
            &&& sw.id == old(ledger).next_id
            &&& sw.issue_key@ == t.issue_key@
            &&& sw.duration_seconds == spec_final_total(spec_raw_total(*t, now_ms as int))
            &&& final(ledger).next_id == old(ledger).next_id + 1
            &&& final(ledger).entries@ == old(ledger).entries@.push(final(ledger).entries@.last())
            &&& finalized_entry_ok(
                final(ledger).entries@.last(),
                *t,
                now_ms as int,
                final(ledger).entries@.last().created_at@,
            )
        }),
{
    let total = if t.is_paused {
        final_total(t.accumulated_secs, 0)
    } else {
        let start_ms = match parse_rfc3339_ms(t.started_at.as_str()) {
            Some((ms, _off)) => ms,
            None => {
                return Err(SyncError::InvalidTimestamp);
            },
        };
        let elapsed = elapsed_secs(now_ms, start_ms);
        final_total(t.accumulated_secs, elapsed)
    };
    let started_ms = now_ms - total * 1000;
    let started_str = utc_rfc3339(started_ms);
    let now_str = utc_rfc3339(now_ms);
    let id = ledger.create_worklog(
        t.issue_key.clone(),
        started_str,
        total,
        t.description.clone(),
        now_str,
    );
    Ok(StoppedWorklog { id, issue_key: t.issue_key.clone(), duration_seconds: total })
}

/// Stop the timer: its interval becomes one new `pending` ledger entry and
/// the timer becomes idle, in one step. Fails when idle, or when a running
/// timer's stored start does not parse; a failure changes nothing.
pub fn timer_stop(timer: &mut Option<TimerState>, ledger: &mut Ledger, now_ms: i64) -> (r: Result<
    StoppedWorklog,
    SyncError,
>)
    requires
        old(ledger).wf(),
        old(ledger).next_id < i64::MAX,
        0 <= now_ms <= MAX_CLOCK_MS,
    ensures
        final(ledger).wf(),
        *old(timer) is None ==> r == Err::<StoppedWorklog, SyncError>(
            SyncError::InvalidState(StateIssue::NoActiveTimer),
        ) && *final(timer) == *old(timer) && *final(ledger) == *old(ledger),
        *old(timer) is Some && !can_finalize(old(timer)->0, now_ms as int) ==> r == Err::<
            StoppedWorklog,
            SyncError,
        >(SyncError::InvalidTimestamp) && *final(timer) == *old(timer) && *final(ledger) == *old(ledger),
        *old(timer) is Some && can_finalize(old(timer)->0, now_ms as int) ==> ({
            let t = old(timer)->0;
            &&& r matches Ok(sw)
            &&& *final(timer) is None
            &&& sw.id == old(ledger).next_id
            &&& sw.issue_key@ == t.issue_key@
            &&& sw.duration_seconds == spec_final_total(spec_raw_total(t, now_ms as int))
            &&& final(ledger).next_id == old(ledger).next_id + 1
            &&& final(ledger).entries@ == old(ledger).entries@.push(final(ledger).entries@.last())
            &&& finalized_entry_ok(
                final(ledger).entries@.last(),
                t,
                now_ms as int,
                final(ledger).entries@.last().created_at@,
            )
        }),
{
    let t = match timer {
        Some(t) => t.clone(),
        None => {
            return Err(SyncError::InvalidState(StateIssue::NoActiveTimer));
        },
    };
    let sw = match finalize_into_ledger(&t, ledger, now_ms) {
        Ok(sw) => sw,
        Err(e) => {
            return Err(e);
        },
    };
    *timer = None;
    Ok(sw)
}

/// Start a timer on an issue. A timer already in any state is first
/// finalized exactly as a stop would, producing its `pending` entry; then
/// the fresh timer begins with an empty bank. The two steps happen as one:
/// a finalization failure leaves both the timer and the ledger untouched.
pub fn timer_start(
    timer: &mut Option<TimerState>,
    ledger: &mut Ledger,
    issue_key: String,
    now_ms: i64,
) -> (r: Result<TimerState, SyncError>)
    requires
        old(ledger).wf(),
        old(ledger).next_id < i64::MAX,
        0 <= now_ms <= MAX_CLOCK_MS,
    ensures
        final(ledger).wf(),
        *old(timer) is Some && !can_finalize(old(timer)->0, now_ms as int) ==> r == Err::<
            TimerState,
            SyncError,
        >(SyncError::InvalidTimestamp) && *final(timer) == *old(timer) && *final(ledger) == *old(ledger),
        *old(timer) is None ==> *final(ledger) == *old(ledger),
        *old(timer) is Some && can_finalize(old(timer)->0, now_ms as int) ==> ({
            let t = old(timer)->0;
            &&& final(ledger).next_id == old(ledger).next_id + 1
            &&& final(ledger).entries@ == old(ledger).entries@.push(final(ledger).entries@.last())
            &&& finalized_entry_ok(
                final(ledger).entries@.last(),
                t,
                now_ms as int,
                final(ledger).entries@.last().created_at@,
            )
        }),
        (*old(timer) is None || can_finalize(old(timer)->0, now_ms as int)) ==> ({
            &&& r matches Ok(ts)
            &&& *final(timer) == Some(ts)
            &&& ts.issue_key@ == issue_key@
            &&& ts.started_at@ == utc_rfc3339_of(now_ms as int)
            &&& ts.accumulated_secs == 0
            &&& !ts.is_paused
            &&& ts.paused_at is None
            &&& ts.description@ == Seq::<char>::empty()
        }),
{
    match timer {
        Some(told) => {
            let t = told.clone();
            match finalize_into_ledger(&t, ledger, now_ms) {
                Ok(_) => {},
                Err(e) => {
                    return Err(e);
                },
            }
        },
        None => {},
    }
    let now_str = utc_rfc3339(now_ms);
    let ts = TimerState {
        issue_key,
        started_at: now_str,
        accumulated_secs: 0,
        is_paused: false,
        paused_at: None,
        description: String::new(),
    };
    let out = ts.clone();
    *timer = Some(ts);
    Ok(out)
}

} // verus!
