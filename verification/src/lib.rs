//! A worklog synchronization engine: a local ledger of time entries, a timer
//! state machine that finalizes running intervals into ledger entries, a push
//! engine that uploads pending entries to a remote issue tracker, and an
//! import engine that reconciles the ledger against the remote worklogs for a
//! calendar date.

pub mod adf;
pub mod client;
pub mod dates;
pub mod errors;
pub mod import;
pub mod ledger;
pub mod push;
pub mod settings;
pub mod strutil;
pub mod timefmt;
pub mod timer;
pub mod updater;

