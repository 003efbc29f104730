//! Activity logs: the row shape, the defaults an ingest applies, and
//! the confirmation message.

use vstd::prelude::*;
use crate::numbering::{padded_digits, push_padded_digits};
use crate::timestamp::Timestamp;

verus! {

/// An activity log entry. The metadata is carried as raw JSON text.
pub struct ActivityLog {
    pub id: Option<i32>,
    pub log_id: Option<String>,
    pub user_id: Option<i32>,
    pub timestamp: Option<Timestamp>,
    pub level: Option<String>,
    pub category: Option<String>,
    pub action: String,
    pub details: Option<String>,
    pub metadata: Option<String>,
    pub created_at: Option<Timestamp>,
}

/// Fills the gaps of an inbound log entry: a missing identifier gets
/// the freshly generated one, a missing time stamp the current time,
/// a missing level `INFO`, a missing category `GENERAL`. Everything
/// present is kept.
pub fn normalize_log(log: ActivityLog, generated_id: String, now: Timestamp) -> (r: ActivityLog)
    ensures
        r.log_id is Some,
        match log.log_id {
            Some(given) => r.log_id == Some(given),
            None => r.log_id == Some(generated_id),
        },
        r.timestamp == (match log.timestamp {
            Some(t) => Some(t),
            None => Some(now),
        }),
        r.level is Some,
        match log.level {
            Some(given) => r.level == Some(given),
            None => r.level->Some_0@ == "INFO"@,
        },
        r.category is Some,
        match log.category {
            Some(given) => r.category == Some(given),
            None => r.category->Some_0@ == "GENERAL"@,
        },
        r.id == log.id,
        r.user_id == log.user_id,
        r.action == log.action,
        r.details == log.details,
        r.metadata == log.metadata,
        r.created_at == log.created_at,
{
    let log_id = match log.log_id {
        Some(given) => Some(given),
        None => Some(generated_id),
    };
    let timestamp = match log.timestamp {
        Some(t) => Some(t),
        None => Some(now),
    };
    let level = match log.level {
        Some(given) => Some(given),
        None => Some(String::from_str("INFO")),
    };
    let category = match log.category {
        Some(given) => Some(given),
        None => Some(String::from_str("GENERAL")),
    };
    ActivityLog { log_id, timestamp, level, category, ..log }
}

/// The confirmation message of a log ingest: the count of stored
/// entries and the fixed suffix.
pub fn logs_created_message(count: u64) -> (r: String)
    ensures
        r@ == padded_digits(count as nat, 1) + " logs created"@,
{
    let mut out = String::new();
    push_padded_digits(&mut out, count, 1);
    out.append(" logs created");
    out
}

} // verus!
