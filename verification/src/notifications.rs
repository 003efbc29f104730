//! Notifications: the stored row and the creation request.

use vstd::prelude::*;
use crate::timestamp::Timestamp;

verus! {

/// A notification row.
pub struct Notification {
    pub id: i32,
    pub user_id: i32,
    pub notification_type: String,
    pub title: String,
    pub message: String,
    pub timestamp: Option<Timestamp>,
    pub read: Option<bool>,
    pub created_at: Option<Timestamp>,
}

/// Body of a notification creation; the store stamps the time and
/// marks it unread.
pub struct CreateNotificationRequest {
    pub user_id: i32,
    pub notification_type: String,
    pub title: String,
    pub message: String,
}

/// The row a creation request becomes: its fields, the given time
/// stamp, unread, and the identity the store assigned.
pub fn notification_of_request(req: CreateNotificationRequest, id: i32, now: Timestamp) -> (r:
    Notification)
    ensures
        r.id == id,
        r.user_id == req.user_id,
        r.notification_type == req.notification_type,
        r.title == req.title,
        r.message == req.message,
        r.timestamp == Some(now),
        r.read == Some(false),
        r.created_at is None,
{
    Notification {
        id,
        user_id: req.user_id,
        notification_type: req.notification_type,
        title: req.title,
        message: req.message,
        timestamp: Some(now),
        read: Some(false),
        created_at: None,
    }
}

} // verus!
