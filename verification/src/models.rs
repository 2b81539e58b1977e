//! Row types as storage hands them to the core and takes them back.
//! Timestamps are microseconds since the Unix epoch; 64-bit ids come from
//! the external generator and are roughly time-ordered.

use vstd::prelude::*;

verus! {

/// A registered user.
#[derive(Debug, Clone, PartialEq)]
pub struct User {
    pub uid: i32,
    pub username: String,
}

/// A chat row.
#[derive(Debug, Clone, PartialEq)]
pub struct Group {
    pub id: i64,
    pub name: String,
    pub description: Option<String>,
    pub avatar: Option<String>,
    pub created_at: i64,
    pub visibility: String,
}

/// A chat row to insert.
#[derive(Debug, Clone, PartialEq)]
pub struct NewGroup {
    pub id: i64,
    pub name: String,
    pub description: Option<String>,
    pub avatar: Option<String>,
    pub created_at: i64,
    pub visibility: String,
}

/// A membership row: a (chat, uid) pair appears at most once.
#[derive(Debug, Clone, PartialEq)]
pub struct GroupMembership {
    pub chat_id: i64,
    pub uid: i32,
    pub role: String,
    pub joined_at: i64,
}

/// A membership row to insert.
#[derive(Debug, Clone, PartialEq)]
pub struct NewGroupMembership {
    pub chat_id: i64,
    pub uid: i32,
    pub role: String,
    pub joined_at: i64,
}

/// A message row. `deleted_at` marks a soft delete: the row is never removed.
#[derive(Debug, Clone, PartialEq)]
pub struct Message {
    pub id: i64,
    pub message: Option<String>,
    pub message_type: String,
    pub reply_to_id: Option<i64>,
    pub reply_root_id: Option<i64>,
    pub client_generated_id: String,
    pub sender_uid: i32,
    pub chat_id: i64,
    pub created_at: i64,
    pub updated_at: Option<i64>,
    pub deleted_at: Option<i64>,
    pub has_attachments: bool,
}

/// A message row to insert.
#[derive(Debug, Clone, PartialEq)]
pub struct NewMessage {
    pub id: i64,
    pub message: Option<String>,
    pub message_type: String,
    pub reply_to_id: Option<i64>,
    pub reply_root_id: Option<i64>,
    pub client_generated_id: String,
    pub sender_uid: i32,
    pub chat_id: i64,
    pub created_at: i64,
    pub updated_at: Option<i64>,
    pub deleted_at: Option<i64>,
    pub has_attachments: bool,
}

} // verus!
