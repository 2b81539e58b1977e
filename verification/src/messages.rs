//! The message lifecycle: create, edit and soft-delete decisions with their
//! authorization rules, the response shapes, and the reply previews a
//! message page carries. A message is created once, may be edited while not
//! deleted, and is soft-deleted at most once; only its sender may mutate it.

use vstd::prelude::*;
use crate::errors::ApiError;
use crate::models::{Message, NewMessage};
use crate::text::{is_blank, spec_is_blank};

verus! {

/// What editing decides, stated once for the executable function and the
/// laws: the row must exist, the requester must be its sender, the row must
/// not be deleted, and the new body must not be blank; then the body is
/// replaced and the edit timestamp set, everything else kept.
pub open spec fn spec_edit_message(
    found: Option<Message>,
    requester_uid: i32,
    new_body: String,
    now: i64,
) -> Result<Message, ApiError> {
    match found {
        None => Err(ApiError::NotFound),
        Some(m) => if m.sender_uid != requester_uid {
            Err(ApiError::Forbidden)
        } else if m.deleted_at is Some {
            Err(ApiError::InvalidState)
        } else if spec_is_blank(new_body@) {
            Err(ApiError::InvalidInput)
        } else {
            Ok(Message { message: Some(new_body), updated_at: Some(now), ..m })
        },
    }
}

/// The edit decision. `Ok` carries the row as it must be stored and
/// broadcast; an error means nothing is written.
pub fn edit_message(found: Option<Message>, requester_uid: i32, new_body: String, now: i64) -> (r:
    Result<Message, ApiError>)
    ensures
        r == spec_edit_message(found, requester_uid, new_body, now),
{
    match found {
        None => Err(ApiError::NotFound),
        Some(m) => {
            if m.sender_uid != requester_uid {
                Err(ApiError::Forbidden)
            } else if m.deleted_at.is_some() {
                Err(ApiError::InvalidState)
            } else if is_blank(new_body.as_str()) {
                Err(ApiError::InvalidInput)
            } else {
                Ok(Message { message: Some(new_body), updated_at: Some(now), ..m })
            }
        },
    }
}

/// What deleting decides: the row must exist, the requester must be its
/// sender, and a deleted row cannot be deleted again; then only the
/// deletion timestamp is set — the row and its body are retained.
pub open spec fn spec_delete_message(found: Option<Message>, requester_uid: i32, now: i64) -> Result<
    Message,
    ApiError,
> {
    match found {
        None => Err(ApiError::NotFound),
        Some(m) => if m.sender_uid != requester_uid {
            Err(ApiError::Forbidden)
        } else if m.deleted_at is Some {
            Err(ApiError::AlreadyDeleted)
        } else {
            Ok(Message { deleted_at: Some(now), ..m })
        },
    }
}

/// The soft-delete decision. `Ok` carries the row as it must be stored and
/// broadcast; an error means nothing is written.
pub fn delete_message(found: Option<Message>, requester_uid: i32, now: i64) -> (r: Result<
    Message,
    ApiError,
>)
    ensures
        r == spec_delete_message(found, requester_uid, now),
{
    match found {
        None => Err(ApiError::NotFound),
        Some(m) => {
            if m.sender_uid != requester_uid {
                Err(ApiError::Forbidden)
            } else if m.deleted_at.is_some() {
                Err(ApiError::AlreadyDeleted)
            } else {
                Ok(Message { deleted_at: Some(now), ..m })
            }
        },
    }
}

/// Builds the row a new message writes: fresh id, the caller's content,
/// created now, never edited or deleted, no attachments yet. The
/// client-supplied idempotency token is stored as given, not enforced as
/// unique: deduplicating retries is the client's concern.
pub fn create_message(
    id: i64,
    chat_id: i64,
    sender_uid: i32,
    body: Option<String>,
    message_type: String,
    client_generated_id: String,
    reply_to_id: Option<i64>,
    reply_root_id: Option<i64>,
    now: i64,
) -> (m: NewMessage)
    ensures
        m.id == id,
        m.chat_id == chat_id,
        m.sender_uid == sender_uid,
        m.message == body,
        m.message_type == message_type,
        m.client_generated_id == client_generated_id,
        m.reply_to_id == reply_to_id,
        m.reply_root_id == reply_root_id,
        m.created_at == now,
        m.updated_at is None,
        m.deleted_at is None,
        !m.has_attachments,
{
    NewMessage {
        id,
        message: body,
        message_type,
        reply_to_id,
        reply_root_id,
        client_generated_id,
        sender_uid,
        chat_id,
        created_at: now,
        updated_at: None,
        deleted_at: None,
        has_attachments: false,
    }
}

/// Editing twice keeps the later edit: both edits pass, and the stored row
/// carries the second body and the second timestamp, with identity,
/// creation time and deletion state untouched.
pub proof fn lemma_edit_twice_latest_wins(
    m: Message,
    uid: i32,
    b1: String,
    t1: i64,
    b2: String,
    t2: i64,
)
    requires
        m.sender_uid == uid,
        m.deleted_at is None,
        !spec_is_blank(b1@),
        !spec_is_blank(b2@),
    ensures
        ({
            let r1 = spec_edit_message(Some(m), uid, b1, t1);
            let r2 = spec_edit_message(Some(r1.unwrap()), uid, b2, t2);
            &&& r1 is Ok
            &&& r2 is Ok
            &&& r2.unwrap().message == Some(b2)
            &&& r2.unwrap().updated_at == Some(t2)
            &&& r2.unwrap().id == m.id
            &&& r2.unwrap().chat_id == m.chat_id
            &&& r2.unwrap().sender_uid == m.sender_uid
            &&& r2.unwrap().created_at == m.created_at
            &&& r2.unwrap().deleted_at is None
        }),
{
}

/// Editing a deleted message fails with `InvalidState`, even for the sender.
pub proof fn lemma_edit_deleted_fails(m: Message, b: String, t: i64)
    requires
        m.deleted_at is Some,
    ensures
        spec_edit_message(Some(m), m.sender_uid, b, t) == Err::<Message, ApiError>(
            ApiError::InvalidState,
        ),
{
}

/// Deleting twice fails: the first delete passes and sets the deletion
/// timestamp, the second fails with `AlreadyDeleted`.
pub proof fn lemma_delete_twice_fails(m: Message, uid: i32, t1: i64, t2: i64)
    requires
        m.sender_uid == uid,
        m.deleted_at is None,
    ensures
        ({
            let r1 = spec_delete_message(Some(m), uid, t1);
            &&& r1 is Ok
            &&& r1.unwrap().deleted_at == Some(t1)
            &&& r1.unwrap().message == m.message
            &&& spec_delete_message(Some(r1.unwrap()), uid, t2) == Err::<Message, ApiError>(
                ApiError::AlreadyDeleted,
            )
        }),
{
}

/// Only the original sender may edit or delete: any other uid fails with
/// `Forbidden`, and since the decision is an error, no row is written — the
/// message stays as it was.
pub proof fn lemma_only_sender_may_mutate(m: Message, other_uid: i32, b: String, t: i64)
    requires
        other_uid != m.sender_uid,
    ensures
        spec_edit_message(Some(m), other_uid, b, t) == Err::<Message, ApiError>(ApiError::Forbidden),
        spec_delete_message(Some(m), other_uid, t) == Err::<Message, ApiError>(ApiError::Forbidden),
{
}

/// The compact preview of the message a listed message replies to.
#[derive(Debug, Clone, PartialEq)]
pub struct ReplyToMessage {
    pub id: i64,
    pub message: Option<String>,
    pub sender_uid: i32,
    pub deleted_at: Option<i64>,
}

/// One message as callers see it, with its optional reply preview.
#[derive(Debug, Clone, PartialEq)]
pub struct MessageResponse {
    pub id: i64,
    pub message: Option<String>,
    pub message_type: String,
    pub reply_to_id: Option<i64>,
    pub reply_root_id: Option<i64>,
    pub client_generated_id: String,
    pub sender_uid: i32,
    pub chat_id: i64,
    pub created_at: i64,
    pub updated_at: Option<i64>,
    pub deleted_at: Option<i64>,
    pub has_attachments: bool,
    pub reply_to_message: Option<ReplyToMessage>,
}

/// One page of the message listing.
#[derive(Debug, Clone, PartialEq)]
pub struct ListMessagesResponse {
    pub messages: Vec<MessageResponse>,
    pub next_cursor: Option<i64>,
}

impl core::convert::From<Message> for MessageResponse {
    /// The plain response for a row, with no reply preview attached.
    fn from(m: Message) -> (r: MessageResponse) {
        MessageResponse {
            id: m.id,
            message: m.message,
            message_type: m.message_type,
            reply_to_id: m.reply_to_id,
            reply_root_id: m.reply_root_id,
            client_generated_id: m.client_generated_id,
            sender_uid: m.sender_uid,
            chat_id: m.chat_id,
            created_at: m.created_at,
            updated_at: m.updated_at,
            deleted_at: m.deleted_at,
            has_attachments: m.has_attachments,
            reply_to_message: None,
        }
    }
}

impl vstd::std_specs::convert::FromSpecImpl<Message> for MessageResponse {
    open spec fn obeys_from_spec() -> bool {
        true
    }

    open spec fn from_spec(m: Message) -> MessageResponse {
        MessageResponse {
            id: m.id,
            message: m.message,
            message_type: m.message_type,
            reply_to_id: m.reply_to_id,
            reply_root_id: m.reply_root_id,
            client_generated_id: m.client_generated_id,
            sender_uid: m.sender_uid,
            chat_id: m.chat_id,
            created_at: m.created_at,
            updated_at: m.updated_at,
            deleted_at: m.deleted_at,
            has_attachments: m.has_attachments,
            reply_to_message: None,
        }
    }
}

/// The preview a reply row yields.
pub open spec fn spec_reply_preview(m: Message) -> ReplyToMessage {
    ReplyToMessage { id: m.id, message: m.message, sender_uid: m.sender_uid, deleted_at: m.deleted_at }
}

/// The response a freshly created message returns and broadcasts: the new
/// row, with the replied-to row as preview when one was fetched.
pub fn created_message_response(m: NewMessage, reply: Option<Message>) -> (r: MessageResponse)
    ensures
        r.id == m.id,
        r.message == m.message,
        r.message_type == m.message_type,
        r.reply_to_id == m.reply_to_id,
        r.reply_root_id == m.reply_root_id,
        r.client_generated_id == m.client_generated_id,
        r.sender_uid == m.sender_uid,
        r.chat_id == m.chat_id,
        r.created_at == m.created_at,
        r.updated_at == m.updated_at,
        r.deleted_at == m.deleted_at,
        r.has_attachments == m.has_attachments,
        r.reply_to_message == (match (m.reply_to_id, reply) {
            (Some(_), Some(rm)) => Some(spec_reply_preview(rm)),
            _ => None::<ReplyToMessage>,
        }),
{
    let preview: Option<ReplyToMessage> = if m.reply_to_id.is_some() {
        match reply {
            Some(rm) => Some(
                ReplyToMessage {
                    id: rm.id,
                    message: rm.message,
                    sender_uid: rm.sender_uid,
                    deleted_at: rm.deleted_at,
                },
            ),
            None => None,
        }
    } else {
        None
    };
    MessageResponse {
        id: m.id,
        message: m.message,
        message_type: m.message_type,
        reply_to_id: m.reply_to_id,
        reply_root_id: m.reply_root_id,
        client_generated_id: m.client_generated_id,
        sender_uid: m.sender_uid,
        chat_id: m.chat_id,
        created_at: m.created_at,
        updated_at: m.updated_at,
        deleted_at: m.deleted_at,
        has_attachments: m.has_attachments,
        reply_to_message: preview,
    }
}

pub open spec fn spec_has_msg(rows: Seq<Message>, id: i64) -> bool {
    exists|k: int| 0 <= k < rows.len() && (#[trigger] rows[k]).id == id
}

pub open spec fn spec_msg_index(rows: Seq<Message>, id: i64) -> int {
    choose|k: int| 0 <= k < rows.len() && (#[trigger] rows[k]).id == id
}

/// Each message appears on at most one row.
pub open spec fn spec_msg_ids_distinct(rows: Seq<Message>) -> bool {
    forall|i: int, j: int|
        0 <= i < j < rows.len() ==> (#[trigger] rows[i]).id != (#[trigger] rows[j]).id
}

fn vec_contains_i64(v: &Vec<i64>, x: i64) -> (r: bool)
    ensures
        r == v@.contains(x),
{
    let n: usize = v.len();
    let mut i: usize = 0;
    while i < n
        invariant
            i <= n,
            n == v@.len(),
            forall|k: int| 0 <= k < i ==> v@[k] != x,
        decreases n - i,
    {
        if v[i] == x {
            assert(v@.contains(x));
            return true;
        }
        i = i + 1;
    }
    assert(!v@.contains(x));
    false
}

/// Every id in `ids` is some page row's reply target.
pub open spec fn spec_reply_ids_sound(ids: Seq<i64>, page: Seq<Message>) -> bool {
    forall|i: int|
        0 <= i < ids.len() ==> exists|j: int|
            0 <= j < page.len() && page[j].reply_to_id == Some(#[trigger] ids[i])
}

/// The distinct set of reply targets on a page, for one batched lookup
/// instead of one per message: every reply target appears, each exactly
/// once, and nothing that no message replies to.
pub fn collect_reply_ids(page: &Vec<Message>) -> (r: Vec<i64>)
    ensures
        forall|j: int|
            0 <= j < page@.len() ==> ((#[trigger] page@[j]).reply_to_id matches Some(id)
                ==> r@.contains(id)),
        spec_reply_ids_sound(r@, page@),
        forall|i1: int, i2: int| 0 <= i1 < i2 < r@.len() ==> r@[i1] != r@[i2],
{
    let n: usize = page.len();
    let mut out: Vec<i64> = Vec::new();
    let mut j: usize = 0;
    while j < n
        invariant
            j <= n,
            n == page@.len(),
            forall|k: int|
                0 <= k < j ==> ((#[trigger] page@[k]).reply_to_id matches Some(id) ==> out@.contains(
                    id,
                )),
            spec_reply_ids_sound(out@, page@),
            forall|i1: int, i2: int| 0 <= i1 < i2 < out@.len() ==> out@[i1] != out@[i2],
        decreases n - j,
    {
        if let Some(id) = page[j].reply_to_id {
            if !vec_contains_i64(&out, id) {
                let ghost before: Seq<i64> = out@;
                out.push(id);
                proof {
                    let newlen: int = out@.len() as int;
                    assert(out@[newlen - 1] == id);
                    assert(out@.contains(id));
                    assert(page@[j as int].reply_to_id == Some(out@[newlen - 1]));
                    assert forall|x: i64| before.contains(x) implies out@.contains(x) by {
                        let w: int = choose|w: int| 0 <= w < before.len() && before[w] == x;
                        assert(out@[w] == x);
                    }
                    assert forall|i: int|
                        0 <= i < out@.len() implies exists|k2: int|
                            0 <= k2 < page@.len() && page@[k2].reply_to_id == Some(
                                #[trigger] out@[i],
                            ) by {
                        if i < newlen - 1 {
                            assert(out@[i] == before[i]);
                        } else {
                            assert(page@[j as int].reply_to_id == Some(out@[i]));
                        }
                    }
                    assert(spec_reply_ids_sound(out@, page@));
                    assert forall|i1: int, i2: int|
                        0 <= i1 < i2 < out@.len() implies out@[i1] != out@[i2] by {
                        if i2 == newlen - 1 {
                            assert(!before.contains(id));
                            assert(out@[i1] == before[i1]);
                        }
                    }
                }
            }
            proof {
                assert(out@.contains(id));
            }
        }
        j = j + 1;
    }
    out
}

/// The index of the row with this id, under one row per id.
fn find_message(rows: &Vec<Message>, id: i64) -> (r: Option<usize>)
    requires
        spec_msg_ids_distinct(rows@),
    ensures
        match r {
            Some(idx) => idx < rows@.len() && rows@[idx as int].id == id && spec_has_msg(rows@, id)
                && idx as int == spec_msg_index(rows@, id),
            None => !spec_has_msg(rows@, id),
        },
{
    let n: usize = rows.len();
    let mut i: usize = 0;
    while i < n
        invariant
            i <= n,
            n == rows@.len(),
            spec_msg_ids_distinct(rows@),
            forall|k: int| 0 <= k < i ==> (#[trigger] rows@[k]).id != id,
        decreases n - i,
    {
        if rows[i].id == id {
            proof {
                assert(spec_has_msg(rows@, id));
                let k = spec_msg_index(rows@, id);
                if k != i as int {
                    assert(rows@[k].id == rows@[i as int].id);
                    assert(false);
                }
            }
            return Some(i);
        }
        i = i + 1;
    }
    assert(!spec_has_msg(rows@, id));
    None
}

/// The preview a page message carries, given the batch of fetched reply
/// rows: the row its reply target names, or nothing when that row is gone.
pub open spec fn spec_preview_for(m: Message, replies: Seq<Message>) -> Option<ReplyToMessage> {
    match m.reply_to_id {
        None => None,
        Some(rid) => if spec_has_msg(replies, rid) {
            Some(spec_reply_preview(replies[spec_msg_index(replies, rid)]))
        } else {
            None
        },
    }
}

/// Shapes one page of listed messages: each row becomes its response, with
/// the reply preview resolved from the batched lookup.
pub fn build_message_responses(page: Vec<Message>, replies: &Vec<Message>) -> (r: Vec<
    MessageResponse,
>)
    requires
        spec_msg_ids_distinct(replies@),
    ensures
        r@.len() == page@.len(),
        forall|i: int|
            0 <= i < page@.len() ==> {
                let m = page@[i];
                &&& (#[trigger] r@[i]).id == m.id
                &&& r@[i].message == m.message
                &&& r@[i].message_type == m.message_type
                &&& r@[i].reply_to_id == m.reply_to_id
                &&& r@[i].reply_root_id == m.reply_root_id
                &&& r@[i].client_generated_id == m.client_generated_id
                &&& r@[i].sender_uid == m.sender_uid
                &&& r@[i].chat_id == m.chat_id
                &&& r@[i].created_at == m.created_at
                &&& r@[i].updated_at == m.updated_at
                &&& r@[i].deleted_at == m.deleted_at
                &&& r@[i].has_attachments == m.has_attachments
                &&& r@[i].reply_to_message == spec_preview_for(m, replies@)
            },
{
    let ghost orig: Seq<Message> = page@;
    let mut page = page;
    let mut out: Vec<MessageResponse> = Vec::new();
    proof {
        assert(page@ =~= orig.skip(0));
    }
    while page.len() > 0
        invariant
            spec_msg_ids_distinct(replies@),
            out@.len() <= orig.len(),
            page@ == orig.skip(out@.len() as int),
            forall|i: int|
                0 <= i < out@.len() ==> {
                    let m = orig[i];
                    &&& (#[trigger] out@[i]).id == m.id
                    &&& out@[i].message == m.message
                    &&& out@[i].message_type == m.message_type
                    &&& out@[i].reply_to_id == m.reply_to_id
                    &&& out@[i].reply_root_id == m.reply_root_id
                    &&& out@[i].client_generated_id == m.client_generated_id
                    &&& out@[i].sender_uid == m.sender_uid
                    &&& out@[i].chat_id == m.chat_id
                    &&& out@[i].created_at == m.created_at
                    &&& out@[i].updated_at == m.updated_at
                    &&& out@[i].deleted_at == m.deleted_at
                    &&& out@[i].has_attachments == m.has_attachments
                    &&& out@[i].reply_to_message == spec_preview_for(m, replies@)
                },
        decreases page@.len(),
    {
        let ghost k: int = out@.len() as int;
        proof {
            assert(page@[0] == orig[k]);
        }
        let m: Message = page.remove(0);
        let preview: Option<ReplyToMessage> = match m.reply_to_id {
            None => None,
            Some(rid) => {
                match find_message(replies, rid) {
                    Some(idx) => {
                        let rm: &Message = &replies[idx];
                        Some(
                            ReplyToMessage {
                                id: rm.id,
                                message: match &rm.message {
                                    Some(s) => Some(s.clone()),
                                    None => None,
                                },
                                sender_uid: rm.sender_uid,
                                deleted_at: rm.deleted_at,
                            },
                        )
                    },
                    None => None,
                }
            },
        };
        assert(preview == spec_preview_for(orig[k], replies@));
        out.push(
            MessageResponse {
                id: m.id,
                message: m.message,
                message_type: m.message_type,
                reply_to_id: m.reply_to_id,
                reply_root_id: m.reply_root_id,
                client_generated_id: m.client_generated_id,
                sender_uid: m.sender_uid,
                chat_id: m.chat_id,
                created_at: m.created_at,
                updated_at: m.updated_at,
                deleted_at: m.deleted_at,
                has_attachments: m.has_attachments,
                reply_to_message: preview,
            },
        );
        proof {
            assert(page@ =~= orig.skip(k + 1));
        }
    }
    out
}

/// The tag of a real-time event envelope.
#[derive(Clone, Copy, Debug, PartialEq, Eq, Structural)]
pub enum EventKind {
    Created,
    Updated,
    Deleted,
}

pub open spec fn spec_event_tag(k: EventKind) -> Seq<char> {
    match k {
        EventKind::Created => "message"@,
        EventKind::Updated => "message_updated"@,
        EventKind::Deleted => "message_deleted"@,
    }
}

/// The tag text an envelope of this kind carries.
pub fn event_tag(k: EventKind) -> (s: String)
    ensures
        s@ == spec_event_tag(k),
{
    match k {
        EventKind::Created => String::from_str("message"),
        EventKind::Updated => String::from_str("message_updated"),
        EventKind::Deleted => String::from_str("message_deleted"),
    }
}

} // verus!
