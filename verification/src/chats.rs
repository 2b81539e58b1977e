//! Chat creation, detail and metadata update: name normalization, the
//! visibility rule, and the rows handed to storage.

use vstd::prelude::*;
use crate::errors::ApiError;
use crate::members::spec_is_admin;
use crate::models::{Group, NewGroup, NewGroupMembership};
use crate::text::{is_blank, spec_is_blank};

verus! {

/// What creating a chat returns to the caller.
#[derive(Debug, Clone, PartialEq)]
pub struct CreateChatResponse {
    pub id: i64,
    pub name: Option<String>,
    pub created_at: i64,
}

/// A chat's full metadata, as the detail endpoint returns it.
#[derive(Debug, Clone, PartialEq)]
pub struct ChatDetailResponse {
    pub id: i64,
    pub name: String,
    pub description: Option<String>,
    pub avatar: Option<String>,
    pub visibility: String,
    pub created_at: i64,
}

/// The fields a metadata update may touch; absent fields stay as they are.
#[derive(Debug, Clone, PartialEq)]
pub struct UpdateChatBody {
    pub name: Option<String>,
    pub description: Option<String>,
    pub avatar: Option<String>,
    pub visibility: Option<String>,
}

/// The chat name as stored: the given name, or empty when it is absent or
/// blank.
pub open spec fn spec_normalized_name(name: Option<String>) -> Seq<char> {
    match name {
        Some(s) => if spec_is_blank(s@) {
            Seq::<char>::empty()
        } else {
            s@
        },
        None => Seq::<char>::empty(),
    }
}

/// Builds what creating a chat writes and returns: the chat row (public, no
/// description or avatar), the creator's admin membership, and the response,
/// whose name is absent when the stored name is empty.
pub fn create_chat(id: i64, creator_uid: i32, name: Option<String>, now: i64) -> (r: (
    NewGroup,
    NewGroupMembership,
    CreateChatResponse,
))
    ensures
        r.0.id == id,
        r.0.name@ == spec_normalized_name(name),
        r.0.description is None,
        r.0.avatar is None,
        r.0.created_at == now,
        r.0.visibility@ == "public"@,
        r.1.chat_id == id,
        r.1.uid == creator_uid,
        r.1.role@ == "admin"@,
        r.1.joined_at == now,
        r.2.id == id,
        r.2.created_at == now,
        r.2.name == (if spec_normalized_name(name).len() == 0 {
            None::<String>
        } else {
            Some(r.0.name)
        }),
        r.2.name is Some ==> r.2.name.unwrap()@ == spec_normalized_name(name),
{
    let stored_name: String = match name {
        Some(s) => {
            if is_blank(s.as_str()) {
                String::new()
            } else {
                s
            }
        },
        None => String::new(),
    };
    let response_name: Option<String> = if stored_name.as_str().is_empty() {
        None
    } else {
        Some(stored_name.clone())
    };
    let group = NewGroup {
        id,
        name: stored_name,
        description: None,
        avatar: None,
        created_at: now,
        visibility: String::from_str("public"),
    };
    let membership = NewGroupMembership {
        chat_id: id,
        uid: creator_uid,
        role: String::from_str("admin"),
        joined_at: now,
    };
    let response = CreateChatResponse { id, name: response_name, created_at: now };
    (group, membership, response)
}

/// The detail decision: a non-member is refused, a member gets the chat's
/// metadata, and a chat storage cannot find is reported absent.
pub fn chat_detail(member_count: i64, chat: Option<Group>) -> (r: Result<
    ChatDetailResponse,
    ApiError,
>)
    ensures
        member_count == 0 ==> r == Err::<ChatDetailResponse, ApiError>(ApiError::Forbidden),
        member_count != 0 && chat is None ==> r == Err::<ChatDetailResponse, ApiError>(
            ApiError::NotFound,
        ),
        member_count != 0 && chat is Some ==> {
            let g = chat.unwrap();
            &&& r is Ok
            &&& r.unwrap().id == g.id
            &&& r.unwrap().name == g.name
            &&& r.unwrap().description == g.description
            &&& r.unwrap().avatar == g.avatar
            &&& r.unwrap().visibility == g.visibility
            &&& r.unwrap().created_at == g.created_at
        },
{
    if member_count == 0 {
        return Err(ApiError::Forbidden);
    }
    match chat {
        None => Err(ApiError::NotFound),
        Some(g) => Ok(
            ChatDetailResponse {
                id: g.id,
                name: g.name,
                description: g.description,
                avatar: g.avatar,
                visibility: g.visibility,
                created_at: g.created_at,
            },
        ),
    }
}

/// A visibility value a chat may carry.
pub open spec fn spec_valid_visibility(v: Seq<char>) -> bool {
    v == "public"@ || v == "private"@
}

/// The metadata-update decision: only an admin may update, an unknown
/// visibility value is refused, and each present field replaces the stored
/// one while absent fields keep their values.
pub fn apply_chat_update(requester_role: &Option<String>, chat: Group, body: UpdateChatBody) -> (r:
    Result<Group, ApiError>)
    ensures
        !spec_is_admin(*requester_role) ==> r == Err::<Group, ApiError>(ApiError::Forbidden),
        spec_is_admin(*requester_role) && (body.visibility matches Some(v)
            && !spec_valid_visibility(v@)) ==> r == Err::<Group, ApiError>(ApiError::InvalidInput),
        spec_is_admin(*requester_role) && (body.visibility matches Some(v) ==> spec_valid_visibility(
            v@,
        )) ==> {
            &&& r is Ok
            &&& r.unwrap().id == chat.id
            &&& r.unwrap().created_at == chat.created_at
            &&& r.unwrap().name == (match body.name {
                Some(n) => n,
                None => chat.name,
            })
            &&& r.unwrap().description == (match body.description {
                Some(d) => Some(d),
                None => chat.description,
            })
            &&& r.unwrap().avatar == (match body.avatar {
                Some(a) => Some(a),
                None => chat.avatar,
            })
            &&& r.unwrap().visibility == (match body.visibility {
                Some(v) => v,
                None => chat.visibility,
            })
        },
{
    if let Err(e) = crate::members::check_admin_role(requester_role) {
        return Err(e);
    }
    let visibility: String = match body.visibility {
        Some(v) => {
            let ok: bool = v == String::from_str("public") || v == String::from_str("private");
            if !ok {
                return Err(ApiError::InvalidInput);
            }
            v
        },
        None => chat.visibility,
    };
    let name: String = match body.name {
        Some(n) => n,
        None => chat.name,
    };
    let description: Option<String> = match body.description {
        Some(d) => Some(d),
        None => chat.description,
    };
    let avatar: Option<String> = match body.avatar {
        Some(a) => Some(a),
        None => chat.avatar,
    };
    Ok(Group { id: chat.id, name, description, avatar, created_at: chat.created_at, visibility })
}

} // verus!
