//! Membership rules: role parsing and validation, the membership and admin
//! gates that guard every chat operation, and the decisions behind adding,
//! removing and re-roling members.

use vstd::prelude::*;
use crate::errors::ApiError;
use crate::models::NewGroupMembership;

verus! {

/// A member's role in a chat.
#[derive(Clone, Copy, Debug, PartialEq, Eq, Structural)]
pub enum Role {
    Admin,
    Member,
}

pub open spec fn spec_role_text(r: Role) -> Seq<char> {
    match r {
        Role::Admin => "admin"@,
        Role::Member => "member"@,
    }
}

pub open spec fn spec_parse_role(s: Seq<char>) -> Option<Role> {
    if s == "admin"@ {
        Some(Role::Admin)
    } else if s == "member"@ {
        Some(Role::Member)
    } else {
        None
    }
}

/// The role a stored role column denotes, if it is a known one.
pub fn parse_role(s: &String) -> (r: Option<Role>)
    ensures
        r == spec_parse_role(s@),
{
    if *s == String::from_str("admin") {
        Some(Role::Admin)
    } else if *s == String::from_str("member") {
        Some(Role::Member)
    } else {
        proof {
            reveal_strlit("admin");
            reveal_strlit("member");
        }
        None
    }
}

pub fn role_text(r: Role) -> (s: String)
    ensures
        s@ == spec_role_text(r),
{
    match r {
        Role::Admin => String::from_str("admin"),
        Role::Member => String::from_str("member"),
    }
}

/// The membership gate: a requester with no membership row may not touch
/// the chat. `member_count` is storage's count of the requester's rows.
pub fn check_membership(member_count: i64) -> (r: Result<(), ApiError>)
    ensures
        member_count == 0 ==> r == Err::<(), ApiError>(ApiError::Forbidden),
        member_count != 0 ==> r == Ok::<(), ApiError>(()),
{
    if member_count == 0 {
        Err(ApiError::Forbidden)
    } else {
        Ok(())
    }
}

/// Whether a stored role column reads as the admin role.
pub open spec fn spec_is_admin(role: Option<String>) -> bool {
    match role {
        Some(r) => r@ == "admin"@,
        None => false,
    }
}

/// The admin gate: only a requester whose membership row carries the admin
/// role passes; a non-admin member and a non-member both fail.
pub fn check_admin_role(role: &Option<String>) -> (r: Result<(), ApiError>)
    ensures
        spec_is_admin(*role) ==> r == Ok::<(), ApiError>(()),
        !spec_is_admin(*role) ==> r == Err::<(), ApiError>(ApiError::Forbidden),
{
    match role {
        Some(ro) => {
            if *ro == String::from_str("admin") {
                Ok(())
            } else {
                Err(ApiError::Forbidden)
            }
        },
        None => Err(ApiError::Forbidden),
    }
}

/// The decision behind adding a member, in the order the rules apply: the
/// requester must be an admin, the target user must exist, must not already
/// be a member, and the requested role (defaulting to plain membership)
/// must be a known one. On success, the membership row to insert.
pub fn add_member_check(
    requester_role: &Option<String>,
    target_exists: bool,
    already_member: bool,
    requested_role: Option<String>,
    chat_id: i64,
    target_uid: i32,
    now: i64,
) -> (r: Result<NewGroupMembership, ApiError>)
    ensures
        !spec_is_admin(*requester_role) ==> r == Err::<NewGroupMembership, ApiError>(
            ApiError::Forbidden,
        ),
        spec_is_admin(*requester_role) && !target_exists ==> r == Err::<NewGroupMembership, ApiError>(
            ApiError::NotFound,
        ),
        spec_is_admin(*requester_role) && target_exists && already_member ==> r == Err::<
            NewGroupMembership,
            ApiError,
        >(ApiError::Conflict),
        spec_is_admin(*requester_role) && target_exists && !already_member ==> {
            let role_view = match requested_role {
                Some(s) => s@,
                None => "member"@,
            };
            if spec_parse_role(role_view) is Some {
                &&& r is Ok
                &&& r.unwrap().chat_id == chat_id
                &&& r.unwrap().uid == target_uid
                &&& r.unwrap().joined_at == now
                &&& r.unwrap().role@ == role_view
            } else {
                r == Err::<NewGroupMembership, ApiError>(ApiError::InvalidInput)
            }
        },
{
    if let Err(e) = check_admin_role(requester_role) {
        return Err(e);
    }
    if !target_exists {
        return Err(ApiError::NotFound);
    }
    if already_member {
        return Err(ApiError::Conflict);
    }
    let role: String = match requested_role {
        Some(s) => s,
        None => String::from_str("member"),
    };
    if parse_role(&role).is_none() {
        return Err(ApiError::InvalidInput);
    }
    Ok(NewGroupMembership { chat_id, uid: target_uid, role, joined_at: now })
}

/// The decision behind removing a member: an admin may remove anyone, a
/// plain member only themselves, and the target must have a membership row
/// to remove. `Ok` means storage should delete that row.
pub fn remove_member_check(
    requester_uid: i32,
    target_uid: i32,
    requester_role: &Option<String>,
    target_is_member: bool,
) -> (r: Result<(), ApiError>)
    ensures
        requester_uid != target_uid && !spec_is_admin(*requester_role) ==> r == Err::<(), ApiError>(
            ApiError::Forbidden,
        ),
        requester_uid == target_uid && requester_role is None ==> r == Err::<(), ApiError>(
            ApiError::Forbidden,
        ),
        (requester_uid != target_uid && spec_is_admin(*requester_role) || requester_uid
            == target_uid && requester_role is Some) ==> r == (if target_is_member {
            Ok::<(), ApiError>(())
        } else {
            Err::<(), ApiError>(ApiError::NotFound)
        }),
{
    if requester_uid != target_uid {
        if let Err(e) = check_admin_role(requester_role) {
            return Err(e);
        }
    } else {
        if requester_role.is_none() {
            return Err(ApiError::Forbidden);
        }
    }
    if !target_is_member {
        return Err(ApiError::NotFound);
    }
    Ok(())
}

/// The decision behind changing a member's role: the requester must be an
/// admin, the new role a known one, and the target a member. On success,
/// the role to store.
pub fn update_member_role_check(
    requester_role: &Option<String>,
    new_role: &String,
    target_is_member: bool,
) -> (r: Result<Role, ApiError>)
    ensures
        !spec_is_admin(*requester_role) ==> r == Err::<Role, ApiError>(ApiError::Forbidden),
        spec_is_admin(*requester_role) && spec_parse_role(new_role@) is None ==> r == Err::<
            Role,
            ApiError,
        >(ApiError::InvalidInput),
        spec_is_admin(*requester_role) && spec_parse_role(new_role@) is Some ==> r == (
        if target_is_member {
            Ok::<Role, ApiError>(spec_parse_role(new_role@).unwrap())
        } else {
            Err::<Role, ApiError>(ApiError::NotFound)
        }),
{
    if let Err(e) = check_admin_role(requester_role) {
        return Err(e);
    }
    let parsed: Option<Role> = parse_role(new_role);
    match parsed {
        None => Err(ApiError::InvalidInput),
        Some(role) => {
            if !target_is_member {
                Err(ApiError::NotFound)
            } else {
                Ok(role)
            }
        },
    }
}

/// One listed member.
#[derive(Debug, Clone, PartialEq)]
pub struct MemberResponse {
    pub uid: i32,
    pub role: String,
    pub joined_at: i64,
    pub username: Option<String>,
}

/// Shapes the member listing: one response per membership row joined with
/// its user, in storage order.
pub fn member_responses(rows: Vec<(i32, String, i64, String)>) -> (r: Vec<MemberResponse>)
    ensures
        r@.len() == rows@.len(),
        forall|i: int|
            0 <= i < rows@.len() ==> {
                &&& (#[trigger] r@[i]).uid == rows@[i].0
                &&& r@[i].role == rows@[i].1
                &&& r@[i].joined_at == rows@[i].2
                &&& r@[i].username == Some(rows@[i].3)
            },
{
    let ghost orig: Seq<(i32, String, i64, String)> = rows@;
    let mut rows = rows;
    let mut out: Vec<MemberResponse> = Vec::new();
    proof {
        assert(rows@ =~= orig.skip(0));
    }
    while rows.len() > 0
        invariant
            out@.len() <= orig.len(),
            rows@ == orig.skip(out@.len() as int),
            forall|i: int|
                0 <= i < out@.len() ==> {
                    &&& (#[trigger] out@[i]).uid == orig[i].0
                    &&& out@[i].role == orig[i].1
                    &&& out@[i].joined_at == orig[i].2
                    &&& out@[i].username == Some(orig[i].3)
                },
        decreases rows@.len(),
    {
        let ghost k: int = out@.len() as int;
        proof {
            assert(rows@[0] == orig[k]);
        }
        let (uid, role, joined_at, username) = rows.remove(0);
        out.push(MemberResponse { uid, role, joined_at, username: Some(username) });
        proof {
            assert(rows@ =~= orig.skip(k + 1));
        }
    }
    out
}

} // verus!
