use chat_core::chats::{apply_chat_update, chat_detail, create_chat, UpdateChatBody};
use chat_core::errors::ApiError;
use chat_core::members::{
    add_member_check, check_admin_role, check_membership, member_responses, parse_role,
    remove_member_check, role_text, update_member_role_check, Role,
};
use chat_core::messages::{
    build_message_responses, collect_reply_ids, create_message, created_message_response,
    delete_message, edit_message, event_tag, EventKind, MessageResponse,
};
use chat_core::models::{Group, Message};

fn message(id: i64, sender: i32, deleted: Option<i64>) -> Message {
    Message {
        id,
        message: Some("hello".to_string()),
        message_type: "text".to_string(),
        reply_to_id: None,
        reply_root_id: None,
        client_generated_id: "c1".to_string(),
        sender_uid: sender,
        chat_id: 1,
        created_at: 100,
        updated_at: None,
        deleted_at: deleted,
        has_attachments: false,
    }
}

#[test]
fn create_message_row() {
    let m = create_message(
        77,
        5,
        3,
        Some("hi".to_string()),
        "text".to_string(),
        "client-1".to_string(),
        Some(11),
        Some(10),
        1000,
    );
    assert_eq!(m.id, 77);
    assert_eq!(m.chat_id, 5);
    assert_eq!(m.sender_uid, 3);
    assert_eq!(m.message, Some("hi".to_string()));
    assert_eq!(m.reply_to_id, Some(11));
    assert_eq!(m.reply_root_id, Some(10));
    assert_eq!(m.created_at, 1000);
    assert_eq!(m.updated_at, None);
    assert_eq!(m.deleted_at, None);
    assert!(!m.has_attachments);
}

#[test]
fn edit_replaces_body_and_sets_timestamp() {
    let m = message(1, 7, None);
    let edited = edit_message(Some(m), 7, "new body".to_string(), 555).unwrap();
    assert_eq!(edited.message, Some("new body".to_string()));
    assert_eq!(edited.updated_at, Some(555));
    assert_eq!(edited.created_at, 100);
    assert_eq!(edited.deleted_at, None);
}

#[test]
fn edit_twice_keeps_latest() {
    let m = message(1, 7, None);
    let once = edit_message(Some(m), 7, "first".to_string(), 200).unwrap();
    let twice = edit_message(Some(once), 7, "second".to_string(), 300).unwrap();
    assert_eq!(twice.message, Some("second".to_string()));
    assert_eq!(twice.updated_at, Some(300));
}

#[test]
fn edit_missing_is_not_found() {
    assert_eq!(edit_message(None, 7, "x".to_string(), 1), Err(ApiError::NotFound));
}

#[test]
fn edit_deleted_is_invalid_state() {
    let m = message(1, 7, Some(400));
    assert_eq!(edit_message(Some(m), 7, "x".to_string(), 500), Err(ApiError::InvalidState));
}

#[test]
fn edit_blank_body_is_invalid_input() {
    let m = message(1, 7, None);
    assert_eq!(edit_message(Some(m), 7, "  \t ".to_string(), 500), Err(ApiError::InvalidInput));
}

#[test]
fn only_sender_may_edit_or_delete() {
    let m = message(1, 7, None);
    assert_eq!(edit_message(Some(m.clone()), 8, "x".to_string(), 1), Err(ApiError::Forbidden));
    assert_eq!(delete_message(Some(m), 8, 1), Err(ApiError::Forbidden));
}

#[test]
fn delete_sets_timestamp_and_keeps_body() {
    let m = message(1, 7, None);
    let deleted = delete_message(Some(m), 7, 900).unwrap();
    assert_eq!(deleted.deleted_at, Some(900));
    assert_eq!(deleted.message, Some("hello".to_string()));
}

#[test]
fn delete_twice_is_already_deleted() {
    let m = message(1, 7, None);
    let deleted = delete_message(Some(m), 7, 900).unwrap();
    assert_eq!(delete_message(Some(deleted), 7, 901), Err(ApiError::AlreadyDeleted));
    assert_eq!(delete_message(None, 7, 902), Err(ApiError::NotFound));
}

#[test]
fn status_codes_per_error() {
    assert_eq!(ApiError::NotFound.status_code(), 404);
    assert_eq!(ApiError::Forbidden.status_code(), 403);
    assert_eq!(ApiError::InvalidInput.status_code(), 400);
    assert_eq!(ApiError::InvalidState.status_code(), 400);
    assert_eq!(ApiError::AlreadyDeleted.status_code(), 410);
    assert_eq!(ApiError::Conflict.status_code(), 409);
    assert_eq!(ApiError::StorageUnavailable.status_code(), 500);
    assert_eq!(ApiError::IdGenerationFailed.status_code(), 500);
}

#[test]
fn event_tags() {
    assert_eq!(event_tag(EventKind::Created), "message");
    assert_eq!(event_tag(EventKind::Updated), "message_updated");
    assert_eq!(event_tag(EventKind::Deleted), "message_deleted");
}

#[test]
fn response_from_row_has_no_preview() {
    let m = message(4, 7, None);
    let r = MessageResponse::from(m);
    assert_eq!(r.id, 4);
    assert_eq!(r.message, Some("hello".to_string()));
    assert!(r.reply_to_message.is_none());
}

#[test]
fn created_response_attaches_preview() {
    let new_msg = create_message(
        90,
        5,
        3,
        Some("hi".to_string()),
        "text".to_string(),
        "c9".to_string(),
        Some(11),
        None,
        1000,
    );
    let reply_row = message(11, 2, None);
    let r = created_message_response(new_msg, Some(reply_row));
    let preview = r.reply_to_message.expect("preview expected");
    assert_eq!(preview.id, 11);
    assert_eq!(preview.sender_uid, 2);

    let plain = create_message(
        91,
        5,
        3,
        None,
        "text".to_string(),
        "c10".to_string(),
        None,
        None,
        1001,
    );
    let r2 = created_message_response(plain, None);
    assert!(r2.reply_to_message.is_none());
}

#[test]
fn reply_ids_are_distinct_and_previews_resolve() {
    let mut a = message(9, 7, None);
    a.reply_to_id = Some(3);
    let mut b = message(8, 7, None);
    b.reply_to_id = Some(3);
    let mut c = message(7, 7, None);
    c.reply_to_id = Some(2);
    let page = vec![a, b, c];
    let ids = collect_reply_ids(&page);
    assert_eq!(ids, vec![3, 2]);

    let replies = vec![message(3, 1, Some(50))];
    let responses = build_message_responses(page, &replies);
    assert_eq!(responses.len(), 3);
    let p0 = responses[0].reply_to_message.as_ref().expect("preview");
    assert_eq!(p0.id, 3);
    assert_eq!(p0.deleted_at, Some(50));
    // the replied-to row for id 2 was not fetched: no preview
    assert!(responses[2].reply_to_message.is_none());
}

#[test]
fn create_chat_normalizes_name() {
    let (group, membership, response) = create_chat(42, 9, Some("  ".to_string()), 700);
    assert_eq!(group.name, "");
    assert_eq!(group.visibility, "public");
    assert_eq!(membership.role, "admin");
    assert_eq!(membership.uid, 9);
    assert_eq!(response.name, None);

    let (group2, _, response2) = create_chat(43, 9, Some("team".to_string()), 701);
    assert_eq!(group2.name, "team");
    assert_eq!(response2.name, Some("team".to_string()));
}

fn group() -> Group {
    Group {
        id: 1,
        name: "g".to_string(),
        description: None,
        avatar: None,
        created_at: 5,
        visibility: "public".to_string(),
    }
}

#[test]
fn chat_detail_gates() {
    assert_eq!(chat_detail(0, Some(group())), Err(ApiError::Forbidden));
    assert_eq!(chat_detail(1, None), Err(ApiError::NotFound));
    let detail = chat_detail(1, Some(group())).unwrap();
    assert_eq!(detail.id, 1);
    assert_eq!(detail.visibility, "public");
}

#[test]
fn chat_update_rules() {
    let admin = Some("admin".to_string());
    let body = UpdateChatBody {
        name: Some("renamed".to_string()),
        description: Some("d".to_string()),
        avatar: None,
        visibility: Some("private".to_string()),
    };
    let updated = apply_chat_update(&admin, group(), body).unwrap();
    assert_eq!(updated.name, "renamed");
    assert_eq!(updated.description, Some("d".to_string()));
    assert_eq!(updated.avatar, None);
    assert_eq!(updated.visibility, "private");

    let bad = UpdateChatBody {
        name: None,
        description: None,
        avatar: None,
        visibility: Some("hidden".to_string()),
    };
    assert_eq!(apply_chat_update(&admin, group(), bad), Err(ApiError::InvalidInput));

    let empty = UpdateChatBody { name: None, description: None, avatar: None, visibility: None };
    assert_eq!(
        apply_chat_update(&Some("member".to_string()), group(), empty),
        Err(ApiError::Forbidden)
    );
}

#[test]
fn membership_gates() {
    assert_eq!(check_membership(0), Err(ApiError::Forbidden));
    assert_eq!(check_membership(1), Ok(()));
    assert_eq!(check_admin_role(&Some("admin".to_string())), Ok(()));
    assert_eq!(check_admin_role(&Some("member".to_string())), Err(ApiError::Forbidden));
    assert_eq!(check_admin_role(&None), Err(ApiError::Forbidden));
}

#[test]
fn roles_parse_and_print() {
    assert_eq!(parse_role(&"admin".to_string()), Some(Role::Admin));
    assert_eq!(parse_role(&"member".to_string()), Some(Role::Member));
    assert_eq!(parse_role(&"owner".to_string()), None);
    assert_eq!(role_text(Role::Admin), "admin");
    assert_eq!(role_text(Role::Member), "member");
}

#[test]
fn add_member_decision() {
    let admin = Some("admin".to_string());
    let ok = add_member_check(&admin, true, false, None, 5, 77, 900).unwrap();
    assert_eq!(ok.chat_id, 5);
    assert_eq!(ok.uid, 77);
    assert_eq!(ok.role, "member");
    assert_eq!(ok.joined_at, 900);

    assert_eq!(
        add_member_check(&Some("member".to_string()), true, false, None, 5, 77, 900),
        Err(ApiError::Forbidden)
    );
    assert_eq!(add_member_check(&admin, false, false, None, 5, 77, 900), Err(ApiError::NotFound));
    assert_eq!(add_member_check(&admin, true, true, None, 5, 77, 900), Err(ApiError::Conflict));
    assert_eq!(
        add_member_check(&admin, true, false, Some("owner".to_string()), 5, 77, 900),
        Err(ApiError::InvalidInput)
    );
    let as_admin =
        add_member_check(&admin, true, false, Some("admin".to_string()), 5, 77, 900).unwrap();
    assert_eq!(as_admin.role, "admin");
}

#[test]
fn remove_member_decision() {
    let admin = Some("admin".to_string());
    let member = Some("member".to_string());
    // an admin removes someone else
    assert_eq!(remove_member_check(1, 2, &admin, true), Ok(()));
    // a plain member may not remove someone else
    assert_eq!(remove_member_check(1, 2, &member, true), Err(ApiError::Forbidden));
    // anyone may remove themselves while a member
    assert_eq!(remove_member_check(2, 2, &member, true), Ok(()));
    // a non-member cannot remove themselves
    assert_eq!(remove_member_check(2, 2, &None, true), Err(ApiError::Forbidden));
    // the target must be a member
    assert_eq!(remove_member_check(1, 2, &admin, false), Err(ApiError::NotFound));
}

#[test]
fn update_member_role_decision() {
    let admin = Some("admin".to_string());
    assert_eq!(
        update_member_role_check(&admin, &"member".to_string(), true),
        Ok(Role::Member)
    );
    assert_eq!(
        update_member_role_check(&Some("member".to_string()), &"admin".to_string(), true),
        Err(ApiError::Forbidden)
    );
    assert_eq!(
        update_member_role_check(&admin, &"owner".to_string(), true),
        Err(ApiError::InvalidInput)
    );
    assert_eq!(
        update_member_role_check(&admin, &"admin".to_string(), false),
        Err(ApiError::NotFound)
    );
}

#[test]
fn member_listing_shape() {
    let rows = vec![
        (1, "admin".to_string(), 10, "ann".to_string()),
        (2, "member".to_string(), 20, "bo".to_string()),
    ];
    let out = member_responses(rows);
    assert_eq!(out.len(), 2);
    assert_eq!(out[0].uid, 1);
    assert_eq!(out[0].role, "admin");
    assert_eq!(out[0].joined_at, 10);
    assert_eq!(out[0].username, Some("ann".to_string()));
    assert_eq!(out[1].uid, 2);
}
