//! One end-to-end walk: a user creates a chat, lists it while empty, sends
//! a message, edits it, and every member connection hears about the edit.

use chat_core::chats::create_chat;
use chat_core::messages::{create_message, edit_message, event_tag, EventKind};
use chat_core::models::Message;
use chat_core::pagination::{list_chats, list_messages_page, ChatListItem};
use chat_core::registry::ConnectionRegistry;

fn row_of(m: &chat_core::models::NewMessage) -> Message {
    Message {
        id: m.id,
        message: m.message.clone(),
        message_type: m.message_type.clone(),
        reply_to_id: m.reply_to_id,
        reply_root_id: m.reply_root_id,
        client_generated_id: m.client_generated_id.clone(),
        sender_uid: m.sender_uid,
        chat_id: m.chat_id,
        created_at: m.created_at,
        updated_at: m.updated_at,
        deleted_at: m.deleted_at,
        has_attachments: m.has_attachments,
    }
}

#[test]
fn create_list_send_edit_and_fan_out() {
    let user_a = 1;
    let chat_id = 100;

    // user A creates chat C; with no messages its listing row has no activity
    let (group, membership, _response) = create_chat(chat_id, user_a, None, 10);
    assert_eq!(membership.uid, user_a);
    let listing = list_chats(
        vec![ChatListItem { id: group.id, name: None, last_message_at: None }],
        None,
        None,
    );
    assert_eq!(listing.chats.len(), 1);
    assert_eq!(listing.chats[0].id, chat_id);
    assert_eq!(listing.chats[0].last_message_at, None);
    assert_eq!(listing.next_cursor, None);

    // A sends message M1: the chat's last activity becomes M1's creation time
    let m1 = create_message(
        500,
        chat_id,
        user_a,
        Some("hello".to_string()),
        "text".to_string(),
        "client-1".to_string(),
        None,
        None,
        20,
    );
    let listing2 = list_chats(
        vec![ChatListItem { id: chat_id, name: None, last_message_at: Some(m1.created_at) }],
        None,
        None,
    );
    assert_eq!(listing2.chats[0].last_message_at, Some(20));

    // A edits M1: the page shows the new body and the edit timestamp
    let edited = edit_message(Some(row_of(&m1)), user_a, "hello, edited".to_string(), 30).unwrap();
    let page = list_messages_page(vec![edited.clone()], None, None);
    assert_eq!(page.items.len(), 1);
    assert_eq!(page.items[0].message, Some("hello, edited".to_string()));
    assert_eq!(page.items[0].updated_at, Some(30));

    // the update event reaches every connection of every member
    let mut reg = ConnectionRegistry::new();
    let (_c1, mut rx1) = reg.register(user_a, 100);
    let (_c2, mut rx2) = reg.register(user_a, 100);
    let event = format!("{{\"type\":\"{}\"}}", event_tag(EventKind::Updated));
    let outcomes = reg.broadcast_to_uids(&vec![user_a], &event);
    assert_eq!(outcomes.len(), 2);
    assert_eq!(rx1.try_recv().unwrap(), "{\"type\":\"message_updated\"}");
    assert_eq!(rx2.try_recv().unwrap(), "{\"type\":\"message_updated\"}");
}
