use chat_core::models::Message;
use chat_core::pagination::{
    effective_limit, list_chats, list_messages_page, ChatListItem, MAX_CHATS_LIMIT,
    MAX_MESSAGES_LIMIT,
};

fn chat(id: i64, last: Option<i64>) -> ChatListItem {
    ChatListItem { id, name: None, last_message_at: last }
}

fn msg(id: i64, chat_id: i64, reply_to: Option<i64>) -> Message {
    Message {
        id,
        message: Some(format!("m{id}")),
        message_type: "text".to_string(),
        reply_to_id: reply_to,
        reply_root_id: None,
        client_generated_id: format!("c{id}"),
        sender_uid: 1,
        chat_id,
        created_at: id,
        updated_at: None,
        deleted_at: None,
        has_attachments: false,
    }
}

#[test]
fn limit_caps_and_floors() {
    assert_eq!(effective_limit(None, MAX_CHATS_LIMIT), 100);
    assert_eq!(effective_limit(Some(1000), MAX_CHATS_LIMIT), 100);
    assert_eq!(effective_limit(Some(0), MAX_CHATS_LIMIT), 1);
    assert_eq!(effective_limit(Some(-3), MAX_MESSAGES_LIMIT), 1);
    assert_eq!(effective_limit(Some(25), MAX_MESSAGES_LIMIT), 25);
}

#[test]
fn chats_first_page_and_cursor() {
    // listing order: activity desc with absent-activity last, id desc
    let rows = vec![chat(10, Some(500)), chat(30, Some(400)), chat(20, None), chat(5, None)];
    let page = list_chats(rows.clone(), None, Some(2));
    assert_eq!(page.chats.len(), 2);
    assert_eq!(page.chats[0].id, 10);
    assert_eq!(page.chats[1].id, 30);
    assert_eq!(page.next_cursor, Some(30));

    let page2 = list_chats(rows.clone(), Some(30), Some(2));
    assert_eq!(page2.chats.len(), 2);
    assert_eq!(page2.chats[0].id, 20);
    assert_eq!(page2.chats[1].id, 5);
    assert_eq!(page2.next_cursor, None);
}

#[test]
fn chats_returns_at_most_limit_and_cursor_iff_more() {
    let rows = vec![chat(3, Some(30)), chat(2, Some(20)), chat(1, Some(10))];
    let exact = list_chats(rows.clone(), None, Some(3));
    assert_eq!(exact.chats.len(), 3);
    assert_eq!(exact.next_cursor, None);
    let more = list_chats(rows, None, Some(2));
    assert_eq!(more.chats.len(), 2);
    assert_eq!(more.next_cursor, Some(2));
}

#[test]
fn chats_gone_cursor_gives_empty_page() {
    // the cursor chat is no longer among the member's rows: empty page, no error
    let rows = vec![chat(9, Some(90))];
    let page = list_chats(rows, Some(77), Some(10));
    assert!(page.chats.is_empty());
    assert_eq!(page.next_cursor, None);
}

#[test]
fn chats_inactive_sorts_after_active() {
    // a chat with no messages sorts after every chat with one, higher id or not
    let rows = vec![chat(1, Some(5)), chat(99, None)];
    let page = list_chats(rows, None, None);
    assert_eq!(page.chats[0].id, 1);
    assert_eq!(page.chats[1].id, 99);
}

#[test]
fn chats_pages_stable_under_concurrent_insert() {
    // page 1 over the initial rows
    let rows1 = vec![chat(40, Some(400)), chat(30, Some(300)), chat(20, Some(200))];
    let page1 = list_chats(rows1, None, Some(2));
    assert_eq!(page1.next_cursor, Some(30));
    // a new chat with fresh activity appears before page 2 is requested
    let rows2 = vec![
        chat(50, Some(500)),
        chat(40, Some(400)),
        chat(30, Some(300)),
        chat(20, Some(200)),
    ];
    let page2 = list_chats(rows2, page1.next_cursor, Some(2));
    // nothing already returned reappears, and nothing beyond the cursor is skipped
    assert_eq!(page2.chats.len(), 1);
    assert_eq!(page2.chats[0].id, 20);
    assert_eq!(page2.next_cursor, None);
}

#[test]
fn messages_pages_newest_first() {
    let rows = vec![msg(9, 1, None), msg(7, 1, None), msg(4, 1, None)];
    let page = list_messages_page(rows.clone(), None, Some(2));
    assert_eq!(page.items.len(), 2);
    assert_eq!(page.items[0].id, 9);
    assert_eq!(page.items[1].id, 7);
    assert_eq!(page.next_cursor, Some(7));

    let page2 = list_messages_page(rows, Some(7), Some(2));
    assert_eq!(page2.items.len(), 1);
    assert_eq!(page2.items[0].id, 4);
    assert_eq!(page2.next_cursor, None);
}

#[test]
fn messages_cursor_excludes_cursor_row() {
    let rows = vec![msg(5, 1, None), msg(3, 1, None)];
    let page = list_messages_page(rows, Some(3), Some(10));
    assert!(page.items.is_empty());
    assert_eq!(page.next_cursor, None);
}

#[test]
fn listable_checks_accept_ordered_and_reject_disordered() {
    let good = vec![chat(10, Some(50)), chat(5, None)];
    assert!(chat_core::pagination::chat_rows_listable(&good));
    let out_of_order = vec![chat(5, None), chat(10, Some(50))];
    assert!(!chat_core::pagination::chat_rows_listable(&out_of_order));
    let duplicate_id = vec![chat(10, Some(50)), chat(10, Some(40))];
    assert!(!chat_core::pagination::chat_rows_listable(&duplicate_id));

    let good_msgs = vec![msg(9, 1, None), msg(4, 1, None)];
    assert!(chat_core::pagination::message_rows_listable(&good_msgs));
    let bad_msgs = vec![msg(4, 1, None), msg(9, 1, None)];
    assert!(!chat_core::pagination::message_rows_listable(&bad_msgs));
}
