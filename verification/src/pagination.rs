//! Keyset pagination: stable, forward-only pages over rows ordered by a
//! NULL-tolerant composite key (chat listing) or by descending id (message
//! listing), without offsets, so pages stay correct under concurrent writes.

use vstd::prelude::*;
use crate::models::Message;
use crate::seq_facts::lemma_filter_all_false;

verus! {

/// Most chats one listing page returns.
pub const MAX_CHATS_LIMIT: i64 = 100;

/// Most messages one listing page returns.
pub const MAX_MESSAGES_LIMIT: i64 = 100;

/// The fixed minimum timestamp that stands in for absent activity, making
/// the chat ordering total: a chat with no messages compares as if its last
/// activity were at the epoch, before any real message.
pub const ACTIVITY_EPOCH: i64 = 0;

pub open spec fn spec_min(a: int, b: int) -> int {
    if a <= b {
        a
    } else {
        b
    }
}

/// The page size actually used: the requested limit, capped at `cap` and
/// floored to 1; `cap` when nothing was requested.
pub open spec fn spec_effective_limit(requested: Option<i64>, cap: i64) -> i64 {
    let base = match requested {
        Some(l) => if l < cap {
            l
        } else {
            cap
        },
        None => cap,
    };
    if base < 1 {
        1i64
    } else {
        base
    }
}

pub fn effective_limit(requested: Option<i64>, cap: i64) -> (r: i64)
    requires
        1 <= cap,
    ensures
        r == spec_effective_limit(requested, cap),
        1 <= r <= cap,
{
    let base: i64 = match requested {
        Some(l) => if l < cap {
            l
        } else {
            cap
        },
        None => cap,
    };
    if base < 1 {
        1
    } else {
        base
    }
}

/// One row of the chat listing: a chat the requester belongs to, with the
/// timestamp of its most recent message, absent if it has none.
#[derive(Debug, Clone, PartialEq)]
pub struct ChatListItem {
    pub id: i64,
    pub name: Option<String>,
    pub last_message_at: Option<i64>,
}

/// A page of the chat listing. `next_cursor` is absent when no rows sort
/// beyond this page; otherwise it names the last chat returned.
#[derive(Debug, Clone, PartialEq)]
pub struct ListChatsResponse {
    pub chats: Vec<ChatListItem>,
    pub next_cursor: Option<i64>,
}

/// The activity timestamp a chat sorts by, absent activity coalesced to
/// [`ACTIVITY_EPOCH`] so that comparisons are total.
pub open spec fn spec_activity_ts(c: ChatListItem) -> int {
    match c.last_message_at {
        Some(t) => t as int,
        None => ACTIVITY_EPOCH as int,
    }
}

/// `a` sorts strictly after `b` in the listing order
/// (last activity descending with NULLS LAST, then id descending).
pub open spec fn spec_chat_key_lt(a: ChatListItem, b: ChatListItem) -> bool {
    spec_activity_ts(a) < spec_activity_ts(b) || (spec_activity_ts(a) == spec_activity_ts(b)
        && a.id < b.id)
}

fn chat_key_lt(a: &ChatListItem, b: &ChatListItem) -> (r: bool)
    ensures
        r == spec_chat_key_lt(*a, *b),
{
    let at: i64 = match a.last_message_at {
        Some(t) => t,
        None => ACTIVITY_EPOCH,
    };
    let bt: i64 = match b.last_message_at {
        Some(t) => t,
        None => ACTIVITY_EPOCH,
    };
    at < bt || (at == bt && a.id < b.id)
}

/// Rows stand in listing order: strictly descending by the composite key.
pub open spec fn spec_chats_sorted(rows: Seq<ChatListItem>) -> bool {
    forall|i: int, j: int|
        0 <= i < j < rows.len() ==> spec_chat_key_lt(#[trigger] rows[j], #[trigger] rows[i])
}

/// Each chat appears on at most one row.
pub open spec fn spec_chat_ids_distinct(rows: Seq<ChatListItem>) -> bool {
    forall|i: int, j: int|
        0 <= i < j < rows.len() ==> (#[trigger] rows[i]).id != (#[trigger] rows[j]).id
}

pub open spec fn spec_has_chat(rows: Seq<ChatListItem>, id: i64) -> bool {
    exists|k: int| 0 <= k < rows.len() && (#[trigger] rows[k]).id == id
}

pub open spec fn spec_chat_index(rows: Seq<ChatListItem>, id: i64) -> int {
    choose|k: int| 0 <= k < rows.len() && (#[trigger] rows[k]).id == id
}

/// The rows that sort beyond the cursor: all of them without one, those
/// after the cursor chat's row, or none when that row is gone (the chat may
/// have been left since the cursor was issued).
pub open spec fn spec_chat_tail(rows: Seq<ChatListItem>, after: Option<i64>) -> Seq<ChatListItem> {
    match after {
        None => rows,
        Some(aid) => if spec_has_chat(rows, aid) {
            rows.skip(spec_chat_index(rows, aid) + 1)
        } else {
            Seq::<ChatListItem>::empty()
        },
    }
}

/// Lists chats for one user: `rows` are that user's chats in listing order,
/// one per chat. Returns at most the effective limit of rows beyond the
/// cursor, and a next cursor exactly when more rows sort beyond the page.
pub fn list_chats(rows: Vec<ChatListItem>, after: Option<i64>, requested: Option<i64>) -> (r:
    ListChatsResponse)
    requires
        spec_chats_sorted(rows@),
        spec_chat_ids_distinct(rows@),
    ensures
        ({
            let lim = spec_effective_limit(requested, MAX_CHATS_LIMIT) as int;
            let tail = spec_chat_tail(rows@, after);
            &&& r.chats@ == tail.take(spec_min(lim, tail.len() as int))
            &&& r.chats@.len() <= lim
            &&& r.next_cursor is Some <==> tail.len() > lim
            &&& r.next_cursor is Some ==> r.next_cursor == Some(tail[lim - 1].id)
        }),
{
    let lim: i64 = effective_limit(requested, MAX_CHATS_LIMIT);
    let limu: usize = lim as usize;
    let ghost tail: Seq<ChatListItem> = spec_chat_tail(rows@, after);
    let mut rows = rows;
    let ghost orig: Seq<ChatListItem> = rows@;

    let start: usize = match after {
        None => 0,
        Some(aid) => {
            let n: usize = rows.len();
            let mut i: usize = 0;
            let mut found: bool = false;
            while i < n && !found
                invariant
                    i <= n,
                    n == rows@.len(),
                    !found ==> forall|k: int| 0 <= k < i ==> (#[trigger] rows@[k]).id != aid,
                    found ==> i < n && rows@[i as int].id == aid,
                decreases n - i, (if found { 0int } else { 1int }),
            {
                if rows[i].id == aid {
                    found = true;
                } else {
                    i = i + 1;
                }
            }
            if !found {
                assert(!spec_has_chat(rows@, aid));
                return ListChatsResponse { chats: Vec::new(), next_cursor: None };
            }
            proof {
                assert(spec_has_chat(rows@, aid));
                let k = spec_chat_index(rows@, aid);
                if k != i as int {
                    assert(rows@[k].id == rows@[i as int].id);
                    assert(false);
                }
            }
            i + 1
        },
    };
    assert(tail == rows@.skip(start as int));

    let mut chats: Vec<ChatListItem> = Vec::new();
    proof {
        assert(rows@ =~= orig.take(start as int) + tail.skip(0));
        assert(chats@ =~= tail.take(0));
    }
    while chats.len() < limu && start < rows.len()
        invariant
            limu == lim,
            1 <= lim,
            start <= orig.len(),
            chats@.len() <= limu,
            chats@.len() <= tail.len(),
            rows@ == orig.take(start as int) + tail.skip(chats@.len() as int),
            chats@ == tail.take(chats@.len() as int),
        decreases limu - chats@.len(),
    {
        let ghost k: int = chats@.len() as int;
        proof {
            assert(orig.take(start as int).len() == start);
            assert(tail.skip(k).len() == rows@.len() - start);
            assert(k < tail.len());
            assert(rows@[start as int] == tail.skip(k)[0]);
            assert(tail.skip(k)[0] == tail[k]);
        }
        let item: ChatListItem = rows.remove(start);
        chats.push(item);
        proof {
            assert(rows@ =~= orig.take(start as int) + tail.skip(k + 1));
            assert(chats@ =~= tail.take(k + 1));
        }
    }
    let has_more: bool = rows.len() > start;
    proof {
        assert(tail.skip(chats@.len() as int).len() == rows@.len() - start);
        if has_more {
            assert(chats@.len() == limu);
            assert(tail.len() > lim);
        } else {
            assert(tail.len() == chats@.len());
        }
        assert(chats@ == tail.take(spec_min(lim as int, tail.len() as int)));
    }
    let next_cursor: Option<i64> = if has_more {
        assert(chats@.len() == lim);
        assert(chats@[lim - 1] == tail[lim - 1]);
        Some(chats[limu - 1].id)
    } else {
        None
    };
    ListChatsResponse { chats, next_cursor }
}

/// Messages stand in listing order: strictly descending by id
/// (ids are time-ordered, so this is recency).
pub open spec fn spec_msgs_sorted(rows: Seq<Message>) -> bool {
    forall|i: int, j: int|
        0 <= i < j < rows.len() ==> (#[trigger] rows[j]).id < (#[trigger] rows[i]).id
}

/// One page of a chat's messages, newest first, before the reply previews
/// are attached.
#[derive(Debug, Clone, PartialEq)]
pub struct MessagePage {
    pub items: Vec<Message>,
    pub next_cursor: Option<i64>,
}

/// Lists one page of a chat's messages: `rows` are the chat's messages in
/// listing order. The page holds at most the effective limit of rows with
/// id below the cursor, and a next cursor exactly when more such rows exist.
pub fn list_messages_page(rows: Vec<Message>, before: Option<i64>, requested: Option<i64>) -> (r:
    MessagePage)
    requires
        spec_msgs_sorted(rows@),
    ensures
        ({
            let lim = spec_effective_limit(requested, MAX_MESSAGES_LIMIT) as int;
            let tail = match before {
                Some(b) => rows@.filter(|m: Message| m.id < b),
                None => rows@,
            };
            &&& r.items@ == tail.take(spec_min(lim, tail.len() as int))
            &&& r.items@.len() <= lim
            &&& r.next_cursor is Some <==> tail.len() > lim
            &&& r.next_cursor is Some ==> r.next_cursor == Some(tail[lim - 1].id)
        }),
{
    let lim: i64 = effective_limit(requested, MAX_MESSAGES_LIMIT);
    let limu: usize = lim as usize;
    let mut rows = rows;
    let ghost orig: Seq<Message> = rows@;

    let start: usize = match before {
        None => 0,
        Some(b) => {
            let n: usize = rows.len();
            let mut i: usize = 0;
            while i < n && rows[i].id >= b
                invariant
                    i <= n,
                    n == rows@.len(),
                    forall|k: int| 0 <= k < i ==> (#[trigger] rows@[k]).id >= b,
                decreases n - i,
            {
                i = i + 1;
            }
            proof {
                assert(i < n ==> rows@[i as int].id < b);
                assert forall|k: int| i <= k < n implies (#[trigger] rows@[k]).id < b by {
                    if i < n && i < k {
                        assert(rows@[k].id < rows@[i as int].id);
                    }
                }
                lemma_sorted_cut_is_filter(rows@, b, i as int);
            }
            i
        },
    };
    let ghost tail: Seq<Message> = match before {
        Some(b) => orig.filter(|m: Message| m.id < b),
        None => orig,
    };
    assert(tail == rows@.skip(start as int));

    let mut items: Vec<Message> = Vec::new();
    proof {
        assert(rows@ =~= orig.take(start as int) + tail.skip(0));
        assert(items@ =~= tail.take(0));
    }
    while items.len() < limu && start < rows.len()
        invariant
            limu == lim,
            1 <= lim,
            start <= orig.len(),
            items@.len() <= limu,
            items@.len() <= tail.len(),
            rows@ == orig.take(start as int) + tail.skip(items@.len() as int),
            items@ == tail.take(items@.len() as int),
        decreases limu - items@.len(),
    {
        let ghost k: int = items@.len() as int;
        proof {
            assert(orig.take(start as int).len() == start);
            assert(tail.skip(k).len() == rows@.len() - start);
            assert(k < tail.len());
            assert(rows@[start as int] == tail.skip(k)[0]);
            assert(tail.skip(k)[0] == tail[k]);
        }
        let item: Message = rows.remove(start);
        items.push(item);
        proof {
            assert(rows@ =~= orig.take(start as int) + tail.skip(k + 1));
            assert(items@ =~= tail.take(k + 1));
        }
    }
    let has_more: bool = rows.len() > start;
    proof {
        assert(tail.skip(items@.len() as int).len() == rows@.len() - start);
        if has_more {
            assert(items@.len() == limu);
            assert(tail.len() > lim);
        } else {
            assert(tail.len() == items@.len());
        }
        assert(items@ == tail.take(spec_min(lim as int, tail.len() as int)));
    }
    let next_cursor: Option<i64> = if has_more {
        assert(items@.len() == lim);
        assert(items@[lim - 1] == tail[lim - 1]);
        Some(items[limu - 1].id)
    } else {
        None
    };
    MessagePage { items, next_cursor }
}

/// Whether chat rows satisfy what `list_chats` asks of its input: strictly
/// ordered by the listing key, one row per chat. Callers outside verified
/// code test this before listing.
pub fn chat_rows_listable(rows: &Vec<ChatListItem>) -> (r: bool)
    ensures
        r == (spec_chats_sorted(rows@) && spec_chat_ids_distinct(rows@)),
{
    let n: usize = rows.len();
    let mut i: usize = 0;
    while i < n
        invariant
            i <= n,
            n == rows@.len(),
            forall|p: int, q: int|
                0 <= p < q < rows@.len() && p < i ==> spec_chat_key_lt(
                    #[trigger] rows@[q],
                    #[trigger] rows@[p],
                ) && rows@[p].id != rows@[q].id,
        decreases n - i,
    {
        let mut j: usize = i + 1;
        while j < n
            invariant
                i < j <= n,
                i < n,
                n == rows@.len(),
                forall|q: int|
                    i < q < j ==> spec_chat_key_lt(#[trigger] rows@[q], rows@[i as int])
                        && rows@[i as int].id != rows@[q].id,
            decreases n - j,
        {
            if !chat_key_lt(&rows[j], &rows[i]) || rows[i].id == rows[j].id {
                return false;
            }
            j = j + 1;
        }
        i = i + 1;
    }
    true
}

/// Whether message rows satisfy what `list_messages_page` asks of its
/// input: strictly descending ids.
pub fn message_rows_listable(rows: &Vec<Message>) -> (r: bool)
    ensures
        r == spec_msgs_sorted(rows@),
{
    let n: usize = rows.len();
    let mut i: usize = 0;
    while i < n
        invariant
            i <= n,
            n == rows@.len(),
            forall|p: int, q: int|
                0 <= p < q < rows@.len() && p < i ==> (#[trigger] rows@[q]).id < (
                #[trigger] rows@[p]).id,
        decreases n - i,
    {
        let mut j: usize = i + 1;
        while j < n
            invariant
                i < j <= n,
                i < n,
                n == rows@.len(),
                forall|q: int| i < q < j ==> (#[trigger] rows@[q]).id < rows@[i as int].id,
            decreases n - j,
        {
            if rows[j].id >= rows[i].id {
                return false;
            }
            j = j + 1;
        }
        i = i + 1;
    }
    true
}

/// For message rows in listing order whose first `cut` rows are at or past
/// the cursor, the rows below the cursor are exactly the rest, in order.
proof fn lemma_sorted_cut_is_filter(rows: Seq<Message>, b: i64, cut: int)
    requires
        spec_msgs_sorted(rows),
        0 <= cut <= rows.len(),
        forall|k: int| 0 <= k < cut ==> (#[trigger] rows[k]).id >= b,
        forall|k: int| cut <= k < rows.len() ==> (#[trigger] rows[k]).id < b,
    ensures
        rows.filter(|m: Message| m.id < b) =~= rows.skip(cut),
    decreases rows.len(),
{
    reveal(Seq::filter);
    if rows.len() == 0 {
        assert(rows.filter(|m: Message| m.id < b) =~= rows.skip(cut));
    } else {
        let prefix = rows.drop_last();
        let last = rows.last();
        assert(spec_msgs_sorted(prefix));
        if cut == rows.len() {
            lemma_sorted_cut_is_filter(prefix, b, cut - 1);
            assert(!(last.id < b));
            assert(rows.filter(|m: Message| m.id < b) =~= prefix.filter(|m: Message| m.id < b));
            assert(prefix.skip(cut - 1) =~= rows.skip(cut));
        } else {
            lemma_sorted_cut_is_filter(prefix, b, cut);
            assert(last.id < b);
            assert(rows.filter(|m: Message| m.id < b) =~= prefix.filter(
                |m: Message| m.id < b,
            ).push(last));
            assert(prefix.skip(cut).push(last) =~= rows.skip(cut));
        }
    }
}

/// For chat rows in listing order with one row per chat, the rows after the
/// cursor row are exactly those that sort beyond it: nothing already at or
/// before the cursor position reappears, and nothing beyond it is skipped.
pub proof fn lemma_chat_tail_is_filter(rows: Seq<ChatListItem>, idx: int)
    requires
        spec_chats_sorted(rows),
        0 <= idx < rows.len(),
    ensures
        rows.skip(idx + 1) =~= rows.filter(|c: ChatListItem| spec_chat_key_lt(c, rows[idx])),
{
    lemma_chat_tail_is_filter_at(rows, idx, rows[idx]);
}

/// As `lemma_chat_tail_is_filter`, with the cursor named separately so the
/// induction can shorten the row sequence.
proof fn lemma_chat_tail_is_filter_at(rows: Seq<ChatListItem>, idx: int, cursor: ChatListItem)
    requires
        spec_chats_sorted(rows),
        0 <= idx < rows.len(),
        rows[idx] == cursor,
    ensures
        rows.skip(idx + 1) =~= rows.filter(|c: ChatListItem| spec_chat_key_lt(c, cursor)),
    decreases rows.len(),
{
    reveal(Seq::filter);
    let pred = |c: ChatListItem| spec_chat_key_lt(c, cursor);
    let prefix = rows.drop_last();
    let last = rows.last();
    if idx == rows.len() - 1 {
        assert forall|k: int| 0 <= k < prefix.len() implies !pred(#[trigger] prefix[k]) by {
            assert(spec_chat_key_lt(rows[idx], rows[k]) || k == idx);
            chat_key_asymmetric(rows[k], rows[idx]);
        }
        lemma_filter_all_false(prefix, pred);
        assert(!pred(last));
        assert(rows.filter(pred) =~= prefix.filter(pred));
        assert(rows.skip(idx + 1) =~= Seq::<ChatListItem>::empty());
    } else {
        assert(prefix[idx] == cursor);
        lemma_chat_tail_is_filter_at(prefix, idx, cursor);
        assert(spec_chat_key_lt(last, rows[idx]));
        assert(pred(last));
        assert(rows.filter(pred) =~= prefix.filter(pred).push(last));
        assert(prefix.skip(idx + 1).push(last) =~= rows.skip(idx + 1));
    }
}

proof fn chat_key_asymmetric(a: ChatListItem, b: ChatListItem)
    ensures
        !(spec_chat_key_lt(a, b) && spec_chat_key_lt(b, a)),
        !spec_chat_key_lt(a, a),
{
}

/// What a page request with a cursor pages over, in row-set terms: the
/// tail `list_chats` takes is exactly the rows that sort beyond the cursor
/// chat's row.
pub proof fn lemma_page_tail_matches_filter(rows: Seq<ChatListItem>, aid: i64)
    requires
        spec_chats_sorted(rows),
        spec_chat_ids_distinct(rows),
        spec_has_chat(rows, aid),
    ensures
        spec_chat_tail(rows, Some(aid)) =~= rows.filter(
            |c: ChatListItem| spec_chat_key_lt(c, rows[spec_chat_index(rows, aid)]),
        ),
{
    let idx = spec_chat_index(rows, aid);
    assert(0 <= idx < rows.len() && rows[idx].id == aid);
    lemma_chat_tail_is_filter(rows, idx);
}

/// Membership in a filtered sequence, both ways: a row appears below the
/// cursor exactly when it is present and sorts beyond the cursor.
pub proof fn lemma_filter_membership(rows: Seq<ChatListItem>, cursor: ChatListItem, r: ChatListItem)
    ensures
        rows.filter(|c: ChatListItem| spec_chat_key_lt(c, cursor)).contains(r) <==> rows.contains(r)
            && spec_chat_key_lt(r, cursor),
{
    crate::seq_facts::lemma_filter_membership(
        rows,
        |c: ChatListItem| spec_chat_key_lt(c, cursor),
        r,
    );
}

/// Keyset pagination is stable under concurrent inserts. With `cursor` the
/// last row a page returned: every row the next page can return sorts beyond
/// the cursor, so no row at or before it — in particular none already
/// returned — reappears; and every present row beyond the cursor is
/// returned, so none is skipped. A chat whose activity only grew since it
/// was returned still sorts at or before the cursor and stays off later
/// pages.
pub proof fn lemma_keyset_pagination_stable(
    rows_now: Seq<ChatListItem>,
    cursor: ChatListItem,
    returned: ChatListItem,
    bumped: ChatListItem,
)
    requires
        !spec_chat_key_lt(returned, cursor),
        bumped.id == returned.id,
        spec_activity_ts(bumped) >= spec_activity_ts(returned),
    ensures
        forall|r: ChatListItem|
            rows_now.filter(|c: ChatListItem| spec_chat_key_lt(c, cursor)).contains(r)
                <==> rows_now.contains(r) && spec_chat_key_lt(r, cursor),
        !rows_now.filter(|c: ChatListItem| spec_chat_key_lt(c, cursor)).contains(returned),
        !rows_now.filter(|c: ChatListItem| spec_chat_key_lt(c, cursor)).contains(bumped),
{
    assert forall|r: ChatListItem|
        rows_now.filter(|c: ChatListItem| spec_chat_key_lt(c, cursor)).contains(r)
            <==> rows_now.contains(r) && spec_chat_key_lt(r, cursor) by {
        lemma_filter_membership(rows_now, cursor, r);
    }
    assert(!spec_chat_key_lt(bumped, cursor));
}

/// A chat with no messages sorts after every chat whose most recent message
/// is later than the epoch sentinel, whatever their ids.
pub proof fn lemma_inactive_chat_sorts_last(a: ChatListItem, b: ChatListItem)
    requires
        a.last_message_at is None,
        b.last_message_at is Some,
        b.last_message_at.unwrap() > ACTIVITY_EPOCH,
    ensures
        spec_chat_key_lt(a, b),
{
}

} // verus!
