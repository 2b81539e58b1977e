//! The connection registry: per uid, the set of live push channels, with
//! registration, removal, keepalive refresh, best-effort fan-out and
//! staleness eviction. One instance is shared process-wide behind a lock;
//! every operation here is verified against the registry's invariant.

use vstd::prelude::*;
use tokio::sync::mpsc::{Receiver, Sender};
use crate::channels::{channel_pair, try_send_text};

verus! {

/// Capacity of each connection's bounded push channel.
pub const CHANNEL_CAPACITY: usize = 64;

/// Per-connection state: the sender that pushes messages to the socket
/// task, and the time the client last pinged, in Unix seconds.
pub struct ConnectionEntry {
    pub conn_id: u64,
    pub last_ping_at: u64,
    pub tx: Sender<String>,
}

/// One user's live connections (multiple tabs or devices). Never empty
/// while listed: a user whose last connection goes is dropped entirely.
pub struct UserConnections {
    pub uid: i32,
    pub conns: Vec<ConnectionEntry>,
}

/// The registry. Connection ids come from a process-wide counter and are
/// never reused; a new socket always gets a fresh id.
pub struct ConnectionRegistry {
    pub users: Vec<UserConnections>,
    pub next_conn_id: u64,
}

/// The connections listed for `uid`: the first matching user's list, or
/// nothing. With distinct uids, the only matching one.
pub open spec fn spec_lookup(users: Seq<UserConnections>, uid: i32) -> Seq<ConnectionEntry>
    decreases users.len(),
{
    if users.len() == 0 {
        Seq::<ConnectionEntry>::empty()
    } else if users[0].uid == uid {
        users[0].conns@
    } else {
        spec_lookup(users.skip(1), uid)
    }
}

pub open spec fn spec_uids_distinct(users: Seq<UserConnections>) -> bool {
    forall|i: int, j: int|
        0 <= i < j < users.len() ==> (#[trigger] users[i]).uid != (#[trigger] users[j]).uid
}

/// Connection ids are below the counter and pairwise distinct.
pub open spec fn spec_conns_wf(conns: Seq<ConnectionEntry>, next_id: u64) -> bool {
    &&& forall|a: int| 0 <= a < conns.len() ==> (#[trigger] conns[a]).conn_id < next_id
    &&& forall|a: int, b: int|
        0 <= a < b < conns.len() ==> (#[trigger] conns[a]).conn_id != (#[trigger] conns[b]).conn_id
}

impl ConnectionRegistry {
    /// The registry's invariant: one list per uid, none empty, and every
    /// connection id fresh below the counter and unique within its list.
    pub open spec fn spec_wf(self) -> bool {
        &&& spec_uids_distinct(self.users@)
        &&& forall|i: int| 0 <= i < self.users@.len() ==> (#[trigger] self.users@[i]).conns@.len() > 0
        &&& forall|i: int|
            0 <= i < self.users@.len() ==> spec_conns_wf(
                (#[trigger] self.users@[i]).conns@,
                self.next_conn_id,
            )
    }

    /// The live connections of one user, as the contracts speak of them.
    pub open spec fn spec_conns_of(self, uid: i32) -> Seq<ConnectionEntry> {
        spec_lookup(self.users@, uid)
    }
}

proof fn lemma_skip_distinct(users: Seq<UserConnections>)
    requires
        spec_uids_distinct(users),
        users.len() > 0,
    ensures
        spec_uids_distinct(users.skip(1)),
{
    assert forall|i: int, j: int|
        0 <= i < j < users.skip(1).len() implies (#[trigger] users.skip(1)[i]).uid != (
    #[trigger] users.skip(1)[j]).uid by {
        assert(users.skip(1)[i] == users[i + 1]);
        assert(users.skip(1)[j] == users[j + 1]);
    }
}

/// With distinct uids, the lookup of a listed user's uid is that user's list.
proof fn lemma_lookup_at(users: Seq<UserConnections>, i: int)
    requires
        spec_uids_distinct(users),
        0 <= i < users.len(),
    ensures
        spec_lookup(users, users[i].uid) == users[i].conns@,
    decreases i,
{
    if i > 0 {
        assert(users[0].uid != users[i].uid);
        lemma_skip_distinct(users);
        assert(users.skip(1)[i - 1] == users[i]);
        lemma_lookup_at(users.skip(1), i - 1);
    }
}

/// The lookup of a uid no user carries is empty.
proof fn lemma_lookup_absent(users: Seq<UserConnections>, uid: i32)
    requires
        forall|i: int| 0 <= i < users.len() ==> (#[trigger] users[i]).uid != uid,
    ensures
        spec_lookup(users, uid) == Seq::<ConnectionEntry>::empty(),
    decreases users.len(),
{
    if users.len() > 0 {
        assert(users[0].uid != uid);
        assert forall|k: int|
            0 <= k < users.skip(1).len() implies (#[trigger] users.skip(1)[k]).uid != uid by {
            assert(users.skip(1)[k] == users[k + 1]);
        }
        lemma_lookup_absent(users.skip(1), uid);
    }
}

/// Replacing one user's entry (same uid) changes only that uid's lookup.
proof fn lemma_lookup_update(users: Seq<UserConnections>, i: int, uc: UserConnections, u: i32)
    requires
        spec_uids_distinct(users),
        0 <= i < users.len(),
        uc.uid == users[i].uid,
    ensures
        spec_lookup(users.update(i, uc), u) == if u == uc.uid {
            uc.conns@
        } else {
            spec_lookup(users, u)
        },
    decreases i,
{
    let updated = users.update(i, uc);
    if i == 0 {
        assert(updated[0] == uc);
        assert(updated.skip(1) =~= users.skip(1));
    } else {
        assert(updated[0] == users[0]);
        assert(users[0].uid != users[i].uid);
        lemma_skip_distinct(users);
        assert(updated.skip(1) =~= users.skip(1).update(i - 1, uc));
        assert(users.skip(1)[i - 1] == users[i]);
        lemma_lookup_update(users.skip(1), i - 1, uc, u);
    }
}

/// Appending a user with a fresh uid changes only that uid's lookup.
proof fn lemma_lookup_push(users: Seq<UserConnections>, uc: UserConnections, u: i32)
    requires
        forall|i: int| 0 <= i < users.len() ==> (#[trigger] users[i]).uid != uc.uid,
    ensures
        spec_lookup(users.push(uc), u) == if u == uc.uid {
            uc.conns@
        } else {
            spec_lookup(users, u)
        },
    decreases users.len(),
{
    let pushed = users.push(uc);
    if users.len() == 0 {
        assert(pushed[0] == uc);
        assert(pushed.skip(1) =~= Seq::<UserConnections>::empty());
        assert(pushed.len() == 1);
        if u == uc.uid {
            assert(spec_lookup(pushed, u) == uc.conns@);
        } else {
            assert(spec_lookup(pushed, u) == spec_lookup(pushed.skip(1), u));
            assert(spec_lookup(pushed.skip(1), u) == Seq::<ConnectionEntry>::empty());
            assert(spec_lookup(users, u) == Seq::<ConnectionEntry>::empty());
        }
    } else {
        assert(pushed[0] == users[0]);
        assert(users[0].uid != uc.uid);
        assert(pushed.skip(1) =~= users.skip(1).push(uc));
        assert forall|k: int|
            0 <= k < users.skip(1).len() implies (#[trigger] users.skip(1)[k]).uid != uc.uid by {
            assert(users.skip(1)[k] == users[k + 1]);
        }
        lemma_lookup_push(users.skip(1), uc, u);
    }
}

/// Dropping one user changes only that uid's lookup, which becomes empty.
proof fn lemma_lookup_remove(users: Seq<UserConnections>, i: int, u: i32)
    requires
        spec_uids_distinct(users),
        0 <= i < users.len(),
    ensures
        spec_lookup(users.remove(i), u) == if u == users[i].uid {
            Seq::<ConnectionEntry>::empty()
        } else {
            spec_lookup(users, u)
        },
    decreases i,
{
    let shrunk = users.remove(i);
    if i == 0 {
        assert(shrunk =~= users.skip(1));
        if u == users[0].uid {
            assert forall|k: int|
                0 <= k < users.skip(1).len() implies (#[trigger] users.skip(1)[k]).uid != u by {
                assert(users.skip(1)[k] == users[k + 1]);
            }
            lemma_lookup_absent(users.skip(1), u);
        }
    } else {
        assert(shrunk[0] == users[0]);
        assert(users[0].uid != users[i].uid);
        lemma_skip_distinct(users);
        assert(shrunk.skip(1) =~= users.skip(1).remove(i - 1));
        assert(users.skip(1)[i - 1] == users[i]);
        lemma_lookup_remove(users.skip(1), i - 1, u);
    }
}

impl ConnectionRegistry {
    pub fn new() -> (r: ConnectionRegistry)
        ensures
            r.spec_wf(),
            r.next_conn_id == 0,
            forall|u: i32| r.spec_conns_of(u) == Seq::<ConnectionEntry>::empty(),
    {
        ConnectionRegistry { users: Vec::new(), next_conn_id: 0 }
    }

    /// Allocates the next connection id from the never-reused counter.
    pub fn next_conn_id(&mut self) -> (id: u64)
        requires
            old(self).next_conn_id < u64::MAX,
        ensures
            id == old(self).next_conn_id,
            final(self).next_conn_id == old(self).next_conn_id + 1,
            final(self).users == old(self).users,
    {
        let id: u64 = self.next_conn_id;
        self.next_conn_id = self.next_conn_id + 1;
        id
    }

    /// Registers a new connection for `uid`, last pinged `now`: a fresh
    /// connection id, a fresh bounded channel, the entry appended to the
    /// uid's list, every other user untouched. Returns the id and the
    /// receiving end for the caller's socket loop.
    pub fn register(&mut self, uid: i32, now: u64) -> (r: (u64, Receiver<String>))
        requires
            old(self).spec_wf(),
            old(self).next_conn_id < u64::MAX,
        ensures
            final(self).spec_wf(),
            final(self).next_conn_id == old(self).next_conn_id + 1,
            r.0 == old(self).next_conn_id,
            forall|u: i32| u != uid ==> final(self).spec_conns_of(u) == old(self).spec_conns_of(u),
            final(self).spec_conns_of(uid).len() == old(self).spec_conns_of(uid).len() + 1,
            final(self).spec_conns_of(uid).drop_last() == old(self).spec_conns_of(uid),
            final(self).spec_conns_of(uid).last().conn_id == r.0,
            final(self).spec_conns_of(uid).last().last_ping_at == now,
    {
        let conn_id: u64 = self.next_conn_id();
        let (tx, rx) = channel_pair(CHANNEL_CAPACITY);
        let entry = ConnectionEntry { conn_id, last_ping_at: now, tx };
        let ghost pre: Seq<UserConnections> = self.users@;
        let ghost old_next: u64 = conn_id;

        let n: usize = self.users.len();
        let mut i: usize = 0;
        let mut found: bool = false;
        while i < n && !found
            invariant
                i <= n,
                n == self.users@.len(),
                self.users@ == pre,
                !found ==> forall|k: int| 0 <= k < i ==> (#[trigger] self.users@[k]).uid != uid,
                found ==> i < n && self.users@[i as int].uid == uid,
            decreases n - i, (if found {
                0int
            } else {
                1int
            }),
        {
            if self.users[i].uid == uid {
                found = true;
            } else {
                i = i + 1;
            }
        }

        if found {
            let mut uc: UserConnections = self.users.remove(i);
            uc.conns.push(entry);
            let ghost uc_new: UserConnections = uc;
            self.users.insert(i, uc);
            proof {
                assert(self.users@ =~= pre.update(i as int, uc_new));
                lemma_lookup_at(pre, i as int);
                assert forall|u: i32| u != uid implies spec_lookup(self.users@, u) == spec_lookup(
                    pre,
                    u,
                ) by {
                    lemma_lookup_update(pre, i as int, uc_new, u);
                }
                lemma_lookup_update(pre, i as int, uc_new, uid);
                assert(uc_new.conns@ == pre[i as int].conns@.push(entry));
                assert(uc_new.conns@.drop_last() =~= pre[i as int].conns@);
                // the invariant: distinct uids survive an update in place
                assert forall|p: int, q: int|
                    0 <= p < q < self.users@.len() implies (#[trigger] self.users@[p]).uid != (
                #[trigger] self.users@[q]).uid by {
                    assert(pre[p].uid == self.users@[p].uid);
                    assert(pre[q].uid == self.users@[q].uid);
                }
                // every list keeps ids distinct and below the bumped counter
                assert forall|k: int|
                    0 <= k < self.users@.len() implies spec_conns_wf(
                        (#[trigger] self.users@[k]).conns@,
                        self.next_conn_id,
                    ) && self.users@[k].conns@.len() > 0 by {
                    if k == i as int {
                        assert(spec_conns_wf(pre[k].conns@, old_next));
                        assert forall|a: int, b: int|
                            0 <= a < b < uc_new.conns@.len() implies (
                            #[trigger] uc_new.conns@[a]).conn_id != (
                            #[trigger] uc_new.conns@[b]).conn_id by {
                            if b < uc_new.conns@.len() - 1 {
                                assert(uc_new.conns@[a] == pre[k].conns@[a]);
                                assert(uc_new.conns@[b] == pre[k].conns@[b]);
                            } else {
                                assert(uc_new.conns@[a] == pre[k].conns@[a]);
                                assert(uc_new.conns@[b] == entry);
                                assert(pre[k].conns@[a].conn_id < old_next);
                            }
                        }
                    } else {
                        assert(self.users@[k] == pre[k]);
                        assert(spec_conns_wf(pre[k].conns@, old_next));
                    }
                }
            }
            (conn_id, rx)
        } else {
            let mut conns: Vec<ConnectionEntry> = Vec::new();
            conns.push(entry);
            let uc = UserConnections { uid, conns };
            let ghost uc_new: UserConnections = uc;
            self.users.push(uc);
            proof {
                assert(self.users@ == pre.push(uc_new));
                assert forall|u: i32| u != uid implies spec_lookup(self.users@, u) == spec_lookup(
                    pre,
                    u,
                ) by {
                    lemma_lookup_push(pre, uc_new, u);
                }
                lemma_lookup_push(pre, uc_new, uid);
                lemma_lookup_absent(pre, uid);
                assert(uc_new.conns@ == seq![entry]);
                assert(uc_new.conns@.drop_last() =~= spec_lookup(pre, uid));
                assert forall|p: int, q: int|
                    0 <= p < q < self.users@.len() implies (#[trigger] self.users@[p]).uid != (
                #[trigger] self.users@[q]).uid by {
                    if q < self.users@.len() - 1 {
                        assert(self.users@[p] == pre[p]);
                        assert(self.users@[q] == pre[q]);
                    } else {
                        assert(self.users@[p] == pre[p]);
                        assert(self.users@[q] == uc_new);
                    }
                }
                assert forall|k: int|
                    0 <= k < self.users@.len() implies spec_conns_wf(
                        (#[trigger] self.users@[k]).conns@,
                        self.next_conn_id,
                    ) && self.users@[k].conns@.len() > 0 by {
                    if k < self.users@.len() - 1 {
                        assert(self.users@[k] == pre[k]);
                        assert(spec_conns_wf(pre[k].conns@, old_next));
                    } else {
                        assert(self.users@[k] == uc_new);
                    }
                }
            }
            (conn_id, rx)
        }
    }
}

impl ConnectionRegistry {
    /// Whether the registry invariant holds, decided at run time: what
    /// callers outside verified code test before operations that require a
    /// well-formed registry.
    pub fn wf_check(&self) -> (r: bool)
        ensures
            r == self.spec_wf(),
    {
        let n: usize = self.users.len();
        let mut i: usize = 0;
        while i < n
            invariant
                i <= n,
                n == self.users@.len(),
                forall|p: int, q: int|
                    0 <= p < q < n && p < i ==> (#[trigger] self.users@[p]).uid != (
                    #[trigger] self.users@[q]).uid,
                forall|p: int|
                    0 <= p < i ==> (#[trigger] self.users@[p]).conns@.len() > 0 && spec_conns_wf(
                        self.users@[p].conns@,
                        self.next_conn_id,
                    ),
            decreases n - i,
        {
            let mut j: usize = i + 1;
            while j < n
                invariant
                    i < j <= n,
                    i < n,
                    n == self.users@.len(),
                    forall|q: int|
                        i < q < j ==> self.users@[i as int].uid != (#[trigger] self.users@[q]).uid,
                decreases n - j,
            {
                if self.users[i].uid == self.users[j].uid {
                    assert(!spec_uids_distinct(self.users@));
                    return false;
                }
                j = j + 1;
            }
            let m: usize = self.users[i].conns.len();
            if m == 0 {
                assert(self.users@[i as int].conns@.len() == 0);
                return false;
            }
            let mut a: usize = 0;
            while a < m
                invariant
                    a <= m,
                    i < n,
                    n == self.users@.len(),
                    m == self.users@[i as int].conns@.len(),
                    forall|x: int|
                        0 <= x < a ==> (#[trigger] self.users@[i as int].conns@[x]).conn_id
                            < self.next_conn_id,
                    forall|x: int, y: int|
                        0 <= x < y < m && x < a ==> (
                        #[trigger] self.users@[i as int].conns@[x]).conn_id != (
                        #[trigger] self.users@[i as int].conns@[y]).conn_id,
                decreases m - a,
            {
                if self.users[i].conns[a].conn_id >= self.next_conn_id {
                    assert(!spec_conns_wf(self.users@[i as int].conns@, self.next_conn_id));
                    return false;
                }
                let mut b: usize = a + 1;
                while b < m
                    invariant
                        a < b <= m,
                        i < n,
                        a < m,
                        n == self.users@.len(),
                        m == self.users@[i as int].conns@.len(),
                        forall|y: int|
                            a < y < b ==> (#[trigger] self.users@[i as int].conns@[y]).conn_id
                                != self.users@[i as int].conns@[a as int].conn_id,
                    decreases m - b,
                {
                    if self.users[i].conns[a].conn_id == self.users[i].conns[b].conn_id {
                        assert(!spec_conns_wf(self.users@[i as int].conns@, self.next_conn_id));
                        return false;
                    }
                    b = b + 1;
                }
                a = a + 1;
            }
            i = i + 1;
        }
        true
    }
}

/// The entries kept when one connection id is removed.
pub open spec fn spec_keeps(conn_id: u64) -> spec_fn(ConnectionEntry) -> bool {
    |c: ConnectionEntry| c.conn_id != conn_id
}

pub open spec fn spec_has_conn(conns: Seq<ConnectionEntry>, conn_id: u64) -> bool {
    exists|a: int| 0 <= a < conns.len() && (#[trigger] conns[a]).conn_id == conn_id
}

/// Filtering a well-formed connection list keeps it well-formed.
proof fn lemma_filter_conns_wf(
    s: Seq<ConnectionEntry>,
    pred: spec_fn(ConnectionEntry) -> bool,
    next_id: u64,
)
    requires
        spec_conns_wf(s, next_id),
    ensures
        spec_conns_wf(s.filter(pred), next_id),
    decreases s.len(),
{
    reveal(Seq::filter);
    if s.len() > 0 {
        let prefix = s.drop_last();
        let last = s.last();
        assert(spec_conns_wf(prefix, next_id)) by {
            assert forall|a: int|
                0 <= a < prefix.len() implies (#[trigger] prefix[a]).conn_id < next_id by {
                assert(prefix[a] == s[a]);
            }
        }
        lemma_filter_conns_wf(prefix, pred, next_id);
        if pred(last) {
            let f = prefix.filter(pred);
            assert(s.filter(pred) == f.push(last));
            assert forall|a: int|
                0 <= a < f.push(last).len() implies (#[trigger] f.push(last)[a]).conn_id
                    < next_id by {
                if a < f.len() {
                    assert(f.push(last)[a] == f[a]);
                } else {
                    assert(f.push(last)[a] == last);
                    assert(s[s.len() - 1].conn_id < next_id);
                }
            }
            assert forall|a: int, b: int|
                0 <= a < b < f.push(last).len() implies (#[trigger] f.push(last)[a]).conn_id != (
            #[trigger] f.push(last)[b]).conn_id by {
                if b < f.len() {
                    assert(f.push(last)[a] == f[a]);
                    assert(f.push(last)[b] == f[b]);
                } else {
                    assert(f.push(last)[a] == f[a]);
                    assert(f.push(last)[b] == last);
                    assert(f.contains(f[a]));
                    crate::seq_facts::lemma_filter_subset(prefix, pred, f[a]);
                    let j = choose|j: int| 0 <= j < prefix.len() && prefix[j] == f[a];
                    assert(s[j] == f[a]);
                    assert(s[j].conn_id != s[s.len() - 1].conn_id);
                }
            }
        } else {
            assert(s.filter(pred) == prefix.filter(pred));
        }
    }
}

impl ConnectionRegistry {
    /// Removes exactly that connection from the uid's list; a uid whose
    /// list becomes empty is dropped entirely. Removing an id that is not
    /// present, or a uid with no connections, is a no-op.
    pub fn remove_connection(&mut self, uid: i32, conn_id: u64)
        requires
            old(self).spec_wf(),
        ensures
            final(self).spec_wf(),
            final(self).next_conn_id == old(self).next_conn_id,
            forall|u: i32| u != uid ==> final(self).spec_conns_of(u) == old(self).spec_conns_of(u),
            final(self).spec_conns_of(uid) == old(self).spec_conns_of(uid).filter(
                spec_keeps(conn_id),
            ),
    {
        let ghost pre: Seq<UserConnections> = self.users@;
        let ghost pred: spec_fn(ConnectionEntry) -> bool = spec_keeps(conn_id);

        let n: usize = self.users.len();
        let mut i: usize = 0;
        let mut found: bool = false;
        while i < n && !found
            invariant
                i <= n,
                n == self.users@.len(),
                self.users@ == pre,
                !found ==> forall|k: int| 0 <= k < i ==> (#[trigger] self.users@[k]).uid != uid,
                found ==> i < n && self.users@[i as int].uid == uid,
            decreases n - i, (if found {
                0int
            } else {
                1int
            }),
        {
            if self.users[i].uid == uid {
                found = true;
            } else {
                i = i + 1;
            }
        }
        if !found {
            proof {
                lemma_lookup_absent(pre, uid);
                assert(Seq::<ConnectionEntry>::empty().filter(pred) =~= Seq::<
                    ConnectionEntry,
                >::empty()) by {
                    reveal(Seq::filter);
                }
            }
            return ;
        }

        let mut uc: UserConnections = self.users.remove(i);
        let ghost orig_conns: Seq<ConnectionEntry> = uc.conns@;
        let ghost mut processed: int = 0;
        proof {
            assert(orig_conns.take(0).filter(pred) =~= Seq::<ConnectionEntry>::empty()) by {
                reveal(Seq::filter);
            }
            assert(uc.conns@ =~= orig_conns.skip(0));
        }
        let mut kept: Vec<ConnectionEntry> = Vec::new();
        while uc.conns.len() > 0
            invariant
                0 <= processed <= orig_conns.len(),
                uc.uid == uid,
                uc.conns@ == orig_conns.skip(processed),
                kept@ == orig_conns.take(processed).filter(pred),
                pred == spec_keeps(conn_id),
            decreases uc.conns@.len(),
        {
            proof {
                assert(uc.conns@[0] == orig_conns[processed]);
            }
            let c: ConnectionEntry = uc.conns.remove(0);
            proof {
                assert(orig_conns.take(processed + 1) =~= orig_conns.take(processed).push(c));
                crate::seq_facts::lemma_filter_push(orig_conns.take(processed), pred, c);
            }
            if c.conn_id != conn_id {
                kept.push(c);
            }
            proof {
                processed = processed + 1;
                assert(uc.conns@ =~= orig_conns.skip(processed));
            }
        }
        proof {
            assert(orig_conns.take(processed) =~= orig_conns);
            assert(kept@ == orig_conns.filter(pred));
            lemma_lookup_at(pre, i as int);
        }

        if kept.len() == 0 {
            proof {
                assert(self.users@ == pre.remove(i as int));
                assert forall|u: i32| #[trigger] spec_lookup(self.users@, u) == (if u == uid {
                    Seq::<ConnectionEntry>::empty()
                } else {
                    spec_lookup(pre, u)
                }) by {
                    lemma_lookup_remove(pre, i as int, u);
                }
                assert forall|p: int, q: int|
                    0 <= p < q < self.users@.len() implies (#[trigger] self.users@[p]).uid != (
                #[trigger] self.users@[q]).uid by {
                    assert(self.users@[p] == (if p < i as int {
                        pre[p]
                    } else {
                        pre[p + 1]
                    }));
                    assert(self.users@[q] == (if q < i as int {
                        pre[q]
                    } else {
                        pre[q + 1]
                    }));
                }
                assert forall|k: int|
                    0 <= k < self.users@.len() implies spec_conns_wf(
                        (#[trigger] self.users@[k]).conns@,
                        self.next_conn_id,
                    ) && self.users@[k].conns@.len() > 0 by {
                    assert(self.users@[k] == (if k < i as int {
                        pre[k]
                    } else {
                        pre[k + 1]
                    }));
                }
            }
        } else {
            let replacement = UserConnections { uid: uc.uid, conns: kept };
            let ghost uc_new: UserConnections = replacement;
            self.users.insert(i, replacement);
            proof {
                assert(self.users@ =~= pre.update(i as int, uc_new));
                assert forall|u: i32| #[trigger] spec_lookup(self.users@, u) == (if u == uid {
                    uc_new.conns@
                } else {
                    spec_lookup(pre, u)
                }) by {
                    lemma_lookup_update(pre, i as int, uc_new, u);
                }
                lemma_filter_conns_wf(orig_conns, pred, self.next_conn_id);
                assert forall|p: int, q: int|
                    0 <= p < q < self.users@.len() implies (#[trigger] self.users@[p]).uid != (
                #[trigger] self.users@[q]).uid by {
                    assert(pre[p].uid == self.users@[p].uid);
                    assert(pre[q].uid == self.users@[q].uid);
                }
                assert forall|k: int|
                    0 <= k < self.users@.len() implies spec_conns_wf(
                        (#[trigger] self.users@[k]).conns@,
                        self.next_conn_id,
                    ) && self.users@[k].conns@.len() > 0 by {
                    if k != i as int {
                        assert(self.users@[k] == pre[k]);
                    }
                }
            }
        }
    }

    /// Refreshes one connection's keepalive clock to `now`. Everything else
    /// — other connections, other users, the counter — stays as it was.
    /// Returns whether the connection was found.
    pub fn record_ping(&mut self, uid: i32, conn_id: u64, now: u64) -> (found: bool)
        requires
            old(self).spec_wf(),
        ensures
            final(self).spec_wf(),
            final(self).next_conn_id == old(self).next_conn_id,
            forall|u: i32| u != uid ==> final(self).spec_conns_of(u) == old(self).spec_conns_of(u),
            final(self).spec_conns_of(uid).len() == old(self).spec_conns_of(uid).len(),
            forall|a: int|
                0 <= a < old(self).spec_conns_of(uid).len() ==> (
                #[trigger] final(self).spec_conns_of(uid)[a]) == (if old(self).spec_conns_of(
                    uid,
                )[a].conn_id == conn_id {
                    ConnectionEntry { last_ping_at: now, ..old(self).spec_conns_of(uid)[a] }
                } else {
                    old(self).spec_conns_of(uid)[a]
                }),
            found == spec_has_conn(old(self).spec_conns_of(uid), conn_id),
    {
        let ghost pre: Seq<UserConnections> = self.users@;

        let n: usize = self.users.len();
        let mut i: usize = 0;
        let mut found_user: bool = false;
        while i < n && !found_user
            invariant
                i <= n,
                n == self.users@.len(),
                self.users@ == pre,
                !found_user ==> forall|k: int| 0 <= k < i ==> (#[trigger] self.users@[k]).uid
                    != uid,
                found_user ==> i < n && self.users@[i as int].uid == uid,
            decreases n - i, (if found_user {
                0int
            } else {
                1int
            }),
        {
            if self.users[i].uid == uid {
                found_user = true;
            } else {
                i = i + 1;
            }
        }
        if !found_user {
            proof {
                lemma_lookup_absent(pre, uid);
            }
            return false;
        }

        let mut uc: UserConnections = self.users.remove(i);
        let ghost orig_conns: Seq<ConnectionEntry> = uc.conns@;
        proof {
            lemma_lookup_at(pre, i as int);
        }

        let m: usize = uc.conns.len();
        let mut a: usize = 0;
        let mut found_conn: bool = false;
        while a < m && !found_conn
            invariant
                a <= m,
                m == uc.conns@.len(),
                uc.uid == uid,
                uc.conns@ == orig_conns,
                !found_conn ==> forall|k: int| 0 <= k < a ==> (#[trigger] uc.conns@[k]).conn_id
                    != conn_id,
                found_conn ==> a < m && uc.conns@[a as int].conn_id == conn_id,
            decreases m - a, (if found_conn {
                0int
            } else {
                1int
            }),
        {
            if uc.conns[a].conn_id == conn_id {
                found_conn = true;
            } else {
                a = a + 1;
            }
        }

        if found_conn {
            let e: ConnectionEntry = uc.conns.remove(a);
            let refreshed = ConnectionEntry { conn_id: e.conn_id, last_ping_at: now, tx: e.tx };
            let ghost refreshed_g: ConnectionEntry = refreshed;
            uc.conns.insert(a, refreshed);
            proof {
                assert(uc.conns@ =~= orig_conns.update(a as int, refreshed_g));
            }
        }
        let ghost new_conns: Seq<ConnectionEntry> = uc.conns@;
        let replacement = UserConnections { uid: uc.uid, conns: uc.conns };
        let ghost uc_new: UserConnections = replacement;
        self.users.insert(i, replacement);
        proof {
            assert(self.users@ =~= pre.update(i as int, uc_new));
            assert forall|u: i32| #[trigger] spec_lookup(self.users@, u) == (if u == uid {
                new_conns
            } else {
                spec_lookup(pre, u)
            }) by {
                lemma_lookup_update(pre, i as int, uc_new, u);
            }
            if found_conn {
                assert(spec_has_conn(orig_conns, conn_id));
            } else {
                assert(!spec_has_conn(orig_conns, conn_id));
            }
            assert forall|p: int, q: int|
                0 <= p < q < self.users@.len() implies (#[trigger] self.users@[p]).uid != (
            #[trigger] self.users@[q]).uid by {
                assert(pre[p].uid == self.users@[p].uid);
                assert(pre[q].uid == self.users@[q].uid);
            }
            assert forall|k: int|
                0 <= k < self.users@.len() implies spec_conns_wf(
                    (#[trigger] self.users@[k]).conns@,
                    self.next_conn_id,
                ) && self.users@[k].conns@.len() > 0 by {
                if k != i as int {
                    assert(self.users@[k] == pre[k]);
                } else {
                    assert(spec_conns_wf(orig_conns, self.next_conn_id));
                    assert forall|x: int|
                        0 <= x < new_conns.len() implies (#[trigger] new_conns[x]).conn_id
                            == orig_conns[x].conn_id by {}
                    assert forall|x: int, y: int|
                        0 <= x < y < new_conns.len() implies (#[trigger] new_conns[x]).conn_id != (
                    #[trigger] new_conns[y]).conn_id by {
                        assert(orig_conns[x].conn_id != orig_conns[y].conn_id);
                    }
                }
            }
        }
        found_conn
    }
}

/// A connection is stale when `now` is more than `max_age_secs` past its
/// last keepalive.
pub open spec fn spec_is_stale(c: ConnectionEntry, now: u64, max_age_secs: u64) -> bool {
    c.last_ping_at + max_age_secs < now
}

/// The entries a staleness sweep keeps.
pub open spec fn spec_fresh(now: u64, max_age_secs: u64) -> spec_fn(ConnectionEntry) -> bool {
    |c: ConnectionEntry| !spec_is_stale(c, now, max_age_secs)
}

impl ConnectionRegistry {
    /// The staleness sweep: drops every connection not pinged within
    /// `max_age_secs` of `now`, across all users, and drops any user whose
    /// list becomes empty. A connection survives the sweep exactly when it
    /// was present and fresh.
    pub fn prune_stale(&mut self, now: u64, max_age_secs: u64)
        requires
            old(self).spec_wf(),
        ensures
            final(self).spec_wf(),
            final(self).next_conn_id == old(self).next_conn_id,
            forall|u: i32|
                #[trigger] final(self).spec_conns_of(u) == old(self).spec_conns_of(u).filter(
                    spec_fresh(now, max_age_secs),
                ),
            forall|u: i32, c: ConnectionEntry|
                #[trigger] final(self).spec_conns_of(u).contains(c) <==> old(self).spec_conns_of(
                    u,
                ).contains(c) && !spec_is_stale(c, now, max_age_secs),
    {
        let ghost orig: Seq<UserConnections> = self.users@;
        let ghost fresh: spec_fn(ConnectionEntry) -> bool = spec_fresh(now, max_age_secs);
        let ghost next0: u64 = self.next_conn_id;
        let ghost mut k: int = 0;
        let mut rebuilt: Vec<UserConnections> = Vec::new();
        proof {
            assert(self.users@ =~= orig.skip(0));
        }
        while self.users.len() > 0
            invariant
                0 <= k <= orig.len(),
                self.users@ == orig.skip(k),
                self.next_conn_id == next0,
                fresh == spec_fresh(now, max_age_secs),
                spec_uids_distinct(orig),
                forall|i: int|
                    0 <= i < orig.len() ==> spec_conns_wf((#[trigger] orig[i]).conns@, next0)
                        && orig[i].conns@.len() > 0,
                spec_uids_distinct(rebuilt@),
                forall|x: int|
                    0 <= x < rebuilt@.len() ==> spec_conns_wf((#[trigger] rebuilt@[x]).conns@, next0)
                        && rebuilt@[x].conns@.len() > 0,
                forall|x: int|
                    0 <= x < rebuilt@.len() ==> exists|j: int|
                        0 <= j < k && orig[j].uid == (#[trigger] rebuilt@[x]).uid,
                forall|u: i32|
                    #[trigger] spec_lookup(rebuilt@, u) == (if exists|j: int|
                        0 <= j < k && (#[trigger] orig[j]).uid == u {
                        spec_lookup(orig, u).filter(fresh)
                    } else {
                        Seq::<ConnectionEntry>::empty()
                    }),
            decreases self.users@.len(),
        {
            proof {
                assert(self.users@[0] == orig[k]);
            }
            let mut uc: UserConnections = self.users.remove(0);
            let ghost uid_k: i32 = uc.uid;
            let ghost orig_conns: Seq<ConnectionEntry> = uc.conns@;
            proof {
                lemma_lookup_at(orig, k);
                assert(spec_lookup(orig, uid_k) == orig_conns);
            }

            let ghost mut processed: int = 0;
            let mut kept: Vec<ConnectionEntry> = Vec::new();
            proof {
                assert(orig_conns.take(0).filter(fresh) =~= Seq::<ConnectionEntry>::empty()) by {
                    reveal(Seq::filter);
                }
                assert(uc.conns@ =~= orig_conns.skip(0));
            }
            while uc.conns.len() > 0
                invariant
                    0 <= processed <= orig_conns.len(),
                    uc.uid == uid_k,
                    uc.conns@ == orig_conns.skip(processed),
                    kept@ == orig_conns.take(processed).filter(fresh),
                    fresh == spec_fresh(now, max_age_secs),
                decreases uc.conns@.len(),
            {
                proof {
                    assert(uc.conns@[0] == orig_conns[processed]);
                }
                let c: ConnectionEntry = uc.conns.remove(0);
                let is_stale: bool = now.saturating_sub(c.last_ping_at) > max_age_secs;
                proof {
                    assert(is_stale == spec_is_stale(c, now, max_age_secs));
                    assert(orig_conns.take(processed + 1) =~= orig_conns.take(processed).push(c));
                    crate::seq_facts::lemma_filter_push(orig_conns.take(processed), fresh, c);
                }
                if !is_stale {
                    kept.push(c);
                }
                proof {
                    processed = processed + 1;
                    assert(uc.conns@ =~= orig_conns.skip(processed));
                }
            }
            proof {
                assert(orig_conns.take(processed) =~= orig_conns);
                assert(kept@ == orig_conns.filter(fresh));
            }

            let ghost rebuilt_pre: Seq<UserConnections> = rebuilt@;
            if kept.len() > 0 {
                let replacement = UserConnections { uid: uc.uid, conns: kept };
                let ghost uc_new: UserConnections = replacement;
                rebuilt.push(replacement);
                proof {
                    assert forall|x: int|
                        0 <= x < rebuilt_pre.len() implies (#[trigger] rebuilt_pre[x]).uid
                            != uid_k by {
                        let j = choose|j: int| 0 <= j < k && orig[j].uid == rebuilt_pre[x].uid;
                        assert(orig[j].uid != orig[k].uid);
                    }
                    assert forall|u: i32| #[trigger] spec_lookup(rebuilt@, u) == (if exists|j: int|
                        0 <= j < k + 1 && (#[trigger] orig[j]).uid == u {
                        spec_lookup(orig, u).filter(fresh)
                    } else {
                        Seq::<ConnectionEntry>::empty()
                    }) by {
                        lemma_lookup_push(rebuilt_pre, uc_new, u);
                        if u == uid_k {
                            assert(orig[k].uid == u);
                        } else {
                            assert((exists|j: int| 0 <= j < k + 1 && (#[trigger] orig[j]).uid == u)
                                == (exists|j: int| 0 <= j < k && (#[trigger] orig[j]).uid == u));
                        }
                    }
                    assert forall|p: int, q: int|
                        0 <= p < q < rebuilt@.len() implies (#[trigger] rebuilt@[p]).uid != (
                    #[trigger] rebuilt@[q]).uid by {
                        if q < rebuilt@.len() - 1 {
                            assert(rebuilt@[p] == rebuilt_pre[p]);
                            assert(rebuilt@[q] == rebuilt_pre[q]);
                        } else {
                            assert(rebuilt@[p] == rebuilt_pre[p]);
                            assert(rebuilt@[q] == uc_new);
                        }
                    }
                    assert forall|x: int|
                        0 <= x < rebuilt@.len() implies spec_conns_wf(
                            (#[trigger] rebuilt@[x]).conns@,
                            next0,
                        ) && rebuilt@[x].conns@.len() > 0 by {
                        if x < rebuilt@.len() - 1 {
                            assert(rebuilt@[x] == rebuilt_pre[x]);
                        } else {
                            assert(rebuilt@[x] == uc_new);
                            lemma_filter_conns_wf(orig_conns, fresh, next0);
                        }
                    }
                    assert forall|x: int|
                        0 <= x < rebuilt@.len() implies exists|j: int|
                            0 <= j < k + 1 && orig[j].uid == (#[trigger] rebuilt@[x]).uid by {
                        if x < rebuilt@.len() - 1 {
                            assert(rebuilt@[x] == rebuilt_pre[x]);
                            let j = choose|j: int|
                                0 <= j < k && orig[j].uid == rebuilt_pre[x].uid;
                            assert(0 <= j < k + 1 && orig[j].uid == rebuilt@[x].uid);
                        } else {
                            assert(orig[k].uid == rebuilt@[x].uid);
                        }
                    }
                }
            } else {
                proof {
                    assert forall|u: i32| #[trigger] spec_lookup(rebuilt@, u) == (if exists|j: int|
                        0 <= j < k + 1 && (#[trigger] orig[j]).uid == u {
                        spec_lookup(orig, u).filter(fresh)
                    } else {
                        Seq::<ConnectionEntry>::empty()
                    }) by {
                        if u == uid_k {
                            assert(orig[k].uid == u);
                            assert(spec_lookup(orig, u).filter(fresh) =~= kept@);
                            if exists|j: int| 0 <= j < k && (#[trigger] orig[j]).uid == u {
                                let j = choose|j: int| 0 <= j < k && (#[trigger] orig[j]).uid == u;
                                assert(orig[j].uid != orig[k].uid);
                                assert(false);
                            }
                        } else {
                            assert((exists|j: int| 0 <= j < k + 1 && (#[trigger] orig[j]).uid == u)
                                == (exists|j: int| 0 <= j < k && (#[trigger] orig[j]).uid == u));
                        }
                    }
                }
            }
            proof {
                k = k + 1;
                assert(self.users@ =~= orig.skip(k));
            }
        }
        self.users = rebuilt;
        proof {
            assert forall|u: i32|
                #[trigger] self.spec_conns_of(u) == spec_lookup(orig, u).filter(fresh) by {
                if !(exists|j: int| 0 <= j < orig.len() && (#[trigger] orig[j]).uid == u) {
                    assert forall|i: int|
                        0 <= i < orig.len() implies (#[trigger] orig[i]).uid != u by {}
                    lemma_lookup_absent(orig, u);
                    assert(Seq::<ConnectionEntry>::empty().filter(fresh) =~= Seq::<
                        ConnectionEntry,
                    >::empty()) by {
                        reveal(Seq::filter);
                    }
                }
            }
            assert forall|u: i32, c: ConnectionEntry|
                #[trigger] self.spec_conns_of(u).contains(c) <==> spec_lookup(orig, u).contains(c)
                    && !spec_is_stale(c, now, max_age_secs) by {
                crate::seq_facts::lemma_filter_membership(spec_lookup(orig, u), fresh, c);
            }
        }
    }
}

/// One attempted send: which uid's connection, and whether the channel
/// accepted the message.
#[derive(Clone, Copy, Debug, PartialEq, Eq, Structural)]
pub struct SendOutcome {
    pub uid: i32,
    pub conn_id: u64,
    pub delivered: bool,
}

/// The keys of the attempts one uid's connections receive, in list order.
pub open spec fn spec_conn_keys(conns: Seq<ConnectionEntry>, uid: i32) -> Seq<(i32, u64)> {
    conns.map_values(|c: ConnectionEntry| (uid, c.conn_id))
}

/// The keys of every attempt a broadcast to `uids` makes, uid by uid:
/// one per connection of each listed uid, offline uids contributing none.
pub open spec fn spec_attempts(reg: ConnectionRegistry, uids: Seq<i32>) -> Seq<(i32, u64)>
    decreases uids.len(),
{
    if uids.len() == 0 {
        Seq::<(i32, u64)>::empty()
    } else {
        spec_attempts(reg, uids.drop_last()) + spec_conn_keys(
            reg.spec_conns_of(uids.last()),
            uids.last(),
        )
    }
}

impl ConnectionRegistry {
    /// Best-effort fan-out: tries a non-blocking send of `message` to every
    /// connection of every listed uid (duplicates tolerated, offline uids
    /// skipped), and reports each attempt. A full or closed channel only
    /// loses that one send: the outcome sequence always carries exactly one
    /// attempt per connection, whatever `delivered` says elsewhere, and the
    /// registry itself is untouched — eviction is the sweep's job alone.
    pub fn broadcast_to_uids(&self, uids: &Vec<i32>, message: &str) -> (outcomes: Vec<SendOutcome>)
        requires
            self.spec_wf(),
        ensures
            outcomes@.map_values(|o: SendOutcome| (o.uid, o.conn_id)) == spec_attempts(
                *self,
                uids@,
            ),
    {
        let ghost okey = |o: SendOutcome| (o.uid, o.conn_id);
        let mut outcomes: Vec<SendOutcome> = Vec::new();
        let nu: usize = uids.len();
        let mut k: usize = 0;
        proof {
            assert(outcomes@.map_values(okey) =~= spec_attempts(*self, uids@.take(0)));
        }
        while k < nu
            invariant
                k <= nu,
                nu == uids@.len(),
                self.spec_wf(),
                outcomes@.map_values(okey) == spec_attempts(*self, uids@.take(k as int)),
                okey == (|o: SendOutcome| (o.uid, o.conn_id)),
            decreases nu - k,
        {
            let uid: i32 = uids[k];
            let ghost conns: Seq<ConnectionEntry> = self.spec_conns_of(uid);

            let n: usize = self.users.len();
            let mut i: usize = 0;
            let mut found: bool = false;
            while i < n && !found
                invariant
                    i <= n,
                    n == self.users@.len(),
                    self.spec_wf(),
                    !found ==> forall|x: int| 0 <= x < i ==> (#[trigger] self.users@[x]).uid != uid,
                    found ==> i < n && self.users@[i as int].uid == uid,
                decreases n - i, (if found {
                    0int
                } else {
                    1int
                }),
            {
                if self.users[i].uid == uid {
                    found = true;
                } else {
                    i = i + 1;
                }
            }

            let ghost pre_out: Seq<SendOutcome> = outcomes@;
            if found {
                proof {
                    lemma_lookup_at(self.users@, i as int);
                    assert(conns == self.users@[i as int].conns@);
                }
                let m: usize = self.users[i].conns.len();
                let mut a: usize = 0;
                while a < m
                    invariant
                        a <= m,
                        i < self.users@.len(),
                        m == self.users@[i as int].conns@.len(),
                        conns == self.users@[i as int].conns@,
                        outcomes@.map_values(okey) == pre_out.map_values(okey) + spec_conn_keys(
                            conns,
                            uid,
                        ).take(a as int),
                        okey == (|o: SendOutcome| (o.uid, o.conn_id)),
                    decreases m - a,
                {
                    let entry: &ConnectionEntry = &self.users[i].conns[a];
                    let delivered: bool = try_send_text(&entry.tx, String::from_str(message));
                    let ghost before: Seq<SendOutcome> = outcomes@;
                    outcomes.push(SendOutcome { uid, conn_id: entry.conn_id, delivered });
                    proof {
                        assert(outcomes@.map_values(okey) =~= before.map_values(okey).push(
                            (uid, conns[a as int].conn_id),
                        ));
                        assert(spec_conn_keys(conns, uid).take(a + 1) =~= spec_conn_keys(
                            conns,
                            uid,
                        ).take(a as int).push((uid, conns[a as int].conn_id)));
                        assert(outcomes@.map_values(okey) =~= pre_out.map_values(okey)
                            + spec_conn_keys(conns, uid).take(a + 1));
                    }
                    a = a + 1;
                }
                proof {
                    assert(spec_conn_keys(conns, uid).take(m as int) =~= spec_conn_keys(
                        conns,
                        uid,
                    ));
                }
            } else {
                proof {
                    lemma_lookup_absent(self.users@, uid);
                    assert(conns =~= Seq::<ConnectionEntry>::empty());
                    assert(spec_conn_keys(conns, uid) =~= Seq::<(i32, u64)>::empty());
                    assert(outcomes@.map_values(okey) =~= pre_out.map_values(okey) + spec_conn_keys(
                        conns,
                        uid,
                    ));
                }
            }
            proof {
                assert(uids@.take(k + 1).drop_last() =~= uids@.take(k as int));
                assert(uids@.take(k + 1).last() == uids@[k as int]);
                assert(spec_attempts(*self, uids@.take(k + 1)) == spec_attempts(
                    *self,
                    uids@.take(k as int),
                ) + spec_conn_keys(conns, uid));
            }
            k = k + 1;
        }
        proof {
            assert(uids@.take(nu as int) =~= uids@);
        }
        outcomes
    }
}

/// Failures stay isolated: a broadcast to a set of uids attempts one send
/// for every connection of every listed uid, so a full channel on one
/// connection costs only that connection its message — every other
/// connection's attempt is still in the sequence.
pub proof fn lemma_broadcast_covers(reg: ConnectionRegistry, uids: Seq<i32>, k: int, a: int)
    requires
        0 <= k < uids.len(),
        0 <= a < reg.spec_conns_of(uids[k]).len(),
    ensures
        spec_attempts(reg, uids).contains((uids[k], reg.spec_conns_of(uids[k])[a].conn_id)),
    decreases uids.len(),
{
    let whole = spec_attempts(reg, uids);
    let pre = spec_attempts(reg, uids.drop_last());
    let keys = spec_conn_keys(reg.spec_conns_of(uids.last()), uids.last());
    assert(whole == pre + keys);
    if k == uids.len() - 1 {
        assert(uids.last() == uids[k]);
        assert(keys[a] == (uids[k], reg.spec_conns_of(uids[k])[a].conn_id));
        assert(whole[pre.len() + a] == keys[a]);
        assert(whole.contains((uids[k], reg.spec_conns_of(uids[k])[a].conn_id)));
    } else {
        assert(uids.drop_last()[k] == uids[k]);
        lemma_broadcast_covers(reg, uids.drop_last(), k, a);
        let pair = (uids[k], reg.spec_conns_of(uids[k])[a].conn_id);
        let w = choose|w: int| 0 <= w < pre.len() && pre[w] == pair;
        assert(whole[w] == pair);
        assert(whole.contains(pair));
    }
}

impl Default for ConnectionRegistry {
    fn default() -> (r: ConnectionRegistry)
        ensures
            r.spec_wf(),
            r.next_conn_id == 0,
            forall|u: i32| r.spec_conns_of(u) == Seq::<ConnectionEntry>::empty(),
    {
        ConnectionRegistry::new()
    }
}

} // verus!
