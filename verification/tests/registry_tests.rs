use chat_core::registry::ConnectionRegistry;
use chat_core::ws::ping_timeout_secs;

#[test]
fn register_hands_out_fresh_ids() {
    let mut reg = ConnectionRegistry::new();
    let (id1, _rx1) = reg.register(1, 100);
    let (id2, _rx2) = reg.register(1, 100);
    let (id3, _rx3) = reg.register(2, 100);
    assert_eq!(id1, 0);
    assert_eq!(id2, 1);
    assert_eq!(id3, 2);
    assert_eq!(reg.next_conn_id, 3);
}

#[test]
fn broadcast_reaches_every_connection_of_listed_uids() {
    let mut reg = ConnectionRegistry::new();
    let (_a, mut rx_a) = reg.register(1, 100);
    let (_b, mut rx_b) = reg.register(1, 100);
    let (_c, mut rx_c) = reg.register(2, 100);
    let (_d, mut rx_d) = reg.register(3, 100);

    let outcomes = reg.broadcast_to_uids(&vec![1, 2], "payload");
    assert_eq!(outcomes.len(), 3);
    assert!(outcomes.iter().all(|o| o.delivered));
    assert_eq!(rx_a.try_recv().unwrap(), "payload");
    assert_eq!(rx_b.try_recv().unwrap(), "payload");
    assert_eq!(rx_c.try_recv().unwrap(), "payload");
    // uid 3 was not addressed
    assert!(rx_d.try_recv().is_err());
}

#[test]
fn broadcast_skips_offline_uids_and_tolerates_duplicates() {
    let mut reg = ConnectionRegistry::new();
    let (_a, mut rx_a) = reg.register(1, 100);
    let outcomes = reg.broadcast_to_uids(&vec![9, 1, 1], "x");
    // uid 9 is offline: no attempt for it; uid 1 listed twice: two attempts
    assert_eq!(outcomes.len(), 2);
    assert_eq!(rx_a.try_recv().unwrap(), "x");
    assert_eq!(rx_a.try_recv().unwrap(), "x");
}

#[test]
fn full_channel_loses_only_its_own_send() {
    let mut reg = ConnectionRegistry::new();
    let (slow_id, _rx_slow) = reg.register(1, 100);
    let (_fast, mut rx_fast) = reg.register(1, 100);

    // fill the slow connection's bounded channel by never draining rx_slow
    for _ in 0..chat_core::registry::CHANNEL_CAPACITY {
        reg.broadcast_to_uids(&vec![1], "fill");
        while rx_fast.try_recv().is_ok() {}
    }

    let outcomes = reg.broadcast_to_uids(&vec![1], "after-full");
    assert_eq!(outcomes.len(), 2);
    let slow = outcomes.iter().find(|o| o.conn_id == slow_id).unwrap();
    let fast = outcomes.iter().find(|o| o.conn_id != slow_id).unwrap();
    assert!(!slow.delivered);
    assert!(fast.delivered);
    assert_eq!(rx_fast.try_recv().unwrap(), "after-full");
}

#[test]
fn remove_connection_is_exact_and_idempotent() {
    let mut reg = ConnectionRegistry::new();
    let (id1, _rx1) = reg.register(1, 100);
    let (_id2, mut rx2) = reg.register(1, 100);

    reg.remove_connection(1, id1);
    reg.remove_connection(1, id1); // absent id: a no-op
    reg.remove_connection(5, 99); // absent uid: a no-op

    let outcomes = reg.broadcast_to_uids(&vec![1], "still-here");
    assert_eq!(outcomes.len(), 1);
    assert_eq!(rx2.try_recv().unwrap(), "still-here");
}

#[test]
fn removing_last_connection_drops_the_user() {
    let mut reg = ConnectionRegistry::new();
    let (id1, _rx1) = reg.register(4, 100);
    assert_eq!(reg.users.len(), 1);
    reg.remove_connection(4, id1);
    assert!(reg.users.is_empty());
}

#[test]
fn sweep_evicts_only_connections_past_the_timeout() {
    let max_age = ping_timeout_secs();
    let mut reg = ConnectionRegistry::new();
    // last pinged 301 seconds before the sweep: stale
    let (stale_id, _rx_stale) = reg.register(1, 1000);
    // last pinged 299 seconds before the sweep: survives
    let (fresh_id, mut rx_fresh) = reg.register(1, 1002);

    reg.prune_stale(1301, max_age);

    let outcomes = reg.broadcast_to_uids(&vec![1], "survivors");
    assert_eq!(outcomes.len(), 1);
    assert_eq!(outcomes[0].conn_id, fresh_id);
    assert_ne!(outcomes[0].conn_id, stale_id);
    assert_eq!(rx_fresh.try_recv().unwrap(), "survivors");
}

#[test]
fn sweep_at_exact_timeout_keeps_the_connection() {
    let mut reg = ConnectionRegistry::new();
    let (_id, mut rx) = reg.register(1, 1000);
    // exactly 300 seconds old: not yet "more than" the timeout
    reg.prune_stale(1300, 300);
    let outcomes = reg.broadcast_to_uids(&vec![1], "kept");
    assert_eq!(outcomes.len(), 1);
    assert_eq!(rx.try_recv().unwrap(), "kept");
}

#[test]
fn sweep_drops_emptied_users_entirely() {
    let mut reg = ConnectionRegistry::new();
    let (_a, _rx_a) = reg.register(1, 0);
    let (_b, _rx_b) = reg.register(2, 1000);
    reg.prune_stale(1100, 300);
    assert_eq!(reg.users.len(), 1);
    assert_eq!(reg.users[0].uid, 2);
}

#[test]
fn ping_refreshes_the_staleness_clock() {
    let mut reg = ConnectionRegistry::new();
    let (id, mut rx) = reg.register(1, 1000);
    assert!(reg.record_ping(1, id, 1500));
    // without the ping this sweep would evict the connection
    reg.prune_stale(1600, 300);
    let outcomes = reg.broadcast_to_uids(&vec![1], "alive");
    assert_eq!(outcomes.len(), 1);
    assert_eq!(rx.try_recv().unwrap(), "alive");

    // pinging an unknown connection reports not-found and changes nothing
    assert!(!reg.record_ping(1, 999, 1601));
    assert!(!reg.record_ping(42, id, 1601));
}

#[test]
fn default_is_empty() {
    let reg = ConnectionRegistry::default();
    assert!(reg.users.is_empty());
    assert_eq!(reg.next_conn_id, 0);
}

#[test]
fn invariant_check_holds_through_operations() {
    let mut reg = ConnectionRegistry::new();
    assert!(reg.wf_check());
    let (id, _rx) = reg.register(1, 100);
    let (_id2, _rx2) = reg.register(2, 100);
    assert!(reg.wf_check());
    reg.record_ping(1, id, 200);
    reg.prune_stale(250, 300);
    reg.remove_connection(1, id);
    assert!(reg.wf_check());
}
