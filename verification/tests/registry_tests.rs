use wg_quic_differentiator::classifier::ProtocolTag;
use wg_quic_differentiator::endpoint::{ClientEndpoint, SessionKey};
use wg_quic_differentiator::registry::ConnectionRegistry;

fn key(ip: u128, port: u16, tag: ProtocolTag) -> SessionKey {
    SessionKey { client: ClientEndpoint { ip, port }, tag }
}

#[test]
fn new_registry_is_empty() {
    let r = ConnectionRegistry::new();
    assert_eq!(r.len(), 0);
    assert!(!r.contains(key(1, 1, ProtocolTag::ProtocolA)));
}

#[test]
fn create_then_lookup() {
    let mut r = ConnectionRegistry::new();
    let k = key(10, 7000, ProtocolTag::ProtocolA);
    let (socket_id, created) = r.lookup_or_create(k, 100, 1);
    assert!(created);
    assert_eq!(socket_id, 1);
    assert!(r.contains(k));
    let rec = r.lookup(k).unwrap();
    assert_eq!(rec.socket_id, 1);
    assert_eq!(rec.last_activity, 100);
}

#[test]
fn n_simultaneous_datagrams_create_one_session() {
    // A burst of datagrams for one key, served atomically in arrival order:
    // the socket-construction counter must end at exactly one.
    let mut r = ConnectionRegistry::new();
    let k = key(42, 4242, ProtocolTag::ProtocolA);
    let mut constructions: u32 = 0;
    let mut socket_ids: Vec<u64> = Vec::new();
    for n in 0..8u64 {
        let (socket_id, created) = r.lookup_or_create(k, 100 + n, 500 + n);
        if created {
            constructions += 1;
        }
        socket_ids.push(socket_id);
    }
    assert_eq!(constructions, 1);
    assert!(socket_ids.iter().all(|&id| id == 500));
    assert_eq!(r.len(), 1);
}

#[test]
fn touch_stamps_activity() {
    let mut r = ConnectionRegistry::new();
    let k = key(8, 8080, ProtocolTag::ProtocolB);
    r.lookup_or_create(k, 5, 3);
    assert!(r.touch(k, 17));
    let rec = r.lookup(k).unwrap();
    assert_eq!(rec.socket_id, 3);
    assert_eq!(rec.last_activity, 17);
    assert!(!r.touch(key(9, 8080, ProtocolTag::ProtocolB), 17));
}

#[test]
fn remove_checks_identity() {
    let mut r = ConnectionRegistry::new();
    let k = key(3, 3333, ProtocolTag::ProtocolA);
    r.lookup_or_create(k, 0, 11);
    // A stale session (wrong identity) must not remove its successor.
    assert!(!r.remove(k, 999));
    assert!(r.contains(k));
    assert!(r.remove(k, 11));
    assert!(!r.contains(k));
    // Removal is idempotent: a second attempt is a no-op.
    assert!(!r.remove(k, 11));
}

#[test]
fn stale_session_cannot_remove_recreated_one() {
    let mut r = ConnectionRegistry::new();
    let k = key(6, 6000, ProtocolTag::ProtocolA);
    r.lookup_or_create(k, 0, 1);
    assert!(r.remove(k, 1));
    r.lookup_or_create(k, 50, 2);
    // The old session's deregistration races in late: it must not evict the
    // fresh session.
    assert!(!r.remove(k, 1));
    assert_eq!(r.lookup(k).unwrap().socket_id, 2);
}

#[test]
fn reap_drops_only_idle_sessions() {
    let mut r = ConnectionRegistry::new();
    let idle = key(1, 1000, ProtocolTag::ProtocolA);
    let fresh = key(2, 2000, ProtocolTag::ProtocolA);
    r.lookup_or_create(idle, 0, 1);
    r.lookup_or_create(fresh, 25, 2);
    // At time 31 the first session has idled 31 > 30 ticks, the second 6.
    let removed = r.reap_idle(31, 30);
    assert_eq!(removed.len(), 1);
    assert_eq!(removed[0].0, idle);
    assert_eq!(removed[0].1.socket_id, 1);
    assert!(!r.contains(idle));
    assert!(r.contains(fresh));
    assert_eq!(r.lookup(fresh).unwrap().socket_id, 2);
}

#[test]
fn reap_at_exact_timeout_keeps_session() {
    // Idleness is strict: exactly `timeout` ticks of silence is not yet idle.
    let mut r = ConnectionRegistry::new();
    let k = key(4, 4000, ProtocolTag::ProtocolB);
    r.lookup_or_create(k, 0, 1);
    let removed = r.reap_idle(30, 30);
    assert!(removed.is_empty());
    assert!(r.contains(k));
}

#[test]
fn two_clients_get_independent_sessions() {
    let mut r = ConnectionRegistry::new();
    let ka = key(0x01020304, 5000, ProtocolTag::ProtocolA);
    let kb = key(0x05060708, 5000, ProtocolTag::ProtocolA);
    let (ida, ca) = r.lookup_or_create(ka, 0, 1);
    let (idb, cb) = r.lookup_or_create(kb, 1, 2);
    assert!(ca && cb);
    assert_ne!(ida, idb);
    assert_eq!(r.len(), 2);
    // Traffic on one key leaves the other record untouched.
    r.touch(ka, 99);
    let rb = r.lookup(kb).unwrap();
    assert_eq!(rb.socket_id, 2);
    assert_eq!(rb.last_activity, 1);
}
