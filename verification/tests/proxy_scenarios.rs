//! End-to-end scenarios driving the listener decision, the registry and the
//! session state machine together, with a simulated clock and a counter
//! handing out backend socket identities — exactly what the embedding
//! program does around the real sockets.

use wg_quic_differentiator::classifier::ProtocolTag;
use wg_quic_differentiator::config::{ProxyConfig, DEFAULT_IDLE_TIMEOUT, MAX_DATAGRAM_SIZE};
use wg_quic_differentiator::endpoint::ClientEndpoint;
use wg_quic_differentiator::listener::handle_datagram;
use wg_quic_differentiator::registry::ConnectionRegistry;
use wg_quic_differentiator::session::{
    ForwardingSession, SessionAction, SessionEvent,
};

fn client_1_2_3_4_5000() -> ClientEndpoint {
    ClientEndpoint { ip: 0x01020304, port: 5000 }
}

#[test]
fn default_config_matches_stock_values() {
    let c = ProxyConfig::default();
    assert_eq!(c.idle_timeout, DEFAULT_IDLE_TIMEOUT);
    assert_eq!(c.idle_timeout, 30);
    assert_eq!(c.recv_buffer_size, MAX_DATAGRAM_SIZE);
    assert_eq!(c.recv_buffer_size, 65536);
}

#[test]
fn protocol_a_datagram_round_trip() {
    let config = ProxyConfig::default();
    let mut registry = ConnectionRegistry::new();
    let client = client_1_2_3_4_5000();

    let mut datagram = vec![1u8, 0, 0, 0];
    for i in 0..124u8 {
        datagram.push(i.wrapping_mul(13).wrapping_add(5));
    }

    // The listener receives the datagram at tick 10; identity 1 is on offer.
    let d = handle_datagram(&mut registry, client, &datagram, 10, 1);
    assert_eq!(d.tag, ProtocolTag::ProtocolA);
    assert!(d.created);
    assert_eq!(d.socket_id, 1);

    // The embedding program constructs the backend socket and the session,
    // and hands the triggering datagram over for forwarding.
    let mut session = ForwardingSession::new(d.key, d.socket_id, config.idle_timeout, 10);
    match session.step(SessionEvent::Outbound { now: 10, data: datagram.clone() }) {
        SessionAction::ForwardToBackend { data } => assert_eq!(data, datagram),
        _ => panic!("the triggering datagram must go to the backend"),
    }

    // A backend reply is relayed back to 1.2.3.4:5000 unmodified.
    let reply: Vec<u8> = (0u8..200).collect();
    match session.step(SessionEvent::BackendReply { now: 11, data: reply.clone() }) {
        SessionAction::RelayToClient { dest, data } => {
            assert_eq!(dest, client);
            assert_eq!(data, reply);
        },
        _ => panic!("the reply must go back to the client"),
    }
    registry.touch(d.key, 11);
    assert_eq!(registry.lookup(d.key).unwrap().last_activity, 11);
}

#[test]
fn second_protocol_from_same_client_gets_second_session() {
    let mut registry = ConnectionRegistry::new();
    let client = client_1_2_3_4_5000();

    let first = handle_datagram(&mut registry, client, &[1, 0, 0, 0], 10, 1);
    assert_eq!(first.tag, ProtocolTag::ProtocolA);
    assert!(first.created);

    // The same client immediately sends an unrecognized header.
    let second = handle_datagram(&mut registry, client, &[0x99, 0, 0, 0], 11, 2);
    assert_eq!(second.tag, ProtocolTag::ProtocolB);
    assert_ne!(second.key, first.key);
    assert!(second.created);
    assert_eq!(second.socket_id, 2);

    // The ProtocolA session is untouched: still registered, same socket.
    assert_eq!(registry.len(), 2);
    let a_record = registry.lookup(first.key).unwrap();
    assert_eq!(a_record.socket_id, 1);
}

#[test]
fn datagram_after_idle_reap_creates_fresh_session() {
    let config = ProxyConfig::default();
    let mut registry = ConnectionRegistry::new();
    let client = client_1_2_3_4_5000();

    let first = handle_datagram(&mut registry, client, &[2, 0, 0, 0], 0, 1);
    assert!(first.created);

    // The session idles past the timeout; the sweep reclaims it.
    let removed = registry.reap_idle(config.idle_timeout + 1, config.idle_timeout);
    assert_eq!(removed.len(), 1);
    assert_eq!(removed[0].0, first.key);
    assert!(!registry.contains(first.key));

    // The next datagram from the same client creates a brand-new session
    // with a new backend socket identity, not the stale one.
    let second = handle_datagram(&mut registry, client, &[2, 0, 0, 0], config.idle_timeout + 2, 2);
    assert!(second.created);
    assert_eq!(second.key, first.key);
    assert_eq!(second.socket_id, 2);
    assert_ne!(second.socket_id, first.socket_id);
}

#[test]
fn self_termination_deregisters_own_session_only() {
    let config = ProxyConfig::default();
    let mut registry = ConnectionRegistry::new();
    let client = client_1_2_3_4_5000();

    let d = handle_datagram(&mut registry, client, &[1, 0, 0, 0], 0, 1);
    let mut session = ForwardingSession::new(d.key, d.socket_id, config.idle_timeout, 0);

    // Meanwhile the client's session is reaped and recreated under a new
    // identity; the old task's late self-cleanup must not evict it.
    registry.reap_idle(31, config.idle_timeout);
    let recreated = handle_datagram(&mut registry, client, &[1, 0, 0, 0], 32, 2);
    assert!(recreated.created);

    let action = session.step(SessionEvent::IdleTick { now: 40 });
    assert!(matches!(action, SessionAction::Shutdown));
    assert!(!registry.remove(session.key, session.socket_id));
    assert_eq!(registry.lookup(d.key).unwrap().socket_id, 2);
}
