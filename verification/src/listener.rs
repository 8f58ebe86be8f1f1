//! The listener's per-datagram decision.
//!
//! The embedding program owns the client-facing socket and loops: receive
//! one datagram, call `handle_datagram` under the registry lock, then act on
//! the returned `Dispatch` — construct and connect a backend socket only
//! when `created` says so, and hand the bytes to the session's relay task.
//! A receive error is logged and skipped by the caller; nothing here can
//! fail, so one malformed datagram never ends the listening loop.

use vstd::prelude::*;
use crate::classifier::{classify, spec_classify, ProtocolTag};
use crate::endpoint::{ClientEndpoint, SessionKey};
use crate::registry::{spec_resolve, ConnectionRegistry, SessionRecord};

verus! {

/// What the listener must do with one received datagram: which protocol it
/// carries, which session key it resolves to, which backend socket serves
/// it, and whether that socket still has to be constructed.
#[derive(PartialEq, Eq, Structural, Clone, Copy, Debug)]
pub struct Dispatch {
    pub tag: ProtocolTag,
    pub key: SessionKey,
    pub socket_id: u64,
    pub created: bool,
}

/// The session key a datagram from `client` resolves to: the endpoint
/// together with the classified protocol, so the two protocols of one
/// client never share a backend socket.
pub open spec fn spec_session_key(client: ClientEndpoint, data: Seq<u8>) -> SessionKey {
    SessionKey { client, tag: spec_classify(data) }
}

/// Classifies one datagram and atomically resolves its session: the
/// composite key is looked up in the registry, an existing session merely
/// has its activity stamped, and an absent one is registered under the
/// offered fresh socket identity. The caller constructs a backend socket
/// exactly when `created` is true.
pub fn handle_datagram(
    registry: &mut ConnectionRegistry,
    client: ClientEndpoint,
    data: &[u8],
    now: u64,
    fresh_socket_id: u64,
) -> (d: Dispatch)
    requires
        old(registry).wf(),
    ensures
        final(registry).wf(),
        d.tag == spec_classify(data@),
        d.key == spec_session_key(client, data@),
        d.created == !old(registry)@.contains_key(d.key),
        !d.created ==> d.socket_id == old(registry)@[d.key].socket_id,
        d.created ==> d.socket_id == fresh_socket_id,
        final(registry)@ == spec_resolve(old(registry)@, d.key, now, fresh_socket_id).0,
        final(registry)@ == old(registry)@.insert(
            d.key,
            (SessionRecord { socket_id: d.socket_id, last_activity: now }),
        ),
{
    let tag = classify(data);
    let key = SessionKey { client, tag };
    let (socket_id, created) = registry.lookup_or_create(key, now, fresh_socket_id);
    Dispatch { tag, key, socket_id, created }
}

} // verus!
