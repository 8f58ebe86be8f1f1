//! Client addressing: the transport endpoint a datagram came from, and the
//! composite key under which its forwarding session is registered.

use vstd::prelude::*;
use crate::classifier::ProtocolTag;

verus! {

/// Transport address of a client, compared by value.
///
/// The address is held as plain numbers: the IP as a 128-bit value (an IPv4
/// address is carried in the low 32 bits) and the port. The embedding program
/// converts its socket addresses to and from this form.
#[derive(PartialEq, Eq, Structural, Clone, Copy, Debug, Hash)]
pub struct ClientEndpoint {
    pub ip: u128,
    pub port: u16,
}

/// The key a forwarding session is registered under: the client endpoint
/// together with the classified protocol.
///
/// The protocol is part of the key on purpose: a client legitimately sending
/// both protocols must get two independent sessions, not share one backend
/// socket across protocols.
#[derive(PartialEq, Eq, Structural, Clone, Copy, Debug, Hash)]
pub struct SessionKey {
    pub client: ClientEndpoint,
    pub tag: ProtocolTag,
}

} // verus!
