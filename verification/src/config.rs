//! Proxy configuration: the idle-session timeout and the receive buffer
//! bound. Time is measured in abstract ticks chosen by the embedding program
//! (the defaults read naturally as seconds).

use vstd::prelude::*;

verus! {

/// Largest datagram the listener accepts, in bytes.
pub const MAX_DATAGRAM_SIZE: usize = 65536;

/// Default idle-session timeout, in ticks.
pub const DEFAULT_IDLE_TIMEOUT: u64 = 30;

/// Runtime configuration of one proxy instance.
#[derive(PartialEq, Eq, Structural, Clone, Copy, Debug)]
pub struct ProxyConfig {
    /// A session with no traffic for more than this many ticks is reclaimed.
    pub idle_timeout: u64,
    /// Size of the client-facing receive buffer, in bytes.
    pub recv_buffer_size: usize,
}

impl Default for ProxyConfig {
    /// The stock configuration: 30-tick idle timeout, 65536-byte buffer.
    fn default() -> (c: ProxyConfig)
        ensures
            c.idle_timeout == DEFAULT_IDLE_TIMEOUT,
            c.recv_buffer_size == MAX_DATAGRAM_SIZE,
    {
        ProxyConfig { idle_timeout: DEFAULT_IDLE_TIMEOUT, recv_buffer_size: MAX_DATAGRAM_SIZE }
    }
}

} // verus!
