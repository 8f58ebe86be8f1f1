//! Heuristic protocol classification of a datagram by its first header bytes.
//!
//! The rule is deliberately a heuristic, not a conformance parser: a datagram
//! whose first byte lies in `1..=4` and whose next three bytes are zero is
//! tagged `ProtocolA`; everything else — including buffers shorter than four
//! bytes — falls back to `ProtocolB`. No input is ever rejected.

use vstd::prelude::*;

verus! {

/// The protocol a datagram is heuristically assigned to.
///
/// `ProtocolA` is the "VPN-like" handshake traffic; `ProtocolB` is the
/// fallback, covering both confidently-other traffic and anything too short
/// or ambiguous to tell.
#[derive(PartialEq, Eq, Structural, Clone, Copy, Debug, Hash)]
pub enum ProtocolTag {
    ProtocolA,
    ProtocolB,
}

/// The header shape that selects `ProtocolA`: at least four bytes, the first
/// in the inclusive range `[1, 4]`, the next three zero.
pub open spec fn is_protocol_a_header(data: Seq<u8>) -> bool {
    &&& data.len() >= 4
    &&& 1 <= data[0] <= 4
    &&& data[1] == 0
    &&& data[2] == 0
    &&& data[3] == 0
}

/// The tag assigned to a byte buffer: a function of the bytes alone.
pub open spec fn spec_classify(data: Seq<u8>) -> ProtocolTag {
    if is_protocol_a_header(data) {
        ProtocolTag::ProtocolA
    } else {
        ProtocolTag::ProtocolB
    }
}

/// Classifies one datagram. Every input, including an empty buffer, yields a
/// tag; no error path exists.
pub fn classify(data: &[u8]) -> (tag: ProtocolTag)
    ensures
        tag == spec_classify(data@),
{
    if data.len() >= 4 && data[0] >= 1 && data[0] <= 4 && data[1] == 0 && data[2] == 0
        && data[3] == 0 {
        ProtocolTag::ProtocolA
    } else {
        ProtocolTag::ProtocolB
    }
}

/// Classification is deterministic: equal byte sequences always yield equal
/// tags, and nothing besides the bytes (no source address, no time) enters
/// the decision.
pub proof fn lemma_classify_deterministic(a: Seq<u8>, b: Seq<u8>)
    requires
        a =~= b,
    ensures
        spec_classify(a) == spec_classify(b),
{
}

/// Any buffer shorter than four bytes resolves to the fallback tag.
pub proof fn lemma_short_input_is_fallback(data: Seq<u8>)
    requires
        data.len() < 4,
    ensures
        spec_classify(data) == ProtocolTag::ProtocolB,
{
}

/// A buffer starting with a byte in `[1, 4]` followed by three zero bytes is
/// tagged `ProtocolA`, whatever its trailing bytes and total length.
pub proof fn lemma_prefix_selects_protocol_a(data: Seq<u8>)
    requires
        data.len() >= 4,
        1 <= data[0] <= 4,
        data[1] == 0,
        data[2] == 0,
        data[3] == 0,
    ensures
        spec_classify(data) == ProtocolTag::ProtocolA,
{
}

/// Only the first four bytes decide the tag: two buffers of length at least
/// four with the same four-byte prefix classify alike, so the length beyond
/// the prefix never influences the result.
pub proof fn lemma_tail_never_influences_tag(a: Seq<u8>, b: Seq<u8>)
    requires
        a.len() >= 4,
        b.len() >= 4,
        a.subrange(0, 4) =~= b.subrange(0, 4),
    ensures
        spec_classify(a) == spec_classify(b),
{
    assert forall|i: int| 0 <= i < 4 implies a[i] == b[i] by {
        assert(a.subrange(0, 4)[i] == a[i]);
        assert(b.subrange(0, 4)[i] == b[i]);
    }
}

} // verus!
