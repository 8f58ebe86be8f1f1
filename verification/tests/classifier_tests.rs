use wg_quic_differentiator::classifier::{classify, ProtocolTag};

#[test]
fn empty_buffer_is_fallback() {
    assert_eq!(classify(&[]), ProtocolTag::ProtocolB);
}

#[test]
fn short_buffers_are_fallback() {
    assert_eq!(classify(&[1]), ProtocolTag::ProtocolB);
    assert_eq!(classify(&[1, 0]), ProtocolTag::ProtocolB);
    assert_eq!(classify(&[1, 0, 0]), ProtocolTag::ProtocolB);
    assert_eq!(classify(&[4, 0, 0]), ProtocolTag::ProtocolB);
}

#[test]
fn protocol_a_header_with_trailing_bytes() {
    let mut data = vec![1u8, 0, 0, 0];
    for i in 0..124u8 {
        data.push(i.wrapping_mul(37).wrapping_add(11));
    }
    assert_eq!(classify(&data), ProtocolTag::ProtocolA);
}

#[test]
fn whole_first_byte_range_selects_protocol_a() {
    assert_eq!(classify(&[1, 0, 0, 0]), ProtocolTag::ProtocolA);
    assert_eq!(classify(&[2, 0, 0, 0]), ProtocolTag::ProtocolA);
    assert_eq!(classify(&[3, 0, 0, 0]), ProtocolTag::ProtocolA);
    assert_eq!(classify(&[4, 0, 0, 0]), ProtocolTag::ProtocolA);
}

#[test]
fn first_byte_out_of_range_is_fallback() {
    assert_eq!(classify(&[0x10, 0, 0, 0]), ProtocolTag::ProtocolB);
    assert_eq!(classify(&[0, 0, 0, 0]), ProtocolTag::ProtocolB);
    assert_eq!(classify(&[5, 0, 0, 0]), ProtocolTag::ProtocolB);
    assert_eq!(classify(&[0xff, 0, 0, 0]), ProtocolTag::ProtocolB);
}

#[test]
fn nonzero_reserved_bytes_are_fallback() {
    assert_eq!(classify(&[1, 1, 0, 0]), ProtocolTag::ProtocolB);
    assert_eq!(classify(&[1, 0, 1, 0]), ProtocolTag::ProtocolB);
    assert_eq!(classify(&[1, 0, 0, 1]), ProtocolTag::ProtocolB);
}

#[test]
fn classification_is_deterministic() {
    let data = vec![3u8, 0, 0, 0, 9, 9, 9];
    let first = classify(&data);
    for _ in 0..10 {
        assert_eq!(classify(&data), first);
    }
}
