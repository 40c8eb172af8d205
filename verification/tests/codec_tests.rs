use netmux::codec::{decode, encode, CodecError, Event};
use netmux::types::port_needs_privilege;

#[test]
fn encode_control_events_exactly() {
    assert_eq!(encode(&Event::Connect), vec![0u8]);
    assert_eq!(encode(&Event::Connected), vec![1u8]);
    assert_eq!(encode(&Event::Disconnect), vec![2u8]);
    assert_eq!(encode(&Event::Disconnected), vec![3u8]);
}

#[test]
fn encode_message_is_tag_then_bytes() {
    assert_eq!(encode(&Event::Message(vec![10, 20, 30])), vec![4u8, 10, 20, 30]);
    assert_eq!(encode(&Event::Message(Vec::new())), vec![4u8]);
}

#[test]
fn round_trip_every_variant() {
    let events = vec![
        Event::Connect,
        Event::Connected,
        Event::Disconnect,
        Event::Disconnected,
        Event::Message(Vec::new()),
        Event::Message(vec![0, 1, 2, 3, 4, 255]),
    ];
    for e in events {
        assert_eq!(decode(&encode(&e)), Ok(e));
    }
}

#[test]
fn empty_payload_is_rejected() {
    assert_eq!(decode(&Vec::new()), Err(CodecError::EmptyPayload));
}

#[test]
fn unknown_tag_is_rejected() {
    assert_eq!(decode(&vec![5u8]), Err(CodecError::UnknownTag));
    assert_eq!(decode(&vec![255u8, 0, 0]), Err(CodecError::UnknownTag));
}

#[test]
fn trailing_bytes_after_control_tag_are_rejected() {
    assert_eq!(decode(&vec![1u8, 9]), Err(CodecError::TrailingData));
    assert_eq!(decode(&vec![0u8, 0]), Err(CodecError::TrailingData));
}

#[test]
fn privileged_port_warning_threshold() {
    assert!(port_needs_privilege(0));
    assert!(port_needs_privilege(1023));
    assert!(!port_needs_privilege(1024));
    assert!(!port_needs_privilege(40000));
}
