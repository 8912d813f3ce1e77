use hft_engine::binary::{format_binary_message, parse_binary_message, BinaryError, BinaryMessage};

#[test]
fn test_binary_message_serialization_deserialization() {
    let original_message = BinaryMessage::new(1, vec![1, 2, 3, 4, 5]);
    let serialized_message = original_message.serialize().unwrap();
    let deserialized_message = BinaryMessage::deserialize(&serialized_message).unwrap();

    assert_eq!(original_message.message_type, deserialized_message.message_type);
    assert_eq!(original_message.data, deserialized_message.data);
}

#[test]
fn binary_frame_layout_is_type_length_payload() {
    let framed = format_binary_message(7, &[0xAA, 0xBB, 0xCC]).unwrap();
    assert_eq!(framed, vec![7, 3, 0, 0, 0, 0xAA, 0xBB, 0xCC]);
}

#[test]
fn binary_round_trip_with_empty_payload() {
    let framed = format_binary_message(9, &[]).unwrap();
    assert_eq!(framed, vec![9, 0, 0, 0, 0]);
    let message = parse_binary_message(&framed).unwrap();
    assert_eq!(message.message_type, 9);
    assert!(message.data.is_empty());
}

#[test]
fn binary_round_trip_with_long_payload() {
    let payload: Vec<u8> = (0..300u32).map(|i| (i % 251) as u8).collect();
    let framed = format_binary_message(2, &payload).unwrap();
    assert_eq!(&framed[1..5], &[44, 1, 0, 0]);
    let message = parse_binary_message(&framed).unwrap();
    assert_eq!(message.message_type, 2);
    assert_eq!(message.data, payload);
}

#[test]
fn binary_short_header_is_truncated() {
    assert_eq!(BinaryMessage::deserialize(&[1, 2, 0]).unwrap_err(), BinaryError::Truncated);
}

#[test]
fn binary_short_payload_is_truncated() {
    assert_eq!(BinaryMessage::deserialize(&[1, 4, 0, 0, 0, 1, 2]).unwrap_err(), BinaryError::Truncated);
}

#[test]
fn binary_trailing_bytes_are_not_read() {
    let message = BinaryMessage::deserialize(&[3, 2, 0, 0, 0, 8, 9, 10, 11]).unwrap();
    assert_eq!(message.message_type, 3);
    assert_eq!(message.data, vec![8, 9]);
}
