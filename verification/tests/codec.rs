use meshcore::error::{CodecError, CursorError, MessageTypeError, SendMessageError};
use meshcore::message::{
    decode_option_node, encode_option_node, MessageContent, MessageData, MessageType,
    ReceiveMessage, SendMessage,
};
use meshcore::node::Node;
use meshcore::wire::Cursor;

#[test]
fn test_message_type_encode_decode() {
    let msg_type = MessageType::Application;
    let mut out = MessageData::new();
    msg_type.encode(&mut out).unwrap();

    let mut cursor = Cursor::new(&out);
    let decoded = MessageType::decode(&mut cursor).unwrap();
    assert_eq!(decoded, MessageType::Application);
}

#[test]
fn test_send_message_to_receive_message() {
    let data: MessageData = vec![0x10, 0x20, 0x30];
    let final_destination = Node::new([10, 20, 30, 40, 50, 60]);
    let destination = Node::new([10, 20, 30, 40, 50, 60]);
    let source = Node::new([10, 20, 30, 40, 50, 60]);
    let send_msg = SendMessage::new(
        final_destination,
        MessageContent::Application(data.clone()),
        None,
    );

    let serialized = send_msg.serialize().unwrap();

    let receive_msg = ReceiveMessage::new(serialized, destination, source, 0).unwrap();

    assert_eq!(receive_msg.data, MessageContent::Application(data));
    assert_eq!(receive_msg.final_destination, final_destination);
    assert_eq!(receive_msg.data.message_type(), MessageType::Application);
}

#[test]
fn test_receive_message_into_send_message() {
    let data: MessageData = vec![0x10, 0x20, 0x30];
    let final_destination = Node::new([10, 20, 30, 40, 50, 60]);
    let destination = Node::new([10, 20, 30, 40, 50, 60]);
    let source = Node::new([10, 20, 30, 40, 50, 60]);
    let tmpl_msg = SendMessage::new(
        final_destination,
        MessageContent::Application(data.clone()),
        None,
    );

    let serialized = tmpl_msg.serialize().unwrap();
    let receive_msg = ReceiveMessage::new(serialized, destination, source, 0).unwrap();
    let send_msg: SendMessage = receive_msg.into();

    assert_eq!(send_msg.data, MessageContent::Application(data));
    assert_eq!(send_msg.final_destination, final_destination);
    assert_eq!(send_msg.data.message_type(), MessageType::Application);
}

#[test]
fn option_node_encodes_one_byte_when_none() {
    let mut out = MessageData::new();
    encode_option_node(&None, &mut out).unwrap();
    assert_eq!(out, vec![0x00]);
}

#[test]
fn option_node_encodes_seven_bytes_when_some() {
    let mut out = MessageData::new();
    let n = Node::new([1, 2, 3, 4, 5, 6]);
    encode_option_node(&Some(n), &mut out).unwrap();
    assert_eq!(out, vec![0x01, 1, 2, 3, 4, 5, 6]);
}

#[test]
fn option_node_round_trip() {
    for o in [None, Some(Node::new([9, 8, 7, 6, 5, 4]))] {
        let mut out = MessageData::new();
        encode_option_node(&o, &mut out).unwrap();
        let mut cursor = Cursor::new(&out);
        let decoded = decode_option_node(&mut cursor).unwrap();
        assert_eq!(decoded, o);
        assert!(cursor.remaining().is_empty());
    }
}

#[test]
fn option_node_invalid_flag() {
    let bytes = [0x02u8, 1, 2, 3, 4, 5, 6];
    let mut cursor = Cursor::new(&bytes);
    let err = decode_option_node(&mut cursor).unwrap_err();
    assert_eq!(err, CodecError::InvalidOptionFlagError(0x02));
}

#[test]
fn invalid_tags_rejected() {
    for tag in [0x00u8, 0x09, 0x42, 0xff] {
        let bytes = [tag, 0, 0, 0, 0, 0, 0, 0, 0, 0, 0, 0, 0, 0];
        let mut cursor = Cursor::new(&bytes);
        let err = MessageContent::decode(&mut cursor).unwrap_err();
        assert_eq!(
            err,
            CodecError::MessageTypeError(MessageTypeError::InvalidMessageType(tag)),
            "tag {tag:#x} must be rejected"
        );
    }
}

#[test]
fn all_content_variants_round_trip() {
    let n1 = Node::new([1, 2, 3, 4, 5, 6]);
    let n2 = Node::new([6, 5, 4, 3, 2, 1]);
    let contents = vec![
        MessageContent::Application(vec![42, 43, 44]),
        MessageContent::Application(vec![]),
        MessageContent::Discovery,
        MessageContent::Invitation,
        MessageContent::RequestNews,
        MessageContent::SendNew(n1, -77),
        MessageContent::SendNew(n2, i32::MIN),
        MessageContent::SendNew(n2, i32::MAX),
        MessageContent::FinSendNew,
        MessageContent::UpsertEdge(None, None),
        MessageContent::UpsertEdge(Some(n1), None),
        MessageContent::UpsertEdge(None, Some(n2)),
        MessageContent::UpsertEdge(Some(n1), Some(n2)),
        MessageContent::RequestInitTopology(n1),
    ];
    for c in contents {
        let mut out = MessageData::new();
        c.encode(&mut out).unwrap();
        let mut cursor = Cursor::new(&out);
        let decoded = MessageContent::decode(&mut cursor).unwrap();
        assert_eq!(decoded, c);
        assert!(cursor.remaining().is_empty());
    }
}

#[test]
fn application_wire_layout() {
    let c = MessageContent::Application(vec![0xaa, 0xbb]);
    let mut out = MessageData::new();
    c.encode(&mut out).unwrap();
    assert_eq!(out, vec![0x01, 2, 0xaa, 0xbb]);
}

#[test]
fn send_new_wire_layout_is_little_endian() {
    let c = MessageContent::SendNew(Node::new([1, 2, 3, 4, 5, 6]), -2);
    let mut out = MessageData::new();
    c.encode(&mut out).unwrap();
    assert_eq!(out, vec![0x05, 1, 2, 3, 4, 5, 6, 0xfe, 0xff, 0xff, 0xff]);
}

#[test]
fn envelope_layout_and_source_substitution() {
    let dst = Node::new([1, 1, 1, 1, 1, 1]);
    let src = Node::new([2, 2, 2, 2, 2, 2]);
    let msg = SendMessage::new(dst, MessageContent::Discovery, None);
    let bytes = msg.serialize().unwrap();
    assert_eq!(bytes, vec![0x02, 1, 1, 1, 1, 1, 1, 0x00]);

    let rm = ReceiveMessage::new(bytes, dst, src, -5).unwrap();
    assert_eq!(rm.final_source, src, "absent source must become link source");
    assert_eq!(rm.final_destination, dst);
    assert_eq!(rm.rssi, -5);
    assert!(rm.is_final_destination());
    assert!(rm.is_organization());
}

#[test]
fn envelope_explicit_source_kept() {
    let dst = Node::new([1, 1, 1, 1, 1, 1]);
    let orig = Node::new([3, 3, 3, 3, 3, 3]);
    let hop = Node::new([2, 2, 2, 2, 2, 2]);
    let msg = SendMessage::new(dst, MessageContent::RequestNews, Some(orig));
    let bytes = msg.serialize().unwrap();
    let rm = ReceiveMessage::new(bytes, dst, hop, 0).unwrap();
    assert_eq!(rm.final_source, orig, "explicit source must survive the hop");
}

#[test]
fn forwarding_preserves_content_and_destination() {
    let dst = Node::new([1, 1, 1, 1, 1, 1]);
    let me = Node::new([9, 9, 9, 9, 9, 9]);
    let origin = Node::new([3, 3, 3, 3, 3, 3]);
    let first = SendMessage::new(dst, MessageContent::Application(vec![7]), None);
    let rm = ReceiveMessage::new(first.serialize().unwrap(), me, origin, 0).unwrap();
    assert!(!rm.is_final_destination());
    let fwd: SendMessage = rm.into();
    assert_eq!(fwd.final_destination, dst);
    assert_eq!(fwd.final_source, Some(origin));
    assert_eq!(fwd.data, MessageContent::Application(vec![7]));
}

#[test]
fn payload_too_large_rejected() {
    let dst = Node::new([1, 1, 1, 1, 1, 1]);
    let msg = SendMessage::new(dst, MessageContent::Application(vec![0; 254]), None);
    let err = msg.serialize().unwrap_err();
    assert_eq!(err, SendMessageError::MessageTooLargeError);
}

#[test]
fn largest_payload_that_fits() {
    let dst = Node::new([1, 1, 1, 1, 1, 1]);
    let msg = SendMessage::new(dst, MessageContent::Application(vec![9; 247]), None);
    let bytes = msg.serialize().unwrap();
    assert_eq!(bytes.len(), 256);
    let msg2 = SendMessage::new(dst, MessageContent::Application(vec![9; 248]), None);
    assert!(msg2.serialize().is_err());
}

#[test]
fn truncated_frame_rejected() {
    let err = ReceiveMessage::new(
        vec![0x02, 1, 1],
        Node::new([1, 1, 1, 1, 1, 1]),
        Node::new([2, 2, 2, 2, 2, 2]),
        0,
    )
    .unwrap_err();
    assert_eq!(
        err,
        meshcore::error::ReceiveMessageError::FinalDestinationDecodeError(
            CodecError::CursorReadError(CursorError::BufferUnderflowError)
        )
    );
}

#[test]
fn cursor_take_and_underflow() {
    let bytes = [1u8, 2, 3, 4, 5];
    let mut cursor = Cursor::new(&bytes);
    let first = cursor.take(2).unwrap();
    assert_eq!(first, &[1, 2]);
    let err = cursor.take(4).unwrap_err();
    assert_eq!(err, CursorError::BufferUnderflowError);
    assert_eq!(cursor.remaining(), &[3, 4, 5], "failed take must not advance");
    let rest = cursor.take(3).unwrap();
    assert_eq!(rest, &[3, 4, 5]);
    assert!(cursor.remaining().is_empty());
}
