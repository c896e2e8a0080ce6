//! The tagged-union message payload and its wire codec, plus the framed
//! envelope (`SendMessage` / `ReceiveMessage`) carrying final source and
//! destination.

use vstd::prelude::*;

use crate::error::{
    CodecError, CursorError, MessageTypeError, ReceiveMessageError, SendMessageError,
};
use crate::node::Node;
use crate::wire::Cursor;

verus! {

/// Maximum size in bytes of one frame on the wire.
pub const MESSAGE_SIZE: usize = 256;

/// Maximum length of an application payload: one tag byte and one length
/// byte precede it, and the length byte must hold the count.
pub const MAX_APP_DATA: usize = 253;

/// A raw byte payload.
pub type MessageData = Vec<u8>;

/// The wire tag of each `MessageContent` variant.
#[derive(Clone, Copy, Debug, PartialEq, Eq, Structural)]
pub enum MessageType {
    Application,
    Discovery,
    Invitation,
    RequestNews,
    SendNew,
    FinSendNew,
    UpsertEdge,
    RequestInitTopology,
}

/// The tag byte of a message type.
pub open spec fn spec_tag(t: MessageType) -> u8 {
    match t {
        MessageType::Application => 0x01,
        MessageType::Discovery => 0x02,
        MessageType::Invitation => 0x03,
        MessageType::RequestNews => 0x04,
        MessageType::SendNew => 0x05,
        MessageType::FinSendNew => 0x06,
        MessageType::UpsertEdge => 0x07,
        MessageType::RequestInitTopology => 0x08,
    }
}

impl MessageType {
    /// The tag byte of this message type.
    pub fn tag(&self) -> (r: u8)
        ensures
            r == spec_tag(*self),
    {
        match self {
            MessageType::Application => 0x01,
            MessageType::Discovery => 0x02,
            MessageType::Invitation => 0x03,
            MessageType::RequestNews => 0x04,
            MessageType::SendNew => 0x05,
            MessageType::FinSendNew => 0x06,
            MessageType::UpsertEdge => 0x07,
            MessageType::RequestInitTopology => 0x08,
        }
    }

    /// Appends the single tag byte; fails with `BufferOverflowError` when
    /// the buffer is already at `MESSAGE_SIZE`.
    pub fn encode(&self, out: &mut MessageData) -> (r: Result<(), CodecError>)
        ensures
            if old(out)@.len() + 1 <= MESSAGE_SIZE {
                r matches Ok(u) && final(out)@ == old(out)@.push(spec_tag(*self))
            } else {
                &&& r matches Err(e) && e == CodecError::BufferOverflowError
                &&& final(out)@ == old(out)@
            },
    {
        if out.len() >= MESSAGE_SIZE {
            return Err(CodecError::BufferOverflowError);
        }
        out.push(self.tag());
        Ok(())
    }

    /// Reads one byte and maps it to a message type; any byte outside
    /// `0x01..=0x08` is an `InvalidMessageType`.
    pub fn decode(cursor: &mut Cursor) -> (r: Result<MessageType, CodecError>)
        requires
            old(cursor).wf(),
        ensures
            final(cursor).wf(),
            final(cursor).spec_buf() == old(cursor).spec_buf(),
            ({
                let rem = old(cursor).spec_remaining();
                if rem.len() == 0 {
                    &&& r matches Err(e) && e == CodecError::CursorReadError(
                        CursorError::BufferUnderflowError,
                    )
                    &&& final(cursor).spec_pos() == old(cursor).spec_pos()
                } else if 0x01 <= rem[0] <= 0x08 {
                    &&& r matches Ok(t) && spec_tag(t) == rem[0]
                    &&& final(cursor).spec_pos() == old(cursor).spec_pos() + 1
                } else {
                    &&& r matches Err(e) && e == CodecError::MessageTypeError(
                        MessageTypeError::InvalidMessageType(rem[0]),
                    )
                    &&& final(cursor).spec_pos() == old(cursor).spec_pos() + 1
                }
            }),
    {
        let b = match cursor.take(1) {
            Ok(s) => *vstd::slice::slice_index_get(s, 0),
            Err(e) => {
                return Err(CodecError::CursorReadError(e));
            },
        };
        match b {
            0x01 => Ok(MessageType::Application),
            0x02 => Ok(MessageType::Discovery),
            0x03 => Ok(MessageType::Invitation),
            0x04 => Ok(MessageType::RequestNews),
            0x05 => Ok(MessageType::SendNew),
            0x06 => Ok(MessageType::FinSendNew),
            0x07 => Ok(MessageType::UpsertEdge),
            0x08 => Ok(MessageType::RequestInitTopology),
            _ => Err(CodecError::MessageTypeError(MessageTypeError::InvalidMessageType(b))),
        }
    }
}

/// The tagged-union payload of one mesh frame.
#[derive(Clone, Debug, PartialEq, Eq)]
pub enum MessageContent {
    /// An application payload routed to the destination's application layer.
    Application(MessageData),
    /// Broadcast by an unassigned node searching for a mesh.
    Discovery,
    /// Defined on the wire; no role sends it.
    Invitation,
    /// Leader asks a follower for the discoveries it has heard.
    RequestNews,
    /// One discovery report: the heard node and the signal strength.
    SendNew(Node, i32),
    /// Ends a follower's stream of discovery reports.
    FinSendNew,
    /// Child and parent of one tree edge; `None` refers to sender/receiver.
    UpsertEdge(Option<Node>, Option<Node>),
    /// Leader asks the parent to send the newcomer the known topology.
    RequestInitTopology(Node),
}

/// The message type of a content value.
pub open spec fn spec_content_type(c: MessageContent) -> MessageType {
    match c {
        MessageContent::Application(d) => MessageType::Application,
        MessageContent::Discovery => MessageType::Discovery,
        MessageContent::Invitation => MessageType::Invitation,
        MessageContent::RequestNews => MessageType::RequestNews,
        MessageContent::SendNew(n, r) => MessageType::SendNew,
        MessageContent::FinSendNew => MessageType::FinSendNew,
        MessageContent::UpsertEdge(a, b) => MessageType::UpsertEdge,
        MessageContent::RequestInitTopology(n) => MessageType::RequestInitTopology,
    }
}

/// Wire form of an optional node: `0x00`, or `0x01` followed by the node.
pub open spec fn opt_node_bytes(o: Option<Node>) -> Seq<u8> {
    match o {
        Option::None => seq![0x00u8],
        Option::Some(n) => seq![0x01u8] + n@,
    }
}

/// Wire form of a signal-strength value: 4 bytes, little-endian, two's
/// complement.
pub open spec fn rssi_bytes(r: i32) -> Seq<u8> {
    vstd::bytes::spec_u32_to_le_bytes(r as u32)
}

/// Wire form of a content value: the tag byte, then the body.
pub open spec fn content_bytes(c: MessageContent) -> Seq<u8> {
    match c {
        MessageContent::Application(d) => seq![0x01u8, d@.len() as u8] + d@,
        MessageContent::Discovery => seq![0x02u8],
        MessageContent::Invitation => seq![0x03u8],
        MessageContent::RequestNews => seq![0x04u8],
        MessageContent::SendNew(n, r) => seq![0x05u8] + n@ + rssi_bytes(r),
        MessageContent::FinSendNew => seq![0x06u8],
        MessageContent::UpsertEdge(a, b) => seq![0x07u8] + opt_node_bytes(a) + opt_node_bytes(b),
        MessageContent::RequestInitTopology(n) => seq![0x08u8] + n@,
    }
}

/// A content value that the encoder accepts: an application payload leaves
/// room for its tag and length byte inside one frame.
pub open spec fn content_valid(c: MessageContent) -> bool {
    c matches MessageContent::Application(d) ==> d@.len() <= MAX_APP_DATA
}

/// A content value whose length byte holds its payload count faithfully.
pub open spec fn content_wf(c: MessageContent) -> bool {
    c matches MessageContent::Application(d) ==> d@.len() <= 255
}

/// Content values equal up to the view of their payload bytes.
pub open spec fn content_matches(c1: MessageContent, c2: MessageContent) -> bool {
    match c1 {
        MessageContent::Application(d1) => c2 matches MessageContent::Application(d2) && d1@
            == d2@,
        _ => c1 == c2,
    }
}

/// Whether an optional node can be read from the head of `rem`.
pub open spec fn opt_node_parseable(rem: Seq<u8>) -> bool {
    &&& rem.len() >= 1
    &&& (rem[0] == 0x00 || (rem[0] == 0x01 && rem.len() >= 7))
}

/// Bytes consumed by an optional node at the head of `rem`.
pub open spec fn opt_node_len(rem: Seq<u8>) -> int {
    if rem[0] == 0x00 {
        1
    } else {
        7
    }
}

/// The error reading an optional node from the head of `rem`.
pub open spec fn opt_node_err(rem: Seq<u8>) -> CodecError {
    if rem.len() == 0 {
        CodecError::CursorReadError(CursorError::BufferUnderflowError)
    } else if rem[0] == 0x00 || rem[0] == 0x01 {
        CodecError::CursorReadError(CursorError::BufferUnderflowError)
    } else {
        CodecError::InvalidOptionFlagError(rem[0])
    }
}

/// Whether a content value can be read from the head of `rem`.
pub open spec fn content_parseable(rem: Seq<u8>) -> bool {
    &&& rem.len() >= 1
    &&& {
        let t = rem[0];
        if t == 0x01 {
            rem.len() >= 2 && rem.len() >= 2 + rem[1]
        } else if t == 0x02 || t == 0x03 || t == 0x04 || t == 0x06 {
            true
        } else if t == 0x05 {
            rem.len() >= 11
        } else if t == 0x07 {
            opt_node_parseable(rem.skip(1)) && opt_node_parseable(
                rem.skip(1 + opt_node_len(rem.skip(1))),
            )
        } else if t == 0x08 {
            rem.len() >= 7
        } else {
            false
        }
    }
}

/// Bytes consumed by a content value at the head of `rem`.
pub open spec fn content_len(rem: Seq<u8>) -> int
    recommends
        content_parseable(rem),
{
    let t = rem[0];
    if t == 0x01 {
        2 + rem[1]
    } else if t == 0x05 {
        11
    } else if t == 0x07 {
        1 + opt_node_len(rem.skip(1)) + opt_node_len(rem.skip(1 + opt_node_len(rem.skip(1))))
    } else if t == 0x08 {
        7
    } else {
        1
    }
}

/// The error reading a content value from the head of `rem`.
pub open spec fn content_err(rem: Seq<u8>) -> CodecError
    recommends
        !content_parseable(rem),
{
    if rem.len() == 0 {
        CodecError::CursorReadError(CursorError::BufferUnderflowError)
    } else {
        let t = rem[0];
        if t == 0x01 || t == 0x05 || t == 0x08 {
            CodecError::CursorReadError(CursorError::BufferUnderflowError)
        } else if t == 0x07 {
            let r1 = rem.skip(1);
            if !opt_node_parseable(r1) {
                opt_node_err(r1)
            } else {
                opt_node_err(r1.skip(opt_node_len(r1)))
            }
        } else {
            CodecError::MessageTypeError(MessageTypeError::InvalidMessageType(t))
        }
    }
}

/// Writes the one-byte flag and, for `Some`, the six node bytes.
pub fn encode_option_node(o: &Option<Node>, out: &mut MessageData) -> (r: Result<(), CodecError>)
    ensures
        if old(out)@.len() + opt_node_bytes(*o).len() <= MESSAGE_SIZE {
            &&& r matches Ok(u)
            &&& final(out)@ == old(out)@ + opt_node_bytes(*o)
        } else {
            &&& r matches Err(e) && e == CodecError::BufferCapacityError
            &&& final(out)@ == old(out)@
        },
{
    match o {
        Option::None => {
            if out.len() >= MESSAGE_SIZE {
                return Err(CodecError::BufferCapacityError);
            }
            out.push(0x00u8);
            proof {
                assert(out@ =~= old(out)@ + opt_node_bytes(*o));
            }
            Ok(())
        },
        Option::Some(n) => {
            if out.len() > MESSAGE_SIZE - 7 {
                return Err(CodecError::BufferCapacityError);
            }
            out.push(0x01u8);
            crate::wire::push_bytes(out, vstd::array::array_as_slice(&n.mac));
            proof {
                assert(out@ =~= old(out)@ + opt_node_bytes(*o));
            }
            Ok(())
        },
    }
}

/// Reads an optional node: flag `0x00` is `None`, `0x01` is `Some` of the
/// six following bytes, any other flag is `InvalidOptionFlagError`.
pub fn decode_option_node(cursor: &mut Cursor) -> (r: Result<Option<Node>, CodecError>)
    requires
        old(cursor).wf(),
    ensures
        final(cursor).wf(),
        final(cursor).spec_buf() == old(cursor).spec_buf(),
        ({
            let rem = old(cursor).spec_remaining();
            if opt_node_parseable(rem) {
                &&& r matches Ok(o) && opt_node_bytes(o) == rem.take(opt_node_len(rem))
                &&& final(cursor).spec_pos() == old(cursor).spec_pos() + opt_node_len(rem)
            } else {
                r matches Err(e) && e == opt_node_err(rem)
            }
        }),
{
    let ghost rem = old(cursor).spec_remaining();
    let flag = match cursor.take(1) {
        Ok(s) => *vstd::slice::slice_index_get(s, 0),
        Err(e) => {
            return Err(CodecError::CursorReadError(e));
        },
    };
    if flag == 0x00 {
        proof {
            assert(opt_node_bytes(Option::None) =~= rem.take(1));
        }
        Ok(Option::None)
    } else if flag == 0x01 {
        let n = match Node::decode(cursor) {
            Ok(n) => n,
            Err(e) => {
                return Err(e);
            },
        };
        proof {
            assert(opt_node_bytes(Option::Some(n)) =~= rem.take(7));
        }
        Ok(Option::Some(n))
    } else {
        Err(CodecError::InvalidOptionFlagError(flag))
    }
}

impl MessageContent {
    /// The message type of this content value.
    pub fn message_type(&self) -> (r: MessageType)
        ensures
            r == spec_content_type(*self),
    {
        match self {
            MessageContent::Application(d) => MessageType::Application,
            MessageContent::Discovery => MessageType::Discovery,
            MessageContent::Invitation => MessageType::Invitation,
            MessageContent::RequestNews => MessageType::RequestNews,
            MessageContent::SendNew(n, r) => MessageType::SendNew,
            MessageContent::FinSendNew => MessageType::FinSendNew,
            MessageContent::UpsertEdge(a, b) => MessageType::UpsertEdge,
            MessageContent::RequestInitTopology(n) => MessageType::RequestInitTopology,
        }
    }

    /// Appends the tag byte and the body; leaves the buffer unchanged and
    /// fails with `BufferCapacityError` when the value does not fit.
    pub fn encode(&self, out: &mut MessageData) -> (r: Result<(), CodecError>)
        ensures
            if content_valid(*self) && old(out)@.len() + content_bytes(*self).len()
                <= MESSAGE_SIZE {
                &&& r matches Ok(u)
                &&& final(out)@ == old(out)@ + content_bytes(*self)
            } else {
                &&& r matches Err(e) && e == CodecError::BufferCapacityError
                &&& final(out)@ == old(out)@
            },
    {
        match self {
            MessageContent::Application(d) => {
                let dl = d.len();
                if dl > MAX_APP_DATA {
                    return Err(CodecError::BufferCapacityError);
                }
                if out.len() > MESSAGE_SIZE - 2 - dl {
                    return Err(CodecError::BufferCapacityError);
                }
                out.push(0x01u8);
                out.push(d.len() as u8);
                crate::wire::push_bytes(out, d.as_slice());
                proof {
                    assert(out@ =~= old(out)@ + content_bytes(*self));
                }
                Ok(())
            },
            MessageContent::Discovery => {
                if out.len() >= MESSAGE_SIZE {
                    return Err(CodecError::BufferCapacityError);
                }
                out.push(0x02u8);
                proof {
                    assert(out@ =~= old(out)@ + content_bytes(*self));
                }
                Ok(())
            },
            MessageContent::Invitation => {
                if out.len() >= MESSAGE_SIZE {
                    return Err(CodecError::BufferCapacityError);
                }
                out.push(0x03u8);
                proof {
                    assert(out@ =~= old(out)@ + content_bytes(*self));
                }
                Ok(())
            },
            MessageContent::RequestNews => {
                if out.len() >= MESSAGE_SIZE {
                    return Err(CodecError::BufferCapacityError);
                }
                out.push(0x04u8);
                proof {
                    assert(out@ =~= old(out)@ + content_bytes(*self));
                }
                Ok(())
            },
            MessageContent::SendNew(n, rssi) => {
                proof {
                    vstd::bytes::lemma_auto_spec_u32_to_from_le_bytes();
                }
                if out.len() > MESSAGE_SIZE - 11 {
                    return Err(CodecError::BufferCapacityError);
                }
                out.push(0x05u8);
                crate::wire::push_bytes(out, vstd::array::array_as_slice(&n.mac));
                let rb = vstd::bytes::u32_to_le_bytes(#[verifier::truncate] (*rssi as u32));
                crate::wire::push_bytes(out, rb.as_slice());
                proof {
                    assert(out@ =~= old(out)@ + content_bytes(*self));
                }
                Ok(())
            },
            MessageContent::FinSendNew => {
                if out.len() >= MESSAGE_SIZE {
                    return Err(CodecError::BufferCapacityError);
                }
                out.push(0x06u8);
                proof {
                    assert(out@ =~= old(out)@ + content_bytes(*self));
                }
                Ok(())
            },
            MessageContent::UpsertEdge(a, b) => {
                let la: usize = if a.is_some() {
                    7
                } else {
                    1
                };
                let lb: usize = if b.is_some() {
                    7
                } else {
                    1
                };
                if out.len() > MESSAGE_SIZE - 1 - la - lb {
                    return Err(CodecError::BufferCapacityError);
                }
                out.push(0x07u8);
                let r1 = encode_option_node(a, out);
                let r2 = encode_option_node(b, out);
                proof {
                    assert(out@ =~= old(out)@ + content_bytes(*self));
                }
                Ok(())
            },
            MessageContent::RequestInitTopology(n) => {
                if out.len() > MESSAGE_SIZE - 7 {
                    return Err(CodecError::BufferCapacityError);
                }
                out.push(0x08u8);
                crate::wire::push_bytes(out, vstd::array::array_as_slice(&n.mac));
                proof {
                    assert(out@ =~= old(out)@ + content_bytes(*self));
                }
                Ok(())
            },
        }
    }

    /// Reads one content value from the cursor: the tag byte selects the
    /// variant, then the body is read as `content_bytes` lays it out.
    pub fn decode(cursor: &mut Cursor) -> (r: Result<MessageContent, CodecError>)
        requires
            old(cursor).wf(),
        ensures
            final(cursor).wf(),
            final(cursor).spec_buf() == old(cursor).spec_buf(),
            ({
                let rem = old(cursor).spec_remaining();
                if content_parseable(rem) {
                    &&& r matches Ok(c)
                    &&& content_wf(c)
                    &&& content_bytes(c) == rem.take(content_len(rem))
                    &&& final(cursor).spec_pos() == old(cursor).spec_pos() + content_len(rem)
                } else {
                    r matches Err(e) && e == content_err(rem)
                }
            }),
    {
        let ghost rem = old(cursor).spec_remaining();
        let t = match MessageType::decode(cursor) {
            Ok(t) => t,
            Err(e) => {
                return Err(e);
            },
        };
        proof {
            assert(cursor.spec_remaining() =~= rem.skip(1));
        }
        match t {
            MessageType::Application => {
                let lb = match cursor.take(1) {
                    Ok(s) => *vstd::slice::slice_index_get(s, 0),
                    Err(e) => {
                        return Err(CodecError::CursorReadError(e));
                    },
                };
                let data_slice = match cursor.take(lb as usize) {
                    Ok(s) => s,
                    Err(e) => {
                        return Err(CodecError::CursorReadError(e));
                    },
                };
                let d = vstd::slice::slice_to_vec(data_slice);
                let c = MessageContent::Application(d);
                proof {
                    assert(content_bytes(c) =~= rem.take(content_len(rem)));
                }
                Ok(c)
            },
            MessageType::Discovery => {
                proof {
                    assert(content_bytes(MessageContent::Discovery) =~= rem.take(1));
                }
                Ok(MessageContent::Discovery)
            },
            MessageType::Invitation => {
                proof {
                    assert(content_bytes(MessageContent::Invitation) =~= rem.take(1));
                }
                Ok(MessageContent::Invitation)
            },
            MessageType::RequestNews => {
                proof {
                    assert(content_bytes(MessageContent::RequestNews) =~= rem.take(1));
                }
                Ok(MessageContent::RequestNews)
            },
            MessageType::SendNew => {
                let n = match Node::decode(cursor) {
                    Ok(n) => n,
                    Err(e) => {
                        return Err(e);
                    },
                };
                let rb = match cursor.take(4) {
                    Ok(s) => s,
                    Err(e) => {
                        return Err(CodecError::CursorReadError(e));
                    },
                };
                let u = vstd::bytes::u32_from_le_bytes(rb);
                let rssi = #[verifier::truncate] (u as i32);
                let c = MessageContent::SendNew(n, rssi);
                proof {
                    vstd::bytes::lemma_auto_spec_u32_to_from_le_bytes();
                    assert((u as i32) as u32 == u) by (bit_vector);
                    assert(rssi_bytes(rssi) == rb@);
                    assert(content_bytes(c) =~= rem.take(11));
                }
                Ok(c)
            },
            MessageType::FinSendNew => {
                proof {
                    assert(content_bytes(MessageContent::FinSendNew) =~= rem.take(1));
                }
                Ok(MessageContent::FinSendNew)
            },
            MessageType::UpsertEdge => {
                let a = match decode_option_node(cursor) {
                    Ok(o) => o,
                    Err(e) => {
                        return Err(e);
                    },
                };
                let b = match decode_option_node(cursor) {
                    Ok(o) => o,
                    Err(e) => {
                        return Err(e);
                    },
                };
                let c = MessageContent::UpsertEdge(a, b);
                proof {
                    assert(content_bytes(c) =~= rem.take(content_len(rem)));
                }
                Ok(c)
            },
            MessageType::RequestInitTopology => {
                let n = match Node::decode(cursor) {
                    Ok(n) => n,
                    Err(e) => {
                        return Err(e);
                    },
                };
                let c = MessageContent::RequestInitTopology(n);
                proof {
                    assert(content_bytes(c) =~= rem.take(7));
                }
                Ok(c)
            },
        }
    }
}

/// An outgoing frame: content, ultimate recipient, and the original sender
/// when the frame is a forward.
#[derive(Clone, Debug)]
pub struct SendMessage {
    pub data: MessageContent,
    pub final_destination: Node,
    pub final_source: Option<Node>,
}

/// Wire form of a whole frame: content, then the destination, then the
/// optional source.
pub open spec fn message_bytes(m: SendMessage) -> Seq<u8> {
    content_bytes(m.data) + m.final_destination@ + opt_node_bytes(m.final_source)
}

/// Whether a frame can be serialized: its content is encodable and the
/// whole frame fits in `MESSAGE_SIZE` bytes.
pub open spec fn message_fits(m: SendMessage) -> bool {
    content_valid(m.data) && message_bytes(m).len() <= MESSAGE_SIZE
}

impl SendMessage {
    pub fn new(final_destination: Node, data: MessageContent, final_source: Option<Node>) -> (r:
        SendMessage)
        ensures
            r.final_destination == final_destination,
            r.data == data,
            r.final_source == final_source,
    {
        SendMessage { data, final_destination, final_source }
    }

    /// Serializes the frame, or fails with `MessageTooLargeError` when it
    /// does not fit in `MESSAGE_SIZE` bytes.
    pub fn serialize(&self) -> (r: Result<MessageData, SendMessageError>)
        ensures
            if message_fits(*self) {
                r matches Ok(v) && v@ == message_bytes(*self)
            } else {
                r matches Err(e) && e == SendMessageError::MessageTooLargeError
            },
    {
        let mut out: MessageData = Vec::new();
        match self.data.encode(&mut out) {
            Ok(u) => (),
            Err(e) => {
                return Err(SendMessageError::MessageTooLargeError);
            },
        }
        match self.final_destination.encode(&mut out) {
            Ok(u) => (),
            Err(e) => {
                return Err(SendMessageError::MessageTooLargeError);
            },
        }
        match encode_option_node(&self.final_source, &mut out) {
            Ok(u) => (),
            Err(e) => {
                return Err(SendMessageError::MessageTooLargeError);
            },
        }
        Ok(out)
    }
}

/// Whether a whole frame can be parsed from the head of `p`.
pub open spec fn message_parseable(p: Seq<u8>) -> bool {
    &&& content_parseable(p)
    &&& p.skip(content_len(p)).len() >= 6
    &&& opt_node_parseable(p.skip(content_len(p) + 6))
}

/// The error parsing a whole frame from the head of `p`.
pub open spec fn message_err(p: Seq<u8>) -> ReceiveMessageError {
    if !content_parseable(p) {
        ReceiveMessageError::MessageTypeDecodeError(content_err(p))
    } else if p.skip(content_len(p)).len() < 6 {
        ReceiveMessageError::FinalDestinationDecodeError(
            CodecError::CursorReadError(CursorError::BufferUnderflowError),
        )
    } else {
        ReceiveMessageError::FinalSourceDecodeError(opt_node_err(p.skip(content_len(p) + 6)))
    }
}

/// An incoming frame after parsing: content, ultimate recipient, original
/// sender (the link source when the frame carried none), and the link-layer
/// addresses and signal strength of this hop.
#[derive(Clone, Debug)]
pub struct ReceiveMessage {
    pub data: MessageContent,
    pub final_destination: Node,
    pub final_source: Node,
    pub destination: Node,
    pub source: Node,
    pub rssi: i32,
}

impl ReceiveMessage {
    /// Parses a received payload; the frame's optional source defaults to
    /// the link source when absent.
    pub fn new(payload: MessageData, destination: Node, source: Node, rssi: i32) -> (r: Result<
        ReceiveMessage,
        ReceiveMessageError,
    >)
        ensures
            ({
                let p = payload@;
                if message_parseable(p) {
                    &&& r matches Ok(m)
                    &&& content_wf(m.data)
                    &&& content_bytes(m.data) == p.take(content_len(p))
                    &&& m.final_destination@ == p.subrange(content_len(p), content_len(p) + 6)
                    &&& ({
                        let rest = p.skip(content_len(p) + 6);
                        if rest[0] == 0x00 {
                            m.final_source == source
                        } else {
                            opt_node_bytes(Option::Some(m.final_source)) == rest.take(7)
                        }
                    })
                    &&& m.destination == destination
                    &&& m.source == source
                    &&& m.rssi == rssi
                } else {
                    r matches Err(e) && e == message_err(p)
                }
            }),
    {
        let ghost p = payload@;
        let mut cursor = Cursor::new(payload.as_slice());
        proof {
            assert(cursor.spec_remaining() =~= p);
        }
        let data = match MessageContent::decode(&mut cursor) {
            Ok(c) => c,
            Err(e) => {
                return Err(ReceiveMessageError::MessageTypeDecodeError(e));
            },
        };
        proof {
            assert(cursor.spec_remaining() =~= p.skip(content_len(p)));
        }
        let final_destination = match Node::decode(&mut cursor) {
            Ok(n) => n,
            Err(e) => {
                return Err(ReceiveMessageError::FinalDestinationDecodeError(e));
            },
        };
        proof {
            assert(final_destination@ =~= p.subrange(content_len(p), content_len(p) + 6));
            assert(cursor.spec_remaining() =~= p.skip(content_len(p) + 6));
        }
        let fs_opt = match decode_option_node(&mut cursor) {
            Ok(o) => o,
            Err(e) => {
                return Err(ReceiveMessageError::FinalSourceDecodeError(e));
            },
        };
        proof {
            let rest = p.skip(content_len(p) + 6);
            assert(opt_node_bytes(fs_opt) == rest.take(opt_node_len(rest)));
            assert(rest.take(opt_node_len(rest))[0] == rest[0]);
            match fs_opt {
                Option::None => {
                    assert(rest[0] == 0x00);
                },
                Option::Some(n) => {
                    assert(rest[0] == 0x01);
                    assert(opt_node_len(rest) == 7);
                },
            }
        }
        let final_source = match fs_opt {
            Option::Some(n) => n,
            Option::None => source,
        };
        Ok(ReceiveMessage { data, final_destination, final_source, destination, source, rssi })
    }

    /// Whether this hop is the frame's ultimate recipient.
    pub fn is_final_destination(&self) -> (r: bool)
        ensures
            r == (self.final_destination == self.destination),
    {
        self.final_destination == self.destination
    }

    /// Whether the content belongs to the control plane: every variant but
    /// `Application`.
    pub fn is_organization(&self) -> (r: bool)
        ensures
            r == (spec_content_type(self.data) != MessageType::Application),
    {
        match self.data {
            MessageContent::Application(_) => false,
            _ => true,
        }
    }
}

impl From<ReceiveMessage> for SendMessage {
    /// Rewrites a received frame for forwarding: content and destination
    /// are kept, and the source travels on explicitly.
    fn from(m: ReceiveMessage) -> (r: SendMessage) {
        SendMessage {
            data: m.data,
            final_destination: m.final_destination,
            final_source: Option::Some(m.final_source),
        }
    }
}

impl vstd::std_specs::convert::FromSpecImpl<ReceiveMessage> for SendMessage {
    open spec fn obeys_from_spec() -> bool {
        true
    }

    open spec fn from_spec(m: ReceiveMessage) -> SendMessage {
        SendMessage {
            data: m.data,
            final_destination: m.final_destination,
            final_source: Option::Some(m.final_source),
        }
    }
}


/// An optional node encodes to one byte when absent and seven when present.
pub proof fn lemma_opt_node_encoding_size(o: Option<Node>)
    ensures
        opt_node_bytes(o).len() == if o is Some {
            7int
        } else {
            1int
        },
{
}

/// A leading byte that is no known tag, `0x00` or `0x09` and above, fails
/// to parse as content and produces `InvalidMessageType` of that byte.
pub proof fn lemma_invalid_tag_rejected(rem: Seq<u8>)
    requires
        rem.len() >= 1,
        !(0x01 <= rem[0] <= 0x08),
    ensures
        !content_parseable(rem),
        content_err(rem) == CodecError::MessageTypeError(
            MessageTypeError::InvalidMessageType(rem[0]),
        ),
{
}

/// The first byte of a content encoding is the tag of its message type.
pub proof fn lemma_content_tag(c: MessageContent)
    ensures
        content_bytes(c).len() >= 1,
        content_bytes(c)[0] == spec_tag(spec_content_type(c)),
{
}

/// An encoded optional node at the head of a buffer parses back, and
/// consumes exactly its own bytes.
pub proof fn lemma_opt_node_round_trip(o: Option<Node>, rest: Seq<u8>)
    ensures
        opt_node_parseable(opt_node_bytes(o) + rest),
        opt_node_len(opt_node_bytes(o) + rest) == opt_node_bytes(o).len(),
        (opt_node_bytes(o) + rest).take(opt_node_bytes(o).len() as int) == opt_node_bytes(o),
{
    let p = opt_node_bytes(o) + rest;
    match o {
        Option::None => {
            assert(p[0] == 0x00);
            assert(p.take(1) =~= opt_node_bytes(o));
        },
        Option::Some(n) => {
            assert(p[0] == 0x01);
            assert(p.take(7) =~= opt_node_bytes(o));
        },
    }
}

/// An encoded content value at the head of a buffer parses back, and
/// consumes exactly its own bytes.
pub proof fn lemma_content_round_trip(c: MessageContent, rest: Seq<u8>)
    requires
        content_wf(c),
    ensures
        content_parseable(content_bytes(c) + rest),
        content_len(content_bytes(c) + rest) == content_bytes(c).len(),
        (content_bytes(c) + rest).take(content_bytes(c).len() as int) == content_bytes(c),
{
    let b = content_bytes(c);
    let p = b + rest;
    assert(p.take(b.len() as int) =~= b);
    match c {
        MessageContent::Application(d) => {
            assert(p[0] == 0x01);
            assert(p[1] == d@.len() as u8);
            assert(p[1] == d@.len());
        },
        MessageContent::SendNew(n, r) => {
            vstd::bytes::lemma_auto_spec_u32_to_from_le_bytes();
            assert(p[0] == 0x05);
            assert(b.len() == 11);
        },
        MessageContent::UpsertEdge(a, bo) => {
            assert(p[0] == 0x07);
            let pa = opt_node_bytes(a);
            let pb = opt_node_bytes(bo);
            assert(p.skip(1) =~= pa + (pb + rest));
            lemma_opt_node_round_trip(a, pb + rest);
            assert(p.skip(1 + pa.len() as int) =~= pb + rest);
            lemma_opt_node_round_trip(bo, rest);
        },
        MessageContent::RequestInitTopology(n) => {
            assert(p[0] == 0x08);
            assert(b.len() == 7);
        },
        _ => {},
    }
}

/// Two optional nodes with the same encoding are the same value.
pub proof fn lemma_opt_node_bytes_injective(o1: Option<Node>, o2: Option<Node>)
    requires
        opt_node_bytes(o1) == opt_node_bytes(o2),
    ensures
        o1 == o2,
{
    match (o1, o2) {
        (Option::Some(n1), Option::Some(n2)) => {
            assert forall|i: int| 0 <= i < 6 implies n1@[i] == n2@[i] by {
                assert(opt_node_bytes(o1)[i + 1] == n1@[i]);
                assert(opt_node_bytes(o2)[i + 1] == n2@[i]);
            }
            assert(n1.mac =~= n2.mac);
        },
        (Option::Some(n1), Option::None) => {
            assert(opt_node_bytes(o1)[0] == 0x01);
        },
        (Option::None, Option::Some(n2)) => {
            assert(opt_node_bytes(o2)[0] == 0x01);
        },
        (Option::None, Option::None) => {},
    }
}

/// Two well-formed content values with the same encoding are the same
/// message, up to the view of their payload bytes.
pub proof fn lemma_content_bytes_injective(c1: MessageContent, c2: MessageContent)
    requires
        content_wf(c1),
        content_wf(c2),
        content_bytes(c1) == content_bytes(c2),
    ensures
        content_matches(c1, c2),
{
    let b1 = content_bytes(c1);
    let b2 = content_bytes(c2);
    lemma_content_tag(c1);
    lemma_content_tag(c2);
    assert(spec_content_type(c1) == spec_content_type(c2));
    match c1 {
        MessageContent::Application(d1) => {
            let d2 = c2->Application_0;
            assert(b1[1] == d1@.len() as u8);
            assert(b2[1] == d2@.len() as u8);
            assert(d1@.len() == d2@.len());
            assert forall|i: int| 0 <= i < d1@.len() implies d1@[i] == d2@[i] by {
                assert(b1[2 + i] == d1@[i]);
                assert(b2[2 + i] == d2@[i]);
            }
            assert(d1@ =~= d2@);
        },
        MessageContent::SendNew(n1, r1) => {
            let n2 = c2->SendNew_0;
            let r2 = c2->SendNew_1;
            vstd::bytes::lemma_auto_spec_u32_to_from_le_bytes();
            assert forall|i: int| 0 <= i < 6 implies n1@[i] == n2@[i] by {
                assert(b1[1 + i] == n1@[i]);
                assert(b2[1 + i] == n2@[i]);
            }
            assert(n1.mac =~= n2.mac);
            assert(rssi_bytes(r1) =~= rssi_bytes(r2)) by {
                assert forall|i: int| 0 <= i < 4 implies rssi_bytes(r1)[i] == rssi_bytes(r2)[i]
                    by {
                    assert(b1[7 + i] == rssi_bytes(r1)[i]);
                    assert(b2[7 + i] == rssi_bytes(r2)[i]);
                }
            }
            assert(r1 as u32 == r2 as u32);
            assert(r1 as u32 == r2 as u32 ==> r1 == r2) by (bit_vector);
        },
        MessageContent::UpsertEdge(a1, o1) => {
            let a2 = c2->UpsertEdge_0;
            let o2 = c2->UpsertEdge_1;
            let pa1 = opt_node_bytes(a1);
            let pa2 = opt_node_bytes(a2);
            let po1 = opt_node_bytes(o1);
            let po2 = opt_node_bytes(o2);
            assert(b1[1] == pa1[0]);
            assert(b2[1] == pa2[0]);
            assert(pa1.len() == pa2.len());
            assert(pa1 =~= pa2) by {
                assert forall|i: int| 0 <= i < pa1.len() implies pa1[i] == pa2[i] by {
                    assert(b1[1 + i] == pa1[i]);
                    assert(b2[1 + i] == pa2[i]);
                }
            }
            lemma_opt_node_bytes_injective(a1, a2);
            assert(po1 =~= po2) by {
                assert forall|i: int| 0 <= i < po1.len() implies po1[i] == po2[i] by {
                    assert(b1[1 + pa1.len() + i] == po1[i]);
                    assert(b2[1 + pa2.len() + i] == po2[i]);
                }
            }
            lemma_opt_node_bytes_injective(o1, o2);
        },
        MessageContent::RequestInitTopology(n1) => {
            let n2 = c2->RequestInitTopology_0;
            assert forall|i: int| 0 <= i < 6 implies n1@[i] == n2@[i] by {
                assert(b1[1 + i] == n1@[i]);
                assert(b2[1 + i] == n2@[i]);
            }
            assert(n1.mac =~= n2.mac);
        },
        _ => {},
    }
}

/// Round trip of a whole frame: a serialized frame parses back into the
/// same content, destination and optional source, with nothing left over.
pub proof fn lemma_message_round_trip(m: SendMessage)
    requires
        message_fits(m),
    ensures
        ({
            let p = message_bytes(m);
            let k = content_len(p);
            &&& message_parseable(p)
            &&& k == content_bytes(m.data).len()
            &&& p.take(k) == content_bytes(m.data)
            &&& p.subrange(k, k + 6) == m.final_destination@
            &&& p.skip(k + 6) == opt_node_bytes(m.final_source)
        }),
{
    let p = message_bytes(m);
    let cb = content_bytes(m.data);
    let rest = m.final_destination@ + opt_node_bytes(m.final_source);
    assert(p =~= cb + rest);
    lemma_content_round_trip(m.data, rest);
    let k = content_len(p);
    assert(p.take(k) =~= cb);
    assert(p.subrange(k, k + 6) =~= m.final_destination@);
    assert(p.skip(k + 6) =~= opt_node_bytes(m.final_source));
    lemma_opt_node_round_trip(m.final_source, Seq::empty());
    assert(opt_node_bytes(m.final_source) + Seq::empty() =~= opt_node_bytes(m.final_source));
}


/// Round trip, read back at the consumer: any frame parsed out of a
/// serialized `m` carries `m`'s content and destination, and its source is
/// `m`'s — or the link source when `m` carried none.
pub proof fn lemma_message_round_trip_identity(m: SendMessage, rm: ReceiveMessage, source: Node)
    requires
        message_fits(m),
        content_wf(rm.data),
        ({
            let p = message_bytes(m);
            let k = content_len(p);
            &&& content_bytes(rm.data) == p.take(k)
            &&& rm.final_destination@ == p.subrange(k, k + 6)
            &&& ({
                let rest = p.skip(k + 6);
                if rest[0] == 0x00 {
                    rm.final_source == source
                } else {
                    opt_node_bytes(Option::Some(rm.final_source)) == rest.take(7)
                }
            })
        }),
    ensures
        content_matches(rm.data, m.data),
        rm.final_destination == m.final_destination,
        match m.final_source {
            Option::None => rm.final_source == source,
            Option::Some(s) => rm.final_source == s,
        },
{
    lemma_message_round_trip(m);
    let p = message_bytes(m);
    let k = content_len(p);
    assert(content_bytes(rm.data) == content_bytes(m.data));
    assert(content_wf(m.data));
    lemma_content_bytes_injective(rm.data, m.data);
    lemma_node_view_injective(rm.final_destination, m.final_destination);
    let rest = p.skip(k + 6);
    assert(rest == opt_node_bytes(m.final_source));
    match m.final_source {
        Option::None => {
            assert(rest[0] == 0x00);
        },
        Option::Some(s) => {
            assert(rest[0] == 0x01);
            assert(rest.take(7) =~= rest);
            lemma_opt_node_bytes_injective(
                Option::Some(rm.final_source),
                Option::Some(s),
            );
        },
    }
}

/// Two nodes with the same identifier bytes are the same node.
pub proof fn lemma_node_view_injective(n1: Node, n2: Node)
    requires
        n1@ == n2@,
    ensures
        n1 == n2,
{
    assert(n1.mac =~= n2.mac);
}

} // verus!
