//! Error taxonomy of the library: codec, arena, tree, link and mesh errors.

use vstd::prelude::*;

verus! {

/// A slot index into an `Arena`.
pub type SlotId = u8;

/// Errors of the task-spawning layer that drives the library.
#[derive(Clone, Copy, Debug, PartialEq, Eq, Structural)]
pub enum AsyncError {
    SpawnError,
}

/// Errors of the datagram link boundary.
#[derive(Clone, Copy, Debug, PartialEq, Eq, Structural)]
pub enum LinkError {
    QueueFullError,
    QueueEmptyError,
    AlreadyInitialized,
    SpawnError,
    MockError,
}

/// Errors of the slot arena.
#[derive(Clone, Copy, Debug, PartialEq, Eq, Structural)]
pub enum ArenaError {
    SlotEmptyError(SlotId),
    InvalidIndexError(SlotId),
}

/// Errors of the routing tree.
#[derive(Clone, Copy, Debug, PartialEq, Eq, Structural)]
pub enum TreeError {
    LeafAllocationError,
    NodeNotFoundError,
    LeafNotFoundError(ArenaError),
    RootIsDestinationError,
    UninitializedError,
}

/// Errors of the read cursor over a byte buffer.
#[derive(Clone, Copy, Debug, PartialEq, Eq, Structural)]
pub enum CursorError {
    BufferUnderflowError,
}

/// Error for a byte that is not a known message tag.
#[derive(Clone, Copy, Debug, PartialEq, Eq, Structural)]
pub enum MessageTypeError {
    InvalidMessageType(u8),
}

/// Errors of the wire codec.
#[derive(Clone, Copy, Debug, PartialEq, Eq, Structural)]
pub enum CodecError {
    MessageTypeError(MessageTypeError),
    CursorReadError(CursorError),
    BufferCapacityError,
    BufferOverflowError,
    InvalidOptionFlagError(u8),
    CodecError,
}

/// Errors raised while serializing an outgoing message.
#[derive(Clone, Copy, Debug, PartialEq, Eq, Structural)]
pub enum SendMessageError {
    MessageTypeEncodeError(CodecError),
    FinalDestinationEncodeError(CodecError),
    FinalSourceEncodeError(CodecError),
    MessageTooLargeError,
}

/// Errors raised while parsing an incoming frame.
#[derive(Clone, Copy, Debug, PartialEq, Eq, Structural)]
pub enum ReceiveMessageError {
    MessageTypeDecodeError(CodecError),
    FinalDestinationDecodeError(CodecError),
    FinalSourceDecodeError(CodecError),
    BufferOverflowError,
}

/// Errors of the mesh engine, composed from the layers beneath it.
#[derive(Clone, Copy, Debug, PartialEq, Eq, Structural)]
pub enum MeshError {
    SerializationError(SendMessageError),
    TreeError(TreeError),
    LinkError(LinkError),
    ReceiveMessageError(ReceiveMessageError),
    OrganizeQueueSendError,
    OrganizeQueueRecvError,
    ReceiveQueueSendError,
    SpawnError,
}


/// A small number as decimal characters.
pub open spec fn u8_decimal(n: u8) -> Seq<char> {
    if n < 10 {
        seq![crate::node::hex_digit(n)]
    } else if n < 100 {
        seq![crate::node::hex_digit(n / 10), crate::node::hex_digit(n % 10)]
    } else {
        seq![
            crate::node::hex_digit(n / 100),
            crate::node::hex_digit((n / 10) % 10),
            crate::node::hex_digit(n % 10),
        ]
    }
}

/// Appends a small number in decimal.
fn push_u8_decimal(out: &mut String, n: u8)
    ensures
        final(out)@ == old(out)@ + u8_decimal(n),
{
    if n < 10 {
        out.push(crate::node::hex_char(n));
        proof {
            assert(out@ =~= old(out)@ + u8_decimal(n));
        }
    } else if n < 100 {
        out.push(crate::node::hex_char(n / 10));
        out.push(crate::node::hex_char(n % 10));
        proof {
            assert(out@ =~= old(out)@ + u8_decimal(n));
        }
    } else {
        out.push(crate::node::hex_char(n / 100));
        out.push(crate::node::hex_char((n / 10) % 10));
        out.push(crate::node::hex_char(n % 10));
        proof {
            assert(out@ =~= old(out)@ + u8_decimal(n));
        }
    }
}

impl AsyncError {
    /// The message the error prints.
    pub open spec fn describe_spec(&self) -> Seq<char> {
        "Failed to spawn task"@
    }

    /// Renders the error as its message.
    pub fn describe(&self) -> (r: String)
        ensures
            r@ == self.describe_spec(),
    {
        "Failed to spawn task".to_owned()
    }
}

impl LinkError {
    /// The message the error prints.
    pub open spec fn describe_spec(&self) -> Seq<char> {
        match self {
            LinkError::QueueFullError => "Failed to push new message since message queue was full:\n"@,
            LinkError::QueueEmptyError => "Failed to receive new message since message queue was empty:\n"@,
            LinkError::AlreadyInitialized => "Link has already been initialized"@,
            LinkError::SpawnError => "Failed to spawn task"@,
            LinkError::MockError => "Nothing failed this is just a test"@,
        }
    }

    /// Renders the error as its message.
    pub fn describe(&self) -> (r: String)
        ensures
            r@ == self.describe_spec(),
    {
        match self {
            LinkError::QueueFullError => "Failed to push new message since message queue was full:\n".to_owned(),
            LinkError::QueueEmptyError => "Failed to receive new message since message queue was empty:\n".to_owned(),
            LinkError::AlreadyInitialized => "Link has already been initialized".to_owned(),
            LinkError::SpawnError => "Failed to spawn task".to_owned(),
            LinkError::MockError => "Nothing failed this is just a test".to_owned(),
        }
    }
}

impl ArenaError {
    /// The message the error prints, the slot id in decimal.
    pub open spec fn describe_spec(&self) -> Seq<char> {
        match self {
            ArenaError::SlotEmptyError(id) => "Failed to find Node: "@ + u8_decimal(*id),
            ArenaError::InvalidIndexError(id) => "Index is not used: "@ + u8_decimal(*id),
        }
    }

    /// Renders the error as its message.
    pub fn describe(&self) -> (r: String)
        ensures
            r@ == self.describe_spec(),
    {
        match self {
            ArenaError::SlotEmptyError(id) => {
                let mut out = "Failed to find Node: ".to_owned();
                push_u8_decimal(&mut out, *id);
                out
            },
            ArenaError::InvalidIndexError(id) => {
                let mut out = "Index is not used: ".to_owned();
                push_u8_decimal(&mut out, *id);
                out
            },
        }
    }
}

impl TreeError {
    /// The message the error prints, nested errors on following lines.
    pub open spec fn describe_spec(&self) -> Seq<char> {
        match self {
            TreeError::LeafAllocationError => "Failed to allocate Leaf"@,
            TreeError::NodeNotFoundError => "Could not find Node"@,
            TreeError::LeafNotFoundError(e) => "Could not find Leaf:\n"@ + e.describe_spec(),
            TreeError::RootIsDestinationError => "The root of this tree is the destination"@,
            TreeError::UninitializedError => "Tree is uninitialized"@,
        }
    }

    /// Renders the error as its message.
    pub fn describe(&self) -> (r: String)
        ensures
            r@ == self.describe_spec(),
    {
        match self {
            TreeError::LeafAllocationError => "Failed to allocate Leaf".to_owned(),
            TreeError::NodeNotFoundError => "Could not find Node".to_owned(),
            TreeError::LeafNotFoundError(e) => {
                let mut out = "Could not find Leaf:\n".to_owned();
                let inner = e.describe();
                out.push_str(inner.as_str());
                out
            },
            TreeError::RootIsDestinationError => "The root of this tree is the destination".to_owned(),
            TreeError::UninitializedError => "Tree is uninitialized".to_owned(),
        }
    }
}

impl CursorError {
    /// The message the error prints.
    pub open spec fn describe_spec(&self) -> Seq<char> {
        "Buffer underflow"@
    }

    /// Renders the error as its message.
    pub fn describe(&self) -> (r: String)
        ensures
            r@ == self.describe_spec(),
    {
        "Buffer underflow".to_owned()
    }
}

impl MessageTypeError {
    /// The message the error prints, the offending byte in decimal.
    pub open spec fn describe_spec(&self) -> Seq<char> {
        match self {
            MessageTypeError::InvalidMessageType(e) => "Failed to parse message type from: "@
                + u8_decimal(*e),
        }
    }

    /// Renders the error as its message.
    pub fn describe(&self) -> (r: String)
        ensures
            r@ == self.describe_spec(),
    {
        match self {
            MessageTypeError::InvalidMessageType(e) => {
                let mut out = "Failed to parse message type from: ".to_owned();
                push_u8_decimal(&mut out, *e);
                out
            },
        }
    }
}

impl CodecError {
    /// The message the error prints, nested errors on following lines.
    pub open spec fn describe_spec(&self) -> Seq<char> {
        match self {
            CodecError::MessageTypeError(e) => "Error with MessageType:\n"@ + e.describe_spec(),
            CodecError::CursorReadError(e) => "Failed to read from Cursor:\n"@
                + e.describe_spec(),
            CodecError::BufferCapacityError => "Buffer capacity exceeded while extending data"@,
            CodecError::BufferOverflowError => "Buffer is full; cannot push more bytes"@,
            CodecError::InvalidOptionFlagError(e) => "Flag "@ + u8_decimal(*e)
                + " is not supported for option"@,
            CodecError::CodecError => "Failed to encode component:\n"@,
        }
    }

    /// Renders the error as its message.
    pub fn describe(&self) -> (r: String)
        ensures
            r@ == self.describe_spec(),
    {
        match self {
            CodecError::MessageTypeError(e) => {
                let mut out = "Error with MessageType:\n".to_owned();
                let inner = e.describe();
                out.push_str(inner.as_str());
                out
            },
            CodecError::CursorReadError(e) => {
                let mut out = "Failed to read from Cursor:\n".to_owned();
                let inner = e.describe();
                out.push_str(inner.as_str());
                out
            },
            CodecError::BufferCapacityError => "Buffer capacity exceeded while extending data".to_owned(),
            CodecError::BufferOverflowError => "Buffer is full; cannot push more bytes".to_owned(),
            CodecError::InvalidOptionFlagError(e) => {
                let mut out = "Flag ".to_owned();
                push_u8_decimal(&mut out, *e);
                out.push_str(" is not supported for option");
                out
            },
            CodecError::CodecError => "Failed to encode component:\n".to_owned(),
        }
    }
}

impl SendMessageError {
    /// The message the error prints, nested errors on following lines.
    pub open spec fn describe_spec(&self) -> Seq<char> {
        match self {
            SendMessageError::MessageTypeEncodeError(e) => "Failed to encode MessageType:\n"@
                + e.describe_spec(),
            SendMessageError::FinalDestinationEncodeError(e) => "Failed to encode final destination:\n"@
                + e.describe_spec(),
            SendMessageError::FinalSourceEncodeError(e) => "Failed to encode final source:\n"@
                + e.describe_spec(),
            SendMessageError::MessageTooLargeError => "Message size exceeds buffer capacity"@,
        }
    }

    /// Renders the error as its message.
    pub fn describe(&self) -> (r: String)
        ensures
            r@ == self.describe_spec(),
    {
        match self {
            SendMessageError::MessageTypeEncodeError(e) => {
                let mut out = "Failed to encode MessageType:\n".to_owned();
                let inner = e.describe();
                out.push_str(inner.as_str());
                out
            },
            SendMessageError::FinalDestinationEncodeError(e) => {
                let mut out = "Failed to encode final destination:\n".to_owned();
                let inner = e.describe();
                out.push_str(inner.as_str());
                out
            },
            SendMessageError::FinalSourceEncodeError(e) => {
                let mut out = "Failed to encode final source:\n".to_owned();
                let inner = e.describe();
                out.push_str(inner.as_str());
                out
            },
            SendMessageError::MessageTooLargeError => "Message size exceeds buffer capacity".to_owned(),
        }
    }
}

impl ReceiveMessageError {
    /// The message the error prints, nested errors on following lines.
    pub open spec fn describe_spec(&self) -> Seq<char> {
        match self {
            ReceiveMessageError::MessageTypeDecodeError(e) => "Failed to decode message type:\n"@
                + e.describe_spec(),
            ReceiveMessageError::FinalDestinationDecodeError(e) => "Failed to decode final destination:\n"@
                + e.describe_spec(),
            ReceiveMessageError::FinalSourceDecodeError(e) => "Failed to decode final source:\n"@
                + e.describe_spec(),
            ReceiveMessageError::BufferOverflowError => "Failed to extend data from cursor buffer"@,
        }
    }

    /// Renders the error as its message.
    pub fn describe(&self) -> (r: String)
        ensures
            r@ == self.describe_spec(),
    {
        match self {
            ReceiveMessageError::MessageTypeDecodeError(e) => {
                let mut out = "Failed to decode message type:\n".to_owned();
                let inner = e.describe();
                out.push_str(inner.as_str());
                out
            },
            ReceiveMessageError::FinalDestinationDecodeError(e) => {
                let mut out = "Failed to decode final destination:\n".to_owned();
                let inner = e.describe();
                out.push_str(inner.as_str());
                out
            },
            ReceiveMessageError::FinalSourceDecodeError(e) => {
                let mut out = "Failed to decode final source:\n".to_owned();
                let inner = e.describe();
                out.push_str(inner.as_str());
                out
            },
            ReceiveMessageError::BufferOverflowError => "Failed to extend data from cursor buffer".to_owned(),
        }
    }
}

impl MeshError {
    /// The message the error prints, nested errors on following lines.
    pub open spec fn describe_spec(&self) -> Seq<char> {
        match self {
            MeshError::SerializationError(e) => "Failed to serialize data:\n"@
                + e.describe_spec(),
            MeshError::TreeError(e) => "Failed to get next hop:\n"@ + e.describe_spec(),
            MeshError::LinkError(e) => "Link produced an error:\n"@ + e.describe_spec(),
            MeshError::ReceiveMessageError(e) => "Failed to create ReceiveMessage:\n"@
                + e.describe_spec(),
            MeshError::OrganizeQueueSendError => "Failed to send receive message to channel"@,
            MeshError::OrganizeQueueRecvError => "Failed to receive message from channel"@,
            MeshError::ReceiveQueueSendError => "Failed to send receive message to channel"@,
            MeshError::SpawnError => "Failed to spawn task"@,
        }
    }

    /// Renders the error as its message.
    pub fn describe(&self) -> (r: String)
        ensures
            r@ == self.describe_spec(),
    {
        match self {
            MeshError::SerializationError(e) => {
                let mut out = "Failed to serialize data:\n".to_owned();
                let inner = e.describe();
                out.push_str(inner.as_str());
                out
            },
            MeshError::TreeError(e) => {
                let mut out = "Failed to get next hop:\n".to_owned();
                let inner = e.describe();
                out.push_str(inner.as_str());
                out
            },
            MeshError::LinkError(e) => {
                let mut out = "Link produced an error:\n".to_owned();
                let inner = e.describe();
                out.push_str(inner.as_str());
                out
            },
            MeshError::ReceiveMessageError(e) => {
                let mut out = "Failed to create ReceiveMessage:\n".to_owned();
                let inner = e.describe();
                out.push_str(inner.as_str());
                out
            },
            MeshError::OrganizeQueueSendError => "Failed to send receive message to channel".to_owned(),
            MeshError::OrganizeQueueRecvError => "Failed to receive message from channel".to_owned(),
            MeshError::ReceiveQueueSendError => "Failed to send receive message to channel".to_owned(),
            MeshError::SpawnError => "Failed to spawn task".to_owned(),
        }
    }
}

} // verus!
