//! Plain data crossing the link boundary: one outgoing and one incoming
//! datagram. The link itself — radio or in-process mock — lives outside
//! the library and never parses message contents.

use vstd::prelude::*;

use crate::message::MessageData;
use crate::node::Node;

verus! {

/// One datagram to put on the link.
#[derive(Clone, Debug)]
pub struct SendData {
    pub data: MessageData,
    pub destination: Node,
}

/// One datagram the link delivered, with its receive metadata.
#[derive(Clone, Debug)]
pub struct RecvData {
    pub data: MessageData,
    pub source: Node,
    pub destination: Node,
    pub rssi: i32,
}

} // verus!
