//! Core of a self-organizing mesh network layer: a routing tree over 6-byte
//! node identifiers, a wire codec for the control and application messages
//! that nodes exchange, and the decision logic of the mesh protocol roles.
//!
//! Everything here is pure logic over plain values; the radio link, timers
//! and task plumbing live outside the library and drive these functions.

pub mod arena;
pub mod error;
pub mod link;
pub mod mesh;
pub mod message;
pub mod node;
pub mod tree;
pub mod wire;
