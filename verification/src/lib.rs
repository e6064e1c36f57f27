//! A small runtime for message-passing nodes that talk over line-delimited
//! JSON, together with an anti-entropy gossip broadcast built on it.
//!
//! The runtime reads one envelope per line, starts a node from the first,
//! and hands the node one event at a time. The node is a state machine: it
//! decides its next state and the messages to send. Reading, waiting and
//! writing are left to the program around the library.

pub mod cluster;
pub mod codec;
pub mod echo;
pub mod envelope;
pub mod gossip;
pub mod gossip_laws;
pub mod gossip_wire;
pub mod init;
pub mod json;
pub mod names;
pub mod node;
pub mod runtime;
pub mod sets;
pub mod unique;

pub use codec::{EncodeError, MalformedEnvelope, Wire};
pub use envelope::{Body, Event, Init, InjectedPayload, Message, Timer};
pub use node::{Node, NodeError};
pub use runtime::{dispatch, dispatch_line, start, transport_event, RuntimeError};
