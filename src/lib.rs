//! Simulated cluster nodes that exchange JSON envelopes: echo, unique ids,
//! flooding broadcast and a grow-only counter, as one verified state machine.
pub mod counter;
pub mod decimal;
pub mod laws;
pub mod message;
pub mod node;
pub mod seen;
pub mod topology;

pub use message::{Body, GenericBody, GenericMessage, Message, Payload, ProtocolError};
pub use node::{Node, Role};
