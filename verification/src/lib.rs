//! A minimal multi-client chat relay: typed messages, their wire format, the
//! registry of connected clients and the fan-out of each message to every
//! client but its sender.
//!
//! The library decides and computes; it touches no socket and no file. A
//! stream is handed to it as bytes in memory, and what is to be written, kept
//! or dropped comes back as plain values.

pub mod address;
pub mod command;
pub mod error;
pub mod frame;
pub mod message;
pub mod registry;
pub mod relay;
pub mod text;
pub mod wire;
pub mod worker;

pub use address::{validate_host, validate_port};
pub use command::Outgoing;
pub use error::ChatError;
pub use message::MessageType;
pub use registry::{ClientRegistry, ConnectionEntry, PeerAddr};
pub use relay::{broadcast, evict_failed, Broadcast, Delivery};
pub use worker::{handle_client, Storage, WorkerStep};
