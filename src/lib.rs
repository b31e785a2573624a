//! Decision core of a line-oriented broadcast chat server: a registry of live
//! connections, a hub that turns transport events into actions and broadcast
//! rounds, and the message types of a separate replication model.
pub mod delivery;
pub mod hub;
pub mod raft_message;
pub mod registry;

pub use hub::{Action, Event, Hub, Round};
pub use raft_message::{LogEntry, RaftMessage};
pub use registry::Registry;
