//! Core of a Raft consensus engine: a deterministic, single-node state
//! machine covering leader election, log replication, commit-index
//! advancement, and the PreVote extension, together with the durable
//! storage contract the host must satisfy.
//!
//! The node is driven purely by events: every handler is a synchronous
//! transition from (current state, incoming message or local event) to
//! (new state, outgoing message). Transport, timers, and persistence
//! live in the host.

pub mod log;
pub mod message;
pub mod node;
pub mod storage;
pub mod wire;

pub use log::LogEntry;
pub use message::RaftMessage;
pub use node::{NodeState, RaftConfig, RaftNode};
pub use storage::{InMemoryStorage, Storage, StorageError};
