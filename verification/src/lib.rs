//! Partition-aware iterative consensus: the verified core of a network
//! simulation (partition topology, step scheduling, control decisions, and
//! the node update step over user-supplied protocols).

pub mod error;
pub mod partition;
pub mod protocol;
pub mod simulation;
pub mod types;

pub use error::AxiomError;
pub use partition::PartitionTable;
pub use types::{Action, Message};
