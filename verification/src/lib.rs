//! Gossip-based membership: a table of the freshest heartbeat seen for every
//! peer, the merge rule that keeps it fresh, the random fanout used to spread
//! heartbeats, and the measures that tell how far a cluster has converged.

pub mod clock;
pub mod error;
pub mod heartbeat;
pub mod laws;
pub mod metrics;
pub mod rounds;
pub mod selection;
pub mod storage;
pub mod table;

pub use clock::now_unix;
pub use error::HeartbeatError;
pub use heartbeat::{EntryView, Heartbeat, HeartbeatView, NodeHeartbeatData};
pub use metrics::{calculate_metrics, Metrics};
pub use rounds::{gossip_round, heartbeat_round, Outbound};
pub use storage::{setup_storage, setup_storage_at, Storage};
