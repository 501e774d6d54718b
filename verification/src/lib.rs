//! A peer-to-peer datagram relay core: append-only signed operation logs,
//! an author/topic index for sync discovery, a gossip wire codec, and the
//! decision logic of the two bridge pipelines between a local datagram
//! socket and a peer mesh.

pub mod bridge;
pub mod crypto;
pub mod operation;
pub mod store;
pub mod topic;
pub mod util;

pub use topic::Topic;
