//! Peer-to-peer overlay core: the client-side swarm orchestrator and the
//! relay directory service, with the shared peer store, the wire envelope
//! codec and the directory's HTTP read interface.
//!
//! All network I/O, transport construction and async scheduling live outside
//! this crate; the modules here hold the decisions those loops make, the data
//! they share and the byte formats they speak, each with its contract.

pub mod bootstrap;
pub mod directory;
pub mod envelope;
pub mod error;
pub mod orchestrator;
pub mod relay_loop;
pub mod store;

pub use directory::WebPeerInfo;
pub use directory::WebRelayInfo;
pub use envelope::NetworkEvent;
pub use error::BlueError;
pub use error::BlueResult;
pub use store::MemoryPeerStore;
pub use store::RelayInfo;
