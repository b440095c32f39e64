//! Peer management for an Ethereum consensus-layer node: a peer database, expiring
//! timer sets, a reputation policy and the manager that ties them together.

pub mod expiring_set;
pub mod manager;
pub mod peerdb;
pub mod queue;
pub mod reputation;
pub mod types;

pub use expiring_set::{Entry, ExpiringSet};
pub use manager::{DiscoveryEvent, DiscoveryRequest, PeerManager, PeerManagerEvent};
pub use peerdb::{PeerDB, PeerInfo, PeerRecord};
pub use reputation::{PeerAction, Protocol, RPCError, RPCResponseErrorCode};
pub use types::{
    AddrComponent, ConnectionDirection, IdentifyInfo, IpAddr, MetaData, Multiaddr, PeerConnectionStatus, PeerId,
    SocketAddr,
};
