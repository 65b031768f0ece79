//! Membership, addressing and wire framing for a cluster of actor nodes.
//!
//! The crate holds the decisions of the cluster layer: how frames are cut from
//! a byte stream, how addresses of remote actors are written and compared, and
//! how the gossip and single-seed connectors react to membership events.
//! The actors that perform the resulting I/O live outside this crate.

pub mod socket_addr;
pub mod addr_repr;
pub mod addr_map;
pub mod wire;
pub mod codec;
pub mod remote;
pub mod connector_msgs;
pub mod gossip;
pub mod single_seed;
pub mod connector;
pub mod message;
pub mod cluster;
pub mod network;
pub mod protocols;
pub mod resolver;
pub mod serialization;
pub mod registry;

pub use crate::socket_addr::SocketAddr;
pub use crate::addr_repr::AddrRepresentation;
pub use crate::addr_map::AddrMap;
pub use crate::codec::{ConnectCodec, Frame, CodecError};
pub use crate::remote::{Node, RemoteAddr, AnyAddr};
pub use crate::connector_msgs::{
    ConnectorAction, GossipEvent, GossipMessage, GossipJoining, SingleSeedMembers, NodeResolving, NodeEvents,
};
pub use crate::gossip::{Gossip, GossipState};
pub use crate::single_seed::SingleSeed;
pub use crate::connector::{Connector, ConnectionProtocol};
pub use crate::message::{ClusterMessage, RemoteWrapper};
pub use crate::cluster::{
    Cluster, ClusterLog, ConnectionApproval, ConnectionApprovalResponse, ConnectToNode, GossipResponse,
};
pub use crate::network::{NetworkInterface, Route, StopDecision, InterfaceStep, ApprovalStep};
pub use crate::protocols::{ProtocolsReceiver, ProtocolBuffer, ProtocolOperation, ProtocolFinished, ReduceOperation};
pub use crate::resolver::{Connect, ResolverError};
pub use crate::serialization::{CustomSerializationError, DefaultSerialization, LocalMessage};
pub use crate::registry::{AddrResolver, AddrRequest, AddrResponse, NotAvailableError, ResponseDispatcher};
