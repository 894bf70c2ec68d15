//! A small Babel (RFC 8966) toolkit: the TLV codec, packet framing, the
//! neighbour table, the routing table and the protocol engine of a node,
//! each with a machine-checked contract.
//!
//! Main entry points:
//! - [`BabelNode`]: the protocol engine. It takes the decisions and keeps
//!   the state; its owner does the I/O.
//! - [`BabelConfig`]: the configuration of a [`BabelNode`].
//!
//! The lower layers stand on their own:
//! - [`tlv`]: reading and writing TLVs, with [`format`] as their model
//! - [`packet`]: the packet header around a list of TLVs
//! - [`neighbor`]: neighbour tracking and reachability
//! - [`routing`]: the routing table and route selection

pub mod addr;
pub mod event;
pub mod format;
pub mod neighbor;
pub mod node;
pub mod packet;
pub mod roundtrip;
pub mod routing;
pub mod tlv;
pub mod wire;

pub use crate::addr::{IpAddr, SocketAddr};
pub use crate::event::Event;
pub use crate::neighbor::{Neighbor, NeighborTable};
pub use crate::node::{AdvertisedPrefix, BabelConfig, BabelNode};
pub use crate::packet::{Packet, BABEL_PORT, MULTICAST_V4_ADDR, MULTICAST_V6_ADDR};
pub use crate::routing::{Route, RouteKey, RoutingTable};
pub use crate::tlv::{Cursor, SubTlv, Tlv};
