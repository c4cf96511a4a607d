use vstd::prelude::*;

use crate::distributed::policy::{DistributedExecutorCapabilities, RemotePeerDescriptor};

verus! {

/// The version of the distributed transport protocol.
pub const DISTRIBUTED_TRANSPORT_PROTOCOL_VERSION: u16 = 1;

/// The name of the distributed transport protocol.
pub const DISTRIBUTED_TRANSPORT_PROTOCOL_NAME: &'static str = "/neuralnet/distributed/1.0.0";

/// How messages travel between peers.
#[derive(Debug, Clone, Copy, PartialEq, Eq, Structural)]
pub enum DistributedTransportKind {
    InProcess,
    Libp2p,
}

/// What is known of a peer.
#[derive(Debug, Clone, PartialEq, Eq)]
pub struct TransportPeerRecord {
    pub descriptor: RemotePeerDescriptor,
    pub addresses: Vec<String>,
    pub average_rtt_ms: Option<u64>,
    pub last_seen_unix_ms: Option<u64>,
    pub is_reachable: bool,
}

/// A peer announcing what its executor supports.
#[derive(Debug, Clone, PartialEq, Eq)]
pub struct TransportCapabilitiesAnnouncement {
    pub peer: RemotePeerDescriptor,
    pub executor: DistributedExecutorCapabilities,
    pub protocol_name: String,
    pub protocol_version: u16,
}

} // verus!
