use vstd::prelude::*;

use crate::distributed::libp2p::{is_default_transport_config, Libp2pTransportConfig};
use crate::distributed::policy::{
    is_default_capabilities,
    DistributedExecutorCapabilities,
    RemotePeerDescriptor,
};

verus! {

/// How a distributed server starts.
#[derive(Debug, Clone)]
pub struct DistributedServerConfig {
    pub local_peer: RemotePeerDescriptor,
    pub transport: Libp2pTransportConfig,
    pub capabilities: DistributedExecutorCapabilities,
    pub announce_capabilities: bool,
}

impl DistributedServerConfig {
    /// The given peer with the default transport and capabilities, announcing them.
    pub fn with_defaults(local_peer: RemotePeerDescriptor) -> (r: Self)
        ensures
            r.local_peer == local_peer,
            is_default_transport_config(r.transport),
            is_default_capabilities(r.capabilities),
            r.announce_capabilities,
    {
        Self {
            local_peer,
            transport: Libp2pTransportConfig::default(),
            capabilities: DistributedExecutorCapabilities::default(),
            announce_capabilities: true,
        }
    }
}

} // verus!
