use vstd::prelude::*;

use crate::distributed::error::{distributed_error_text, DistributedTensorError};
use crate::distributed::policy::{DistributedExecutorCapabilities, RemotePeerDescriptor};
use crate::distributed::swarm::{
    copy_descriptor,
    descriptor_view,
    peer_record_view,
    peer_record_views,
    upserted,
    PeerRecordView,
    SwarmPeerTable,
};
use crate::distributed::transport::{
    TransportCapabilitiesAnnouncement,
    TransportPeerRecord,
    DISTRIBUTED_TRANSPORT_PROTOCOL_NAME,
    DISTRIBUTED_TRANSPORT_PROTOCOL_VERSION,
};
use crate::tensor::backend::{
    backend_selectable,
    is_backend_selectable,
    parse_backend_kind,
    TensorBackendKind,
};
use crate::text::{
    append_decimal,
    normalize_key_seq,
    chars_of,
    decimal_seq,
    push_all,
    string_from_chars,
    trim_chars,
    trim_end_char,
    trim_end_char_seq,
    trim_seq,
};

verus! {

/// A peer to contact when joining a swarm.
#[derive(Debug, Clone, PartialEq, Eq)]
pub struct Libp2pBootstrapPeer {
    pub peer_id: String,
    pub address: String,
}

/// How a libp2p transport joins its swarm.
#[derive(Debug, Clone, PartialEq, Eq)]
pub struct Libp2pTransportConfig {
    pub listen_addresses: Vec<String>,
    pub bootstrap_peers: Vec<Libp2pBootstrapPeer>,
    pub swarm_name: String,
    pub swarm_version: String,
    pub protocol_name: String,
    pub request_timeout_ms: u64,
}

/// What `multiaddr` answers when parsing `text` as a `Multiaddr`: success, or the
/// text of its error.
pub uninterp spec fn multiaddr_parse_outcome(text: Seq<char>) -> Result<(), Seq<char>>;

/// What `libp2p-identity` answers when parsing `text` as a `PeerId`: success, or the
/// text of its error.
pub uninterp spec fn peer_id_parse_outcome(text: Seq<char>) -> Result<(), Seq<char>>;

/// Calls `<libp2p::Multiaddr as FromStr>::from_str` on `text` and keeps only whether it
/// parsed, or the `Display` text of the error. The contract names the outcome and adds
/// what the source of `Multiaddr::from_str` shows: a text that parses is empty or starts
/// with `/`.
#[verifier::external_body]
fn parse_multiaddr(text: &str) -> (r: Result<(), String>)
    ensures
        match r {
            Ok(()) => multiaddr_parse_outcome(text@) == Ok::<(), Seq<char>>(()),
            Err(e) => multiaddr_parse_outcome(text@) == Err::<(), Seq<char>>(e@),
        },
        r is Ok ==> text@.len() == 0 || text@[0] == '/',
{
    match text.parse::<libp2p::Multiaddr>() {
        Ok(_) => Ok(()),
        Err(err) => Err(err.to_string()),
    }
}

/// Calls `<libp2p::PeerId as FromStr>::from_str` on `text` and keeps only whether it
/// parsed, or the `Display` text of the error; the contract names that outcome.
#[verifier::external_body]
fn parse_peer_id(text: &str) -> (r: Result<(), String>)
    ensures
        match r {
            Ok(()) => peer_id_parse_outcome(text@) == Ok::<(), Seq<char>>(()),
            Err(e) => peer_id_parse_outcome(text@) == Err::<(), Seq<char>>(e@),
        },
{
    match text.parse::<libp2p::PeerId>() {
        Ok(_) => Ok(()),
        Err(err) => Err(err.to_string()),
    }
}

pub open spec fn string_seqs(v: Seq<String>) -> Seq<Seq<char>> {
    v.map_values(|s: String| s@)
}

/// A text that a multiaddr can be parsed from at all: empty, or starting with `/`.
pub open spec fn multiaddr_shaped(text: Seq<char>) -> bool {
    text.len() == 0 || text[0] == '/'
}

/// The first listen address that does not parse, with its message.
pub open spec fn listen_addresses_check(addrs: Seq<Seq<char>>) -> Result<(), Seq<char>>
    decreases addrs.len(),
{
    if addrs.len() == 0 {
        Ok(())
    } else {
        match multiaddr_parse_outcome(addrs[0]) {
            Err(e) => Err("invalid libp2p listen address "@ + addrs[0] + ": "@ + e),
            Ok(()) => listen_addresses_check(addrs.drop_first()),
        }
    }
}

/// The first bootstrap peer whose address, or else whose id, does not parse, with its message.
pub open spec fn bootstrap_peers_check(peers: Seq<Libp2pBootstrapPeer>) -> Result<(), Seq<char>>
    decreases peers.len(),
{
    if peers.len() == 0 {
        Ok(())
    } else {
        match multiaddr_parse_outcome(peers[0].address@) {
            Err(e) => Err("invalid libp2p bootstrap address "@ + peers[0].address@ + ": "@ + e),
            Ok(()) => match peer_id_parse_outcome(peers[0].peer_id@) {
                Err(e) => Err("invalid libp2p bootstrap peer id "@ + peers[0].peer_id@ + ": "@ + e),
                Ok(()) => bootstrap_peers_check(peers.drop_first()),
            },
        }
    }
}

impl Libp2pTransportConfig {
    pub open spec fn spec_swarm_identifier(&self) -> Seq<char> {
        trim_seq(self.swarm_name@) + "@"@ + trim_seq(self.swarm_version@)
    }

    pub open spec fn spec_scoped_protocol_name(&self) -> Seq<char> {
        trim_end_char_seq(self.protocol_name@, '/') + "/"@ + trim_seq(self.swarm_name@) + "/"@
            + trim_seq(self.swarm_version@)
    }

    pub open spec fn spec_local_discovery_namespace(&self) -> Seq<char> {
        "/neuralnet/swarm/"@ + trim_seq(self.swarm_name@) + "/"@ + trim_seq(self.swarm_version@)
    }

    /// The outcome of validation, as the message of the first problem found.
    pub open spec fn spec_validation(&self) -> Result<(), Seq<char>> {
        if trim_seq(self.swarm_name@).len() == 0 {
            Err("libp2p swarm_name must not be empty"@)
        } else if trim_seq(self.swarm_version@).len() == 0 {
            Err("libp2p swarm_version must not be empty"@)
        } else if trim_seq(self.protocol_name@).len() == 0 {
            Err("libp2p protocol name must not be empty"@)
        } else {
            match listen_addresses_check(string_seqs(self.listen_addresses@)) {
                Err(e) => Err(e),
                Ok(()) => bootstrap_peers_check(self.bootstrap_peers@),
            }
        }
    }

    /// `name@version`, both trimmed.
    pub fn swarm_identifier(&self) -> (r: String)
        ensures
            r@ == self.spec_swarm_identifier(),
    {
        let mut out = trim_chars(&chars_of(self.swarm_name.as_str()));
        push_all(&mut out, &chars_of("@"));
        push_all(&mut out, &trim_chars(&chars_of(self.swarm_version.as_str())));
        string_from_chars(&out)
    }

    /// The protocol name scoped by swarm name and version.
    pub fn scoped_protocol_name(&self) -> (r: String)
        ensures
            r@ == self.spec_scoped_protocol_name(),
    {
        let mut out = trim_end_char(&chars_of(self.protocol_name.as_str()), '/');
        push_all(&mut out, &chars_of("/"));
        push_all(&mut out, &trim_chars(&chars_of(self.swarm_name.as_str())));
        push_all(&mut out, &chars_of("/"));
        push_all(&mut out, &trim_chars(&chars_of(self.swarm_version.as_str())));
        string_from_chars(&out)
    }

    /// The namespace under which peers of this swarm discover each other.
    pub fn local_discovery_namespace(&self) -> (r: String)
        ensures
            r@ == self.spec_local_discovery_namespace(),
    {
        let mut out = chars_of("/neuralnet/swarm/");
        push_all(&mut out, &trim_chars(&chars_of(self.swarm_name.as_str())));
        push_all(&mut out, &chars_of("/"));
        push_all(&mut out, &trim_chars(&chars_of(self.swarm_version.as_str())));
        string_from_chars(&out)
    }

    /// Checks names, listen addresses and bootstrap peers, in that order.
    pub fn validate(&self) -> (r: Result<(), DistributedTensorError>)
        ensures
            match r {
                Ok(()) => self.spec_validation() is Ok,
                Err(DistributedTensorError::Transport(m)) => self.spec_validation() == Err::<
                    (),
                    Seq<char>,
                >(m@),
                Err(_) => false,
            },
            r is Ok ==> forall|i: int|
                0 <= i < self.listen_addresses@.len() ==> #[trigger] multiaddr_shaped(
                    self.listen_addresses@[i]@,
                ),
            r is Ok ==> forall|i: int|
                0 <= i < self.bootstrap_peers@.len() ==> #[trigger] multiaddr_shaped(
                    self.bootstrap_peers@[i].address@,
                ),
    {
        if trim_chars(&chars_of(self.swarm_name.as_str())).len() == 0 {
            return Err(
                DistributedTensorError::Transport("libp2p swarm_name must not be empty".to_string()),
            );
        }
        if trim_chars(&chars_of(self.swarm_version.as_str())).len() == 0 {
            return Err(
                DistributedTensorError::Transport(
                    "libp2p swarm_version must not be empty".to_string(),
                ),
            );
        }
        if trim_chars(&chars_of(self.protocol_name.as_str())).len() == 0 {
            return Err(
                DistributedTensorError::Transport(
                    "libp2p protocol name must not be empty".to_string(),
                ),
            );
        }
        let ghost addrs = string_seqs(self.listen_addresses@);
        let mut i: usize = 0;
        assert(addrs.skip(0) == addrs);
        while i < self.listen_addresses.len()
            invariant
                i <= self.listen_addresses.len(),
                addrs == string_seqs(self.listen_addresses@),
                trim_seq(self.swarm_name@).len() != 0,
                trim_seq(self.swarm_version@).len() != 0,
                trim_seq(self.protocol_name@).len() != 0,
                listen_addresses_check(addrs) == listen_addresses_check(addrs.skip(i as int)),
                forall|k: int| 0 <= k < i ==> #[trigger] multiaddr_shaped(self.listen_addresses@[k]@),
            decreases self.listen_addresses.len() - i,
        {
            let address = &self.listen_addresses[i];
            assert(addrs.skip(i as int)[0] == address@);
            match parse_multiaddr(address.as_str()) {
                Err(e) => {
                    let mut m = "invalid libp2p listen address ".to_string();
                    m.append(address.as_str());
                    m.append(": ");
                    m.append(e.as_str());
                    return Err(DistributedTensorError::Transport(m));
                },
                Ok(()) => {},
            }
            assert(addrs.skip(i as int).drop_first() == addrs.skip(i + 1));
            i = i + 1;
        }
        let ghost peers = self.bootstrap_peers@;
        let mut j: usize = 0;
        assert(peers.skip(0) == peers);
        while j < self.bootstrap_peers.len()
            invariant
                j <= self.bootstrap_peers.len(),
                peers == self.bootstrap_peers@,
                trim_seq(self.swarm_name@).len() != 0,
                trim_seq(self.swarm_version@).len() != 0,
                trim_seq(self.protocol_name@).len() != 0,
                listen_addresses_check(string_seqs(self.listen_addresses@)) is Ok,
                bootstrap_peers_check(peers) == bootstrap_peers_check(peers.skip(j as int)),
                forall|k: int|
                    0 <= k < self.listen_addresses@.len() ==> #[trigger] multiaddr_shaped(
                        self.listen_addresses@[k]@,
                    ),
                forall|k: int| 0 <= k < j ==> #[trigger] multiaddr_shaped(self.bootstrap_peers@[k].address@),
            decreases self.bootstrap_peers.len() - j,
        {
            let peer = &self.bootstrap_peers[j];
            assert(peers.skip(j as int)[0] == *peer);
            match parse_multiaddr(peer.address.as_str()) {
                Err(e) => {
                    let mut m = "invalid libp2p bootstrap address ".to_string();
                    m.append(peer.address.as_str());
                    m.append(": ");
                    m.append(e.as_str());
                    return Err(DistributedTensorError::Transport(m));
                },
                Ok(()) => {},
            }
            match parse_peer_id(peer.peer_id.as_str()) {
                Err(e) => {
                    let mut m = "invalid libp2p bootstrap peer id ".to_string();
                    m.append(peer.peer_id.as_str());
                    m.append(": ");
                    m.append(e.as_str());
                    return Err(DistributedTensorError::Transport(m));
                },
                Ok(()) => {},
            }
            assert(peers.skip(j as int).drop_first() == peers.skip(j + 1));
            j = j + 1;
        }
        Ok(())
    }
}

/// The default transport configuration: one QUIC listen address, no bootstrap peers,
/// swarm `neuralnet-distributed@v1`, the distributed protocol name and a 2 s timeout.
pub open spec fn is_default_transport_config(c: Libp2pTransportConfig) -> bool {
    &&& string_seqs(c.listen_addresses@) == seq!["/ip4/0.0.0.0/udp/9000/quic-v1"@]
    &&& c.bootstrap_peers@.len() == 0
    &&& c.swarm_name@ == "neuralnet-distributed"@
    &&& c.swarm_version@ == "v1"@
    &&& c.protocol_name@ == DISTRIBUTED_TRANSPORT_PROTOCOL_NAME@
    &&& c.request_timeout_ms == 2000
}

impl Default for Libp2pTransportConfig {
    fn default() -> (r: Self)
        ensures
            is_default_transport_config(r),
    {
        let mut listen: Vec<String> = Vec::new();
        listen.push("/ip4/0.0.0.0/udp/9000/quic-v1".to_string());
        assert(string_seqs(listen@) =~= seq!["/ip4/0.0.0.0/udp/9000/quic-v1"@]);
        Self {
            listen_addresses: listen,
            bootstrap_peers: Vec::new(),
            swarm_name: "neuralnet-distributed".to_string(),
            swarm_version: "v1".to_string(),
            protocol_name: DISTRIBUTED_TRANSPORT_PROTOCOL_NAME.to_string(),
            request_timeout_ms: 2_000,
        }
    }
}

/// What the swarm loop reads of an incoming payload. Job requests and the payloads that the
/// loop does not handle carry tensors; the loop needs only their kind, and for the latter the
/// debug text of the payload.
#[derive(Debug, Clone)]
pub enum SwarmRequest {
    HealthCheck,
    PeerDiscoveryRequest,
    CapabilitiesAnnouncement(TransportCapabilitiesAnnouncement),
    JobRequest,
    Ack { correlation_id: u128 },
    Error { message: String },
    Unhandled { payload_debug: String },
}

/// What the swarm loop answers. `RunJob` asks the caller to execute the job request and
/// answer with its result, or with the error of `job_failure_message`.
#[derive(Debug)]
pub enum SwarmReply {
    HealthStatus { available: bool },
    PeerDiscoveryResponse { peers: Vec<TransportPeerRecord> },
    Ack { correlation_id: u128 },
    Error { message: String },
    RunJob,
}

/// Where a message to a peer goes.
#[derive(Debug, Clone, Copy, PartialEq, Eq, Structural)]
pub enum SwarmRoute {
    /// To this transport's own loop.
    Local,
    /// To the loop that the peer registered in this swarm.
    Registered,
}

/// The record of a bootstrap peer: reachable only once heard from.
pub open spec fn bootstrap_record_view(p: Libp2pBootstrapPeer) -> PeerRecordView {
    ((p.peer_id@, "unknown"@, None, "libp2p"@), seq![p.address@], None, None, false)
}

pub open spec fn bootstrap_record_views(peers: Seq<Libp2pBootstrapPeer>) -> Seq<PeerRecordView> {
    peers.map_values(|p: Libp2pBootstrapPeer| bootstrap_record_view(p))
}

/// The record of a peer that announced its capabilities.
pub open spec fn announced_record_view(d: RemotePeerDescriptor) -> PeerRecordView {
    (descriptor_view(d), Seq::empty(), None, None, true)
}

/// The record of a peer registered in the same swarm on this machine.
pub open spec fn local_swarm_record_view(peer_id: Seq<char>, namespace: Seq<char>) -> PeerRecordView {
    ((peer_id, "local"@, None, "libp2p-local"@), seq![namespace], Some(0u64), None, true)
}

/// The records of the other peers registered in the same swarm, in order.
pub open spec fn local_swarm_record_views(ids: Seq<Seq<char>>, local_id: Seq<char>, namespace: Seq<
    char,
>) -> Seq<PeerRecordView>
    decreases ids.len(),
{
    if ids.len() == 0 {
        Seq::empty()
    } else {
        let prev = local_swarm_record_views(ids.drop_last(), local_id, namespace);
        if ids.last() == local_id {
            prev
        } else {
            prev.push(local_swarm_record_view(ids.last(), namespace))
        }
    }
}

pub open spec fn version_mismatch_text(swarm_id: Seq<char>, got: u16) -> Seq<char> {
    "protocol version mismatch in swarm "@ + swarm_id + ": expected "@ + decimal_seq(
        DISTRIBUTED_TRANSPORT_PROTOCOL_VERSION as nat,
    ) + ", got "@ + decimal_seq(got as nat)
}

pub open spec fn scope_mismatch_text(swarm_id: Seq<char>) -> Seq<char> {
    "capabilities announcement ignored: swarm scope mismatch for "@ + swarm_id
}

pub open spec fn unhandled_payload_text(swarm_id: Seq<char>, payload_debug: Seq<char>) -> Seq<char> {
    "swarm "@ + swarm_id + " cannot handle payload in sync loop: "@ + payload_debug
}

pub open spec fn no_reactor_text(swarm_id: Seq<char>, peer_id: Seq<char>) -> Seq<char> {
    "libp2p swarm loop "@ + swarm_id + " has no remote reactor attached for peer "@ + peer_id
}

/// One turn of the swarm loop: the reply to a request that came with `message_id` and
/// `protocol_version`, and how the peers it knows change.
pub open spec fn swarm_loop_step(
    config: Libp2pTransportConfig,
    known_before: Seq<PeerRecordView>,
    known_after: Seq<PeerRecordView>,
    message_id: u128,
    protocol_version: u16,
    request: SwarmRequest,
    r: SwarmReply,
) -> bool {
    let id = config.spec_swarm_identifier();
    if protocol_version != DISTRIBUTED_TRANSPORT_PROTOCOL_VERSION {
        &&& r matches SwarmReply::Error { message } && message@ == version_mismatch_text(id, protocol_version)
        &&& known_after == known_before
    } else {
        match request {
            SwarmRequest::HealthCheck => r matches SwarmReply::HealthStatus { available } && available
                && known_after == known_before,
            SwarmRequest::PeerDiscoveryRequest => r matches SwarmReply::PeerDiscoveryResponse { peers }
                && peer_record_views(peers@) == bootstrap_record_views(config.bootstrap_peers@)
                + known_before && known_after == known_before,
            SwarmRequest::CapabilitiesAnnouncement(a) => if a.protocol_name@
                == config.spec_scoped_protocol_name() {
                &&& r matches SwarmReply::Ack { correlation_id } && correlation_id == message_id
                &&& known_after == upserted(known_before, announced_record_view(a.peer))
            } else {
                &&& r matches SwarmReply::Error { message } && message@ == scope_mismatch_text(id)
                &&& known_after == known_before
            },
            SwarmRequest::JobRequest => r matches SwarmReply::RunJob && known_after == known_before,
            SwarmRequest::Ack { correlation_id: c } => r matches SwarmReply::Ack { correlation_id } && correlation_id == c
                && known_after == known_before,
            SwarmRequest::Error { message: m } => r matches SwarmReply::Error { message } && message == m
                && known_after == known_before,
            SwarmRequest::Unhandled { payload_debug } => r matches SwarmReply::Error { message }
                && message@ == unhandled_payload_text(id, payload_debug@)
                && known_after == known_before,
        }
    }
}

/// A reply of the swarm loop, addressed back to the peer that sent the request.
#[derive(Debug)]
pub struct SwarmReplyMessage {
    pub message_id: u128,
    pub correlation_id: Option<u128>,
    pub source_peer_id: String,
    pub target_peer_id: Option<String>,
    pub protocol_version: u16,
    pub payload: SwarmReply,
}

/// The message of a job that failed to execute.
pub fn job_failure_message(err: &DistributedTensorError) -> (r: String)
    ensures
        r@ == "distributed job execution failed: "@ + distributed_error_text(*err),
{
    let mut out = "distributed job execution failed: ".to_string();
    let m = err.message();
    out.append(m.as_str());
    out
}

/// A libp2p transport's own state: its peer, its configuration and the peers that have
/// announced themselves to its swarm loop.
#[derive(Debug)]
pub struct Libp2pTransport {
    local_peer: RemotePeerDescriptor,
    config: Libp2pTransportConfig,
    known_peers: SwarmPeerTable,
}

impl Libp2pTransport {
    pub closed spec fn spec_local_peer(&self) -> RemotePeerDescriptor {
        self.local_peer
    }

    pub closed spec fn spec_config(&self) -> Libp2pTransportConfig {
        self.config
    }

    /// The records of the peers that announced themselves, in the order first heard.
    pub closed spec fn known(&self) -> Seq<PeerRecordView> {
        self.known_peers.records()
    }

    /// A transport for `local_peer`, once the configuration is valid.
    pub fn new(local_peer: RemotePeerDescriptor, config: Libp2pTransportConfig) -> (r: Result<
        Self,
        DistributedTensorError,
    >)
        ensures
            match r {
                Ok(t) => config.spec_validation() is Ok && t.spec_config() == config
                    && t.spec_local_peer() == local_peer && t.known().len() == 0,
                Err(DistributedTensorError::Transport(m)) => config.spec_validation() == Err::<
                    (),
                    Seq<char>,
                >(m@),
                Err(_) => false,
            },
    {
        config.validate()?;
        Ok(Self { local_peer, config, known_peers: SwarmPeerTable::new() })
    }

    pub fn config(&self) -> (r: &Libp2pTransportConfig)
        ensures
            *r == self.spec_config(),
    {
        &self.config
    }

    pub fn local_peer(&self) -> (r: &RemotePeerDescriptor)
        ensures
            *r == self.spec_local_peer(),
    {
        &self.local_peer
    }

    /// One record per bootstrap peer, in the configured order.
    pub fn bootstrap_peer_records(&self) -> (r: Vec<TransportPeerRecord>)
        ensures
            peer_record_views(r@) == bootstrap_record_views(self.spec_config().bootstrap_peers@),
    {
        proof {
            reveal_strlit("unknown");
            reveal_strlit("libp2p");
        }
        let peers = &self.config.bootstrap_peers;
        let mut out: Vec<TransportPeerRecord> = Vec::new();
        let mut i: usize = 0;
        while i < peers.len()
            invariant
                i <= peers.len(),
                out@.len() == i,
                forall|j: int|
                    0 <= j < i ==> #[trigger] peer_record_view(out@[j]) == bootstrap_record_view(
                        peers@[j],
                    ),
            decreases peers.len() - i,
        {
            let mut addresses: Vec<String> = Vec::new();
            addresses.push(peers[i].address.clone());
            let record = TransportPeerRecord {
                descriptor: RemotePeerDescriptor {
                    peer_id: peers[i].peer_id.clone(),
                    platform: "unknown".to_string(),
                    accelerator: None,
                    transport: "libp2p".to_string(),
                },
                addresses,
                average_rtt_ms: None,
                last_seen_unix_ms: None,
                is_reachable: false,
            };
            assert(string_seqs(record.addresses@) =~= seq![peers@[i as int].address@]);
            out.push(record);
            i = i + 1;
        }
        assert(peer_record_views(out@) =~= bootstrap_record_views(peers@));
        out
    }

    pub fn swarm_identifier(&self) -> (r: String)
        ensures
            r@ == self.spec_config().spec_swarm_identifier(),
    {
        self.config.swarm_identifier()
    }

    pub fn discovery_namespace(&self) -> (r: String)
        ensures
            r@ == self.spec_config().spec_local_discovery_namespace(),
    {
        self.config.local_discovery_namespace()
    }

    pub fn protocol_scope(&self) -> (r: String)
        ensures
            r@ == self.spec_config().spec_scoped_protocol_name(),
    {
        self.config.scoped_protocol_name()
    }

    /// Puts in the record of a peer, replacing the record of the same peer id.
    pub fn upsert_known_peer(&mut self, record: TransportPeerRecord)
        ensures
            final(self).known() == upserted(old(self).known(), peer_record_view(record)),
            final(self).spec_config() == old(self).spec_config(),
            final(self).spec_local_peer() == old(self).spec_local_peer(),
    {
        self.known_peers.upsert(record);
    }

    /// Copies of the records of the peers that announced themselves.
    pub fn snapshot_known_peers(&self) -> (r: Vec<TransportPeerRecord>)
        ensures
            peer_record_views(r@) == self.known(),
    {
        self.known_peers.snapshot()
    }

    /// The announcement of this peer's capabilities, scoped to its swarm.
    pub fn capabilities_announcement(&self, capabilities: DistributedExecutorCapabilities) -> (r:
        TransportCapabilitiesAnnouncement)
        ensures
            descriptor_view(r.peer) == descriptor_view(self.spec_local_peer()),
            r.executor == capabilities,
            r.protocol_name@ == self.spec_config().spec_scoped_protocol_name(),
            r.protocol_version == DISTRIBUTED_TRANSPORT_PROTOCOL_VERSION,
    {
        TransportCapabilitiesAnnouncement {
            peer: copy_descriptor(&self.local_peer),
            executor: capabilities,
            protocol_name: self.config.scoped_protocol_name(),
            protocol_version: DISTRIBUTED_TRANSPORT_PROTOCOL_VERSION,
        }
    }

    /// Records this peer as reachable at its listen addresses, as an announcement does.
    pub fn record_own_announcement(&mut self)
        ensures
            final(self).known() == upserted(
                old(self).known(),
                (
                    descriptor_view(old(self).spec_local_peer()),
                    string_seqs(old(self).spec_config().listen_addresses@),
                    Some(0u64),
                    None,
                    true,
                ),
            ),
            final(self).spec_config() == old(self).spec_config(),
            final(self).spec_local_peer() == old(self).spec_local_peer(),
    {
        let mut addresses: Vec<String> = Vec::new();
        let mut i: usize = 0;
        while i < self.config.listen_addresses.len()
            invariant
                i <= self.config.listen_addresses.len(),
                addresses@.len() == i,
                forall|j: int|
                    0 <= j < i ==> #[trigger] addresses@[j]@ == self.config.listen_addresses@[j]@,
            decreases self.config.listen_addresses.len() - i,
        {
            addresses.push(self.config.listen_addresses[i].clone());
            i = i + 1;
        }
        assert(string_seqs(addresses@) =~= string_seqs(self.config.listen_addresses@));
        let record = TransportPeerRecord {
            descriptor: copy_descriptor(&self.local_peer),
            addresses,
            average_rtt_ms: Some(0),
            last_seen_unix_ms: None,
            is_reachable: true,
        };
        self.known_peers.upsert(record);
    }

    /// The peers this transport can discover: the bootstrap peers, the other peers
    /// registered in its swarm on this machine (`swarm_peer_ids`), then the peers that
    /// announced themselves.
    pub fn discovered_peers(&self, swarm_peer_ids: &Vec<String>) -> (r: Vec<TransportPeerRecord>)
        ensures
            peer_record_views(r@) == bootstrap_record_views(self.spec_config().bootstrap_peers@)
                + local_swarm_record_views(
                string_seqs(swarm_peer_ids@),
                self.spec_local_peer().peer_id@,
                self.spec_config().spec_local_discovery_namespace(),
            ) + self.known(),
    {
        proof {
            reveal_strlit("local");
            reveal_strlit("libp2p-local");
        }
        let mut out = self.bootstrap_peer_records();
        let namespace = self.discovery_namespace();
        let ghost ids = string_seqs(swarm_peer_ids@);
        let ghost boot = peer_record_views(out@);
        let ghost lid = self.local_peer.peer_id@;
        let mut i: usize = 0;
        while i < swarm_peer_ids.len()
            invariant
                i <= swarm_peer_ids.len(),
                ids == string_seqs(swarm_peer_ids@),
                lid == self.spec_local_peer().peer_id@,
                namespace@ == self.spec_config().spec_local_discovery_namespace(),
                peer_record_views(out@) == boot + local_swarm_record_views(
                    ids.take(i as int),
                    lid,
                    namespace@,
                ),
            decreases swarm_peer_ids.len() - i,
        {
            let ghost before = out@;
            proof {
                assert(ids.take(i + 1).drop_last() =~= ids.take(i as int));
                assert(ids.take(i + 1).last() == swarm_peer_ids@[i as int]@);
            }
            if swarm_peer_ids[i] != self.local_peer.peer_id {
                let mut addresses: Vec<String> = Vec::new();
                addresses.push(namespace.clone());
                let record = TransportPeerRecord {
                    descriptor: RemotePeerDescriptor {
                        peer_id: swarm_peer_ids[i].clone(),
                        platform: "local".to_string(),
                        accelerator: None,
                        transport: "libp2p-local".to_string(),
                    },
                    addresses,
                    average_rtt_ms: Some(0),
                    last_seen_unix_ms: None,
                    is_reachable: true,
                };
                assert(string_seqs(record.addresses@) =~= seq![namespace@]);
                out.push(record);
                assert(peer_record_views(out@) =~= peer_record_views(before).push(
                    local_swarm_record_view(swarm_peer_ids@[i as int]@, namespace@),
                ));
            }
            i = i + 1;
        }
        assert(ids.take(swarm_peer_ids.len() as int) =~= ids);
        let known = self.known_peers.snapshot();
        let ghost mid = out@;
        let mut k: usize = 0;
        let ghost kv = peer_record_views(known@);
        while k < known.len()
            invariant
                k <= known.len(),
                kv == peer_record_views(known@),
                peer_record_views(out@) == peer_record_views(mid) + kv.take(k as int),
            decreases known.len() - k,
        {
            let rec = copy_peer_record_of(&known, k);
            let ghost before = out@;
            out.push(rec);
            proof {
                assert(peer_record_views(out@) =~= peer_record_views(before).push(kv[k as int]));
                assert(kv.take(k + 1) =~= kv.take(k as int).push(kv[k as int]));
                assert(peer_record_views(out@) =~= peer_record_views(mid) + kv.take(k + 1));
            }
            k = k + 1;
        }
        assert(kv.take(known.len() as int) =~= kv);
        out
    }

    /// Where a message to `peer_id` goes: to this transport's own loop, to the loop the peer
    /// registered in this swarm (`registered`), or nowhere.
    pub fn route_for(&self, peer_id: &str, registered: bool) -> (r: Result<SwarmRoute, DistributedTensorError>)
        ensures
            peer_id@ == self.spec_local_peer().peer_id@ ==> r == Ok::<SwarmRoute, DistributedTensorError>(SwarmRoute::Local),
            peer_id@ != self.spec_local_peer().peer_id@ && registered ==> r == Ok::<SwarmRoute, DistributedTensorError>(SwarmRoute::Registered),
            peer_id@ != self.spec_local_peer().peer_id@ && !registered ==> (r matches Err(
                DistributedTensorError::Transport(m),
            ) && m@ == no_reactor_text(self.spec_config().spec_swarm_identifier(), peer_id@)),
    {
        let target = peer_id.to_string();
        if target == self.local_peer.peer_id {
            return Ok(SwarmRoute::Local);
        }
        if registered {
            return Ok(SwarmRoute::Registered);
        }
        let mut m = "libp2p swarm loop ".to_string();
        let id = self.config.swarm_identifier();
        m.append(id.as_str());
        m.append(" has no remote reactor attached for peer ");
        m.append(peer_id);
        Err(DistributedTensorError::Transport(m))
    }

    /// Handles one incoming request as an iteration of the swarm loop. A request of another
    /// protocol version is answered with an error; an announcement scoped to this swarm records
    /// the peer as reachable; nothing else changes the known peers.
    pub fn run_swarm_loop_once(&mut self, message_id: u128, protocol_version: u16, request: SwarmRequest) -> (r: SwarmReply)
        ensures
            final(self).spec_config() == old(self).spec_config(),
            final(self).spec_local_peer() == old(self).spec_local_peer(),
            swarm_loop_step(
                old(self).spec_config(),
                old(self).known(),
                final(self).known(),
                message_id,
                protocol_version,
                request,
                r,
            ),
    {
        let id = self.config.swarm_identifier();
        if protocol_version != DISTRIBUTED_TRANSPORT_PROTOCOL_VERSION {
            let mut m = "protocol version mismatch in swarm ".to_string();
            m.append(id.as_str());
            m.append(": expected ");
            append_decimal(&mut m, DISTRIBUTED_TRANSPORT_PROTOCOL_VERSION as u64);
            m.append(", got ");
            append_decimal(&mut m, protocol_version as u64);
            return SwarmReply::Error { message: m };
        }
        match request {
            SwarmRequest::HealthCheck => SwarmReply::HealthStatus { available: true },
            SwarmRequest::PeerDiscoveryRequest => {
                let mut peers = self.bootstrap_peer_records();
                let known = self.known_peers.snapshot();
                let ghost mid = peers@;
                let ghost kv = peer_record_views(known@);
                let mut k: usize = 0;
                while k < known.len()
                    invariant
                        k <= known.len(),
                        kv == peer_record_views(known@),
                        peer_record_views(peers@) == peer_record_views(mid) + kv.take(k as int),
                    decreases known.len() - k,
                {
                    let rec = copy_peer_record_of(&known, k);
                    let ghost before = peers@;
                    peers.push(rec);
                    proof {
                        assert(peer_record_views(peers@) =~= peer_record_views(before).push(kv[k as int]));
                        assert(kv.take(k + 1) =~= kv.take(k as int).push(kv[k as int]));
                        assert(peer_record_views(peers@) =~= peer_record_views(mid) + kv.take(k + 1));
                    }
                    k = k + 1;
                }
                assert(kv.take(known.len() as int) =~= kv);
                SwarmReply::PeerDiscoveryResponse { peers }
            },
            SwarmRequest::CapabilitiesAnnouncement(announcement) => {
                let scope = self.config.scoped_protocol_name();
                if announcement.protocol_name == scope {
                    let record = TransportPeerRecord {
                        descriptor: announcement.peer,
                        addresses: Vec::new(),
                        average_rtt_ms: None,
                        last_seen_unix_ms: None,
                        is_reachable: true,
                    };
                    assert(string_seqs(record.addresses@) =~= Seq::<Seq<char>>::empty());
                    self.known_peers.upsert(record);
                    SwarmReply::Ack { correlation_id: message_id }
                } else {
                    let mut m = "capabilities announcement ignored: swarm scope mismatch for ".to_string();
                    m.append(id.as_str());
                    SwarmReply::Error { message: m }
                }
            },
            SwarmRequest::JobRequest => SwarmReply::RunJob,
            SwarmRequest::Ack { correlation_id } => SwarmReply::Ack { correlation_id },
            SwarmRequest::Error { message } => SwarmReply::Error { message },
            SwarmRequest::Unhandled { payload_debug } => {
                let mut m = "swarm ".to_string();
                m.append(id.as_str());
                m.append(" cannot handle payload in sync loop: ");
                m.append(payload_debug.as_str());
                SwarmReply::Error { message: m }
            },
        }
    }

    /// Answers a request that `source` sent with `incoming_message_id` and
    /// `incoming_protocol_version`: the reply of one turn of the swarm loop, from this peer
    /// back to `source`, correlated with the request and carrying `reply_message_id`.
    pub fn process_swarm_message(
        &mut self,
        source: &RemotePeerDescriptor,
        incoming_message_id: u128,
        incoming_protocol_version: u16,
        request: SwarmRequest,
        reply_message_id: u128,
    ) -> (r: SwarmReplyMessage)
        ensures
            final(self).spec_config() == old(self).spec_config(),
            final(self).spec_local_peer() == old(self).spec_local_peer(),
            r.message_id == reply_message_id,
            r.correlation_id == Some(incoming_message_id),
            r.source_peer_id@ == old(self).spec_local_peer().peer_id@,
            r.target_peer_id matches Some(t) && t@ == source.peer_id@,
            r.protocol_version == DISTRIBUTED_TRANSPORT_PROTOCOL_VERSION,
            swarm_loop_step(
                old(self).spec_config(),
                old(self).known(),
                final(self).known(),
                incoming_message_id,
                incoming_protocol_version,
                request,
                r.payload,
            ),
    {
        let source_peer_id = self.local_peer.peer_id.clone();
        let payload = self.run_swarm_loop_once(incoming_message_id, incoming_protocol_version, request);
        SwarmReplyMessage {
            message_id: reply_message_id,
            correlation_id: Some(incoming_message_id),
            source_peer_id,
            target_peer_id: Some(source.peer_id.clone()),
            protocol_version: DISTRIBUTED_TRANSPORT_PROTOCOL_VERSION,
            payload,
        }
    }
}

/// A copy of the record at `k`.
fn copy_peer_record_of(records: &Vec<TransportPeerRecord>, k: usize) -> (r: TransportPeerRecord)
    requires
        k < records.len(),
    ensures
        peer_record_view(r) == peer_record_views(records@)[k as int],
{
    crate::distributed::swarm::copy_peer_record(&records[k])
}

/// The backend a distributed server runs on when none is configured: CUDA, then MLX, where
/// available, else the CPU.
pub open spec fn default_server_backend() -> TensorBackendKind {
    if backend_selectable(TensorBackendKind::Cuda) {
        TensorBackendKind::Cuda
    } else if backend_selectable(TensorBackendKind::Mlx) {
        TensorBackendKind::Mlx
    } else {
        TensorBackendKind::Cpu
    }
}

/// The backend a distributed server runs on: the configured one where it names an available
/// backend, else the default.
pub open spec fn selected_server_backend(configured: Option<Seq<char>>) -> TensorBackendKind {
    match configured {
        Some(text) => match parse_backend_kind(normalize_key_seq(text)) {
            Some(kind) if backend_selectable(kind) => kind,
            _ => default_server_backend(),
        },
        None => default_server_backend(),
    }
}

pub fn default_server_backend_kind() -> (r: TensorBackendKind)
    ensures
        r == default_server_backend(),
{
    if is_backend_selectable(TensorBackendKind::Cuda) {
        TensorBackendKind::Cuda
    } else if is_backend_selectable(TensorBackendKind::Mlx) {
        TensorBackendKind::Mlx
    } else {
        TensorBackendKind::Cpu
    }
}

/// Chooses the server backend from the configured setting
/// (`NEURALNET_DISTRIBUTED_SERVER_BACKEND`, then `NEURALNET_TENSOR_BACKEND`, then
/// `NEURALNET_BACKEND`, the first that is set).
pub fn selected_server_backend_kind(configured: Option<&str>) -> (r: TensorBackendKind)
    ensures
        r == selected_server_backend(
            match configured {
                Some(t) => Some(t@),
                None => None,
            },
        ),
{
    let candidate = match configured {
        Some(text) => TensorBackendKind::parse(text),
        None => None,
    };
    match candidate {
        Some(kind) => {
            if is_backend_selectable(kind) {
                kind
            } else {
                default_server_backend_kind()
            }
        },
        None => default_server_backend_kind(),
    }
}

} // verus!
