use vstd::prelude::*;

use crate::distributed::error::DistributedTensorError;
use crate::distributed::libp2p::{string_seqs, Libp2pTransportConfig};
use crate::distributed::policy::{
    DistributedExecutionPolicy,
    DistributedFallbackPolicy,
    DistributedSyncMode,
    DistributedWorkUnitKind,
    RemotePeerDescriptor,
};
use crate::distributed::transport::DISTRIBUTED_TRANSPORT_PROTOCOL_NAME;
use crate::tensor::device::BackendTrainingCapabilities;
use crate::tensor::errors::TensorError;
use crate::text::{chars_of, trim_chars, trim_seq};

verus! {

/// The backend that runs tensor operations on a remote peer of the swarm.
#[derive(Debug, Clone, Copy)]
pub struct DistributedTensorBackend;

impl DistributedTensorBackend {
    pub fn name(&self) -> (r: &'static str)
        ensures
            r@ == "distributed"@,
    {
        "distributed"
    }

    /// Remote kernels compute; gradients and parameters stay on the host.
    pub fn training_capabilities(&self) -> (r: BackendTrainingCapabilities)
        ensures
            r.native_forward_execution,
            r.native_backward_execution,
            r.host_materializes_gradients,
            !r.device_resident_parameter_state,
            !r.device_side_parameter_updates,
    {
        BackendTrainingCapabilities::native_compute_host_training()
    }
}

pub fn distributed_backend() -> DistributedTensorBackend {
    DistributedTensorBackend
}

/// A setting that is set and not blank.
pub open spec fn filled(setting: Option<Seq<char>>) -> Option<Seq<char>> {
    match setting {
        Some(v) if trim_seq(v).len() > 0 => Some(v),
        _ => None,
    }
}

pub open spec fn opt_view(o: Option<&str>) -> Option<Seq<char>> {
    match o {
        Some(s) => Some(s@),
        None => None,
    }
}

fn is_filled(setting: Option<&str>) -> (r: bool)
    ensures
        r == filled(opt_view(setting)) is Some,
{
    match setting {
        Some(v) => trim_chars(&chars_of(v)).len() > 0,
        None => false,
    }
}

fn opt_string(o: Option<&str>) -> (r: Option<String>)
    ensures
        match r {
            Some(s) => opt_view(o) == Some(s@),
            None => o is None,
        },
{
    match o {
        Some(s) => Some(s.to_string()),
        None => None,
    }
}

/// This process as a peer of the distributed backend: the configured peer id
/// (`NEURALNET_DISTRIBUTED_LOCAL_PEER`) unless blank, else `neuralnet-local`; the configured
/// platform, else the operating system; the configured accelerator.
pub fn distributed_local_peer(
    peer_setting: Option<&str>,
    platform_setting: Option<&str>,
    operating_system: &str,
    accelerator_setting: Option<&str>,
) -> (r: RemotePeerDescriptor)
    ensures
        r.peer_id@ == match filled(opt_view(peer_setting)) {
            Some(v) => v,
            None => "neuralnet-local"@,
        },
        r.platform@ == match opt_view(platform_setting) {
            Some(v) => v,
            None => operating_system@,
        },
        match r.accelerator {
            Some(a) => opt_view(accelerator_setting) == Some(a@),
            None => accelerator_setting is None,
        },
        r.transport@ == "libp2p"@,
{
    let peer_id = if is_filled(peer_setting) {
        match peer_setting {
            Some(v) => v.to_string(),
            None => "neuralnet-local".to_string(),
        }
    } else {
        "neuralnet-local".to_string()
    };
    let platform = match platform_setting {
        Some(v) => v.to_string(),
        None => operating_system.to_string(),
    };
    RemotePeerDescriptor {
        peer_id,
        platform,
        accelerator: opt_string(accelerator_setting),
        transport: "libp2p".to_string(),
    }
}

/// The peer that runs the jobs of the distributed backend: the configured peer id
/// (`NEURALNET_DISTRIBUTED_TARGET_PEER`) unless blank, else the local peer's; the configured
/// platform, else `unknown`; the configured accelerator.
pub fn distributed_target_peer(
    peer_setting: Option<&str>,
    platform_setting: Option<&str>,
    accelerator_setting: Option<&str>,
    local_peer_id: &str,
) -> (r: RemotePeerDescriptor)
    ensures
        r.peer_id@ == match filled(opt_view(peer_setting)) {
            Some(v) => v,
            None => local_peer_id@,
        },
        r.platform@ == match opt_view(platform_setting) {
            Some(v) => v,
            None => "unknown"@,
        },
        match r.accelerator {
            Some(a) => opt_view(accelerator_setting) == Some(a@),
            None => accelerator_setting is None,
        },
        r.transport@ == "libp2p"@,
{
    let peer_id = if is_filled(peer_setting) {
        match peer_setting {
            Some(v) => v.to_string(),
            None => local_peer_id.to_string(),
        }
    } else {
        local_peer_id.to_string()
    };
    let platform = match platform_setting {
        Some(v) => v.to_string(),
        None => "unknown".to_string(),
    };
    RemotePeerDescriptor {
        peer_id,
        platform,
        accelerator: opt_string(accelerator_setting),
        transport: "libp2p".to_string(),
    }
}

/// The value of decimal digits.
pub open spec fn digits_value(s: Seq<char>) -> nat
    decreases s.len(),
{
    if s.len() == 0 {
        0
    } else {
        digits_value(s.drop_last()) * 10 + (s.last() as nat - '0' as nat) as nat
    }
}

pub open spec fn all_digits(s: Seq<char>) -> bool {
    forall|i: int| 0 <= i < s.len() ==> '0' <= #[trigger] s[i] && s[i] <= '9'
}

/// What `str::parse::<u64>` gives for a text, as its documentation states it: an optional
/// `+` followed by one or more decimal digits whose value fits in `u64`; anything else fails.
pub open spec fn parsed_u64(text: Seq<char>) -> Option<u64> {
    let digits = if text.len() > 0 && text[0] == '+' {
        text.drop_first()
    } else {
        text
    };
    if digits.len() > 0 && all_digits(digits) && digits_value(digits) <= u64::MAX {
        Some(digits_value(digits) as u64)
    } else {
        None
    }
}

/// A prefix of digits is worth no more than the digits.
proof fn lemma_digits_value_prefix(s: Seq<char>, k: int)
    requires
        0 <= k <= s.len(),
        all_digits(s),
    ensures
        digits_value(s.take(k)) <= digits_value(s),
    decreases s.len() - k,
{
    if k < s.len() {
        lemma_digits_value_prefix(s, k + 1);
        assert(s.take(k + 1).drop_last() =~= s.take(k));
        assert(s.take(k + 1).last() == s[k]);
    } else {
        assert(s.take(k) =~= s);
    }
}

/// Parses a decimal `u64` as `str::parse::<u64>` does.
fn parse_u64(text: &str) -> (r: Option<u64>)
    ensures
        r == parsed_u64(text@),
{
    let chars = chars_of(text);
    let start: usize = if chars.len() > 0 && chars[0] == '+' {
        1
    } else {
        0
    };
    let ghost digits = if text@.len() > 0 && text@[0] == '+' {
        text@.drop_first()
    } else {
        text@
    };
    assert(digits =~= chars@.skip(start as int));
    if chars.len() == start {
        return None;
    }
    let mut value: u64 = 0;
    let mut i: usize = start;
    while i < chars.len()
        invariant
            start <= i <= chars.len(),
            chars@ == text@,
            digits == chars@.skip(start as int),
            digits == if text@.len() > 0 && text@[0] == '+' {
                text@.drop_first()
            } else {
                text@
            },
            all_digits(digits.take(i - start)),
            value == digits_value(digits.take(i - start)),
        decreases chars.len() - i,
    {
        let c = chars[i];
        if !('0' <= c && c <= '9') {
            assert(!all_digits(digits)) by {
                assert(digits[i - start] == c);
            }
            return None;
        }
        let d = (c as u32 - '0' as u32) as u64;
        proof {
            assert(digits.take(i - start + 1).drop_last() =~= digits.take(i - start));
            assert(digits.take(i - start + 1).last() == c);
        }
        let next = match value.checked_mul(10) {
            Some(v) => v.checked_add(d),
            None => None,
        };
        match next {
            Some(v) => {
                value = v;
            },
            None => {
                proof {
                    assert(digits_value(digits.take(i - start + 1)) == value * 10 + d);
                    if all_digits(digits) {
                        lemma_digits_value_prefix(digits, i - start + 1);
                    }
                }
                return None;
            },
        }
        i = i + 1;
    }
    assert(digits.take(i - start) =~= digits);
    Some(value)
}

/// The transport of the distributed backend: the default configuration with the configured
/// swarm name and version where they are not blank, and the configured timeout, at least
/// 1 ms.
pub fn distributed_transport_config(
    swarm_name: Option<&str>,
    swarm_version: Option<&str>,
    timeout_ms: Option<u64>,
) -> (r: Libp2pTransportConfig)
    ensures
        r.swarm_name@ == match filled(opt_view(swarm_name)) {
            Some(v) => v,
            None => "neuralnet-distributed"@,
        },
        r.swarm_version@ == match filled(opt_view(swarm_version)) {
            Some(v) => v,
            None => "v1"@,
        },
        r.request_timeout_ms == match timeout_ms {
            Some(t) => if t == 0 {
                1
            } else {
                t
            },
            None => 2000,
        },
        string_seqs(r.listen_addresses@) == seq!["/ip4/0.0.0.0/udp/9000/quic-v1"@],
        r.bootstrap_peers@.len() == 0,
        r.protocol_name@ == DISTRIBUTED_TRANSPORT_PROTOCOL_NAME@,
{
    let mut config = Libp2pTransportConfig::default();
    if is_filled(swarm_name) {
        match swarm_name {
            Some(v) => {
                config.swarm_name = v.to_string();
            },
            None => {},
        }
    }
    if is_filled(swarm_version) {
        match swarm_version {
            Some(v) => {
                config.swarm_version = v.to_string();
            },
            None => {},
        }
    }
    match timeout_ms {
        Some(t) => {
            config.request_timeout_ms = if t == 0 {
                1
            } else {
                t
            };
        },
        None => {},
    }
    config
}

/// The transport of the distributed backend from its settings
/// (`NEURALNET_DISTRIBUTED_SWARM_NAME`, `NEURALNET_DISTRIBUTED_SWARM_VERSION`,
/// `NEURALNET_DISTRIBUTED_TIMEOUT_MS`); a timeout that does not parse is ignored.
pub fn distributed_transport_config_from_settings(
    swarm_name: Option<&str>,
    swarm_version: Option<&str>,
    timeout_setting: Option<&str>,
) -> (r: Libp2pTransportConfig)
    ensures
        r.request_timeout_ms == match timeout_setting {
            Some(t) => match parsed_u64(t@) {
                Some(v) => if v == 0 {
                    1
                } else {
                    v
                },
                None => 2000,
            },
            None => 2000,
        },
        r.swarm_name@ == match filled(opt_view(swarm_name)) {
            Some(v) => v,
            None => "neuralnet-distributed"@,
        },
        r.swarm_version@ == match filled(opt_view(swarm_version)) {
            Some(v) => v,
            None => "v1"@,
        },
{
    let timeout = match timeout_setting {
        Some(t) => parse_u64(t),
        None => None,
    };
    distributed_transport_config(swarm_name, swarm_version, timeout)
}

/// Whether the distributed backend can run: its transport configuration is valid.
pub fn distributed_backend_available(config: &Libp2pTransportConfig) -> (r: bool)
    ensures
        r == config.spec_validation() is Ok,
{
    match config.validate() {
        Ok(()) => true,
        Err(_) => false,
    }
}

/// The policy of the distributed backend: the coordinator's, with the transport's timeout.
pub fn distributed_execution_policy(timeout_ms: u64) -> (r: DistributedExecutionPolicy)
    ensures
        r.preferred_work_unit == DistributedWorkUnitKind::FeatureStackForward,
        r.sync_mode == DistributedSyncMode::AsynchronousEventual,
        r.fallback_policy == DistributedFallbackPolicy::RetryLocalOnTimeout,
        r.timeout_ms == timeout_ms,
        r.min_remote_batch_size == 8,
        r.min_remote_tensor_elements == 65536,
{
    let mut policy = DistributedExecutionPolicy::coordinator_default();
    policy.timeout_ms = timeout_ms;
    policy
}

/// What came back for a job request.
#[derive(Debug, Clone)]
pub enum JobResponse {
    /// A job result.
    Result,
    /// An error message.
    Error { message: String },
    /// Any other payload, with its debug text.
    Unexpected { payload_debug: String },
}

/// The error of a job request, by what came back: none for a result.
pub fn job_response_error(response: &JobResponse) -> (r: Option<DistributedTensorError>)
    ensures
        match response {
            JobResponse::Result => r is None,
            JobResponse::Error { message } => r matches Some(DistributedTensorError::Transport(m)) && m@ == message@,
            JobResponse::Unexpected { payload_debug } => r matches Some(DistributedTensorError::Transport(m))
                && m@ == "unexpected transport response payload: "@ + payload_debug@,
        },
{
    match response {
        JobResponse::Result => None,
        JobResponse::Error { message } => Some(DistributedTensorError::Transport(message.clone())),
        JobResponse::Unexpected { payload_debug } => {
            let mut m = "unexpected transport response payload: ".to_string();
            m.append(payload_debug.as_str());
            Some(DistributedTensorError::Transport(m))
        },
    }
}

/// The kind of result a distributed job gave.
#[derive(Debug, Clone, Copy, PartialEq, Eq, Structural)]
pub enum JobResultKind {
    Tensor,
    FeatureBatch,
    RemoteTensor,
}

/// The error of a tensor operation run remotely, by the kind of result it gave: none for a
/// tensor.
pub fn tensor_job_result_error(kind: JobResultKind) -> (r: Option<TensorError>)
    ensures
        match kind {
            JobResultKind::Tensor => r is None,
            JobResultKind::FeatureBatch => r matches Some(TensorError::InvalidArgument(m)) && m@
                == "distributed tensor op returned feature batch"@,
            JobResultKind::RemoteTensor => r matches Some(TensorError::InvalidArgument(m)) && m@
                == "distributed tensor op returned remote tensor ref"@,
        },
{
    match kind {
        JobResultKind::Tensor => None,
        JobResultKind::FeatureBatch => Some(
            TensorError::InvalidArgument("distributed tensor op returned feature batch"),
        ),
        JobResultKind::RemoteTensor => Some(
            TensorError::InvalidArgument("distributed tensor op returned remote tensor ref"),
        ),
    }
}

} // verus!
