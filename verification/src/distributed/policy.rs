use vstd::prelude::*;

verus! {

/// The unit of work that can be sent to a remote executor.
#[derive(Debug, Clone, Copy, PartialEq, Eq, Structural)]
pub enum DistributedWorkUnitKind {
    TensorOp,
    ConvBlock,
    FeatureStackForward,
    TrainingShard,
}

/// How remote results are synchronised with the coordinator.
#[derive(Debug, Clone, Copy, PartialEq, Eq, Structural)]
pub enum DistributedSyncMode {
    SynchronousDeterministic,
    BoundedStaleness { max_version_lag: u64 },
    AsynchronousEventual,
}

/// What the coordinator does when a remote execution fails.
#[derive(Debug, Clone, Copy, PartialEq, Eq, Structural)]
pub enum DistributedFallbackPolicy {
    RetryLocalOnTimeout,
    RetryPeerThenLocal { max_peer_attempts: usize },
    Abort,
}

/// Where a tensor lives.
#[derive(Debug, Clone, PartialEq, Eq)]
pub enum TensorResidency {
    LocalOnly,
    LocalMirroredRemote { peer_id: String, tensor_id: String },
    RemoteOwned { peer_id: String, tensor_id: String },
}

/// A peer that can execute work.
#[derive(Debug, Clone, PartialEq, Eq)]
pub struct RemotePeerDescriptor {
    pub peer_id: String,
    pub platform: String,
    pub accelerator: Option<String>,
    pub transport: String,
}

/// When and how work is offloaded to remote peers.
#[derive(Debug, Clone, Copy, PartialEq, Eq, Structural)]
pub struct DistributedExecutionPolicy {
    pub preferred_work_unit: DistributedWorkUnitKind,
    pub sync_mode: DistributedSyncMode,
    pub fallback_policy: DistributedFallbackPolicy,
    pub timeout_ms: u64,
    pub min_remote_batch_size: usize,
    pub min_remote_tensor_elements: usize,
}

impl DistributedExecutionPolicy {
    /// The coordinator's policy: eventual feature-stack execution, local retry on timeout.
    pub fn coordinator_default() -> (r: Self)
        ensures
            r.preferred_work_unit == DistributedWorkUnitKind::FeatureStackForward,
            r.sync_mode == DistributedSyncMode::AsynchronousEventual,
            r.fallback_policy == DistributedFallbackPolicy::RetryLocalOnTimeout,
            r.timeout_ms == 2000,
            r.min_remote_batch_size == 8,
            r.min_remote_tensor_elements == 65536,
    {
        Self {
            preferred_work_unit: DistributedWorkUnitKind::FeatureStackForward,
            sync_mode: DistributedSyncMode::AsynchronousEventual,
            fallback_policy: DistributedFallbackPolicy::RetryLocalOnTimeout,
            timeout_ms: 2_000,
            min_remote_batch_size: 8,
            min_remote_tensor_elements: 65_536,
        }
    }

    pub open spec fn spec_should_offload(&self, batch_size: usize, tensor_elements: usize) -> bool {
        batch_size >= self.min_remote_batch_size || tensor_elements >= self.min_remote_tensor_elements
    }

    /// Work is offloaded once the batch or the tensor reaches its threshold.
    pub fn should_offload(&self, batch_size: usize, tensor_elements: usize) -> (r: bool)
        ensures
            r == self.spec_should_offload(batch_size, tensor_elements),
    {
        batch_size >= self.min_remote_batch_size || tensor_elements >= self.min_remote_tensor_elements
    }
}

/// Offloading is monotone: a larger batch or tensor never stops an offload.
pub proof fn lemma_should_offload_monotone(
    policy: DistributedExecutionPolicy,
    batch_size: usize,
    tensor_elements: usize,
    larger_batch: usize,
    larger_elements: usize,
)
    requires
        batch_size <= larger_batch,
        tensor_elements <= larger_elements,
        policy.spec_should_offload(batch_size, tensor_elements),
    ensures
        policy.spec_should_offload(larger_batch, larger_elements),
{
}

/// What an executor advertises.
#[derive(Debug, Clone, PartialEq, Eq)]
pub struct DistributedExecutorCapabilities {
    pub supported_work_units: Vec<DistributedWorkUnitKind>,
    pub supports_parameter_push: bool,
    pub supports_parameter_pull: bool,
    pub supports_result_streaming: bool,
    pub supports_eventual_sync: bool,
    pub max_tensor_elements: Option<usize>,
}

/// The default capabilities: tensor ops and feature stacks, parameter push and eventual sync.
pub open spec fn is_default_capabilities(c: DistributedExecutorCapabilities) -> bool {
    &&& c.supported_work_units@ == seq![
        DistributedWorkUnitKind::TensorOp,
        DistributedWorkUnitKind::FeatureStackForward,
    ]
    &&& c.supports_parameter_push
    &&& !c.supports_parameter_pull
    &&& !c.supports_result_streaming
    &&& c.supports_eventual_sync
    &&& c.max_tensor_elements is None
}

impl Default for DistributedExecutorCapabilities {
    fn default() -> (r: Self)
        ensures
            is_default_capabilities(r),
    {
        let mut units: Vec<DistributedWorkUnitKind> = Vec::new();
        units.push(DistributedWorkUnitKind::TensorOp);
        units.push(DistributedWorkUnitKind::FeatureStackForward);
        assert(units@ =~= seq![
            DistributedWorkUnitKind::TensorOp,
            DistributedWorkUnitKind::FeatureStackForward,
        ]);
        Self {
            supported_work_units: units,
            supports_parameter_push: true,
            supports_parameter_pull: false,
            supports_result_streaming: false,
            supports_eventual_sync: true,
            max_tensor_elements: None,
        }
    }
}

} // verus!
