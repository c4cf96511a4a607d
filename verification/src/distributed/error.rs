use vstd::prelude::*;

use crate::distributed::policy::DistributedWorkUnitKind;
use crate::tensor::errors::{tensor_error_text, TensorError};
use crate::text::{append_decimal, decimal_seq};

verus! {

/// Errors of distributed tensor execution.
#[derive(Debug, Clone, PartialEq, Eq)]
pub enum DistributedTensorError {
    Timeout { peer_id: String, timeout_ms: u64 },
    PeerUnavailable { peer_id: String },
    UnsupportedWorkUnit { work_unit: DistributedWorkUnitKind },
    InvalidPolicy(&'static str),
    Transport(String),
    Tensor(TensorError),
}

/// `{:?}` of a work unit kind: its variant name.
pub open spec fn work_unit_debug_text(kind: DistributedWorkUnitKind) -> Seq<char> {
    match kind {
        DistributedWorkUnitKind::TensorOp => "TensorOp"@,
        DistributedWorkUnitKind::ConvBlock => "ConvBlock"@,
        DistributedWorkUnitKind::FeatureStackForward => "FeatureStackForward"@,
        DistributedWorkUnitKind::TrainingShard => "TrainingShard"@,
    }
}

pub fn work_unit_debug(kind: DistributedWorkUnitKind) -> (r: &'static str)
    ensures
        r@ == work_unit_debug_text(kind),
{
    match kind {
        DistributedWorkUnitKind::TensorOp => "TensorOp",
        DistributedWorkUnitKind::ConvBlock => "ConvBlock",
        DistributedWorkUnitKind::FeatureStackForward => "FeatureStackForward",
        DistributedWorkUnitKind::TrainingShard => "TrainingShard",
    }
}

pub open spec fn distributed_error_text(e: DistributedTensorError) -> Seq<char> {
    match e {
        DistributedTensorError::Timeout { peer_id, timeout_ms } =>
            "distributed tensor timeout on peer "@ + peer_id@ + " after "@ + decimal_seq(
            timeout_ms as nat,
        ) + "ms"@,
        DistributedTensorError::PeerUnavailable { peer_id } => "distributed tensor peer unavailable: "@
            + peer_id@,
        DistributedTensorError::UnsupportedWorkUnit { work_unit } =>
            "distributed tensor work unit is not supported: "@ + work_unit_debug_text(work_unit),
        DistributedTensorError::InvalidPolicy(message) => "invalid distributed execution policy: "@
            + message@,
        DistributedTensorError::Transport(message) => "distributed transport error: "@ + message@,
        DistributedTensorError::Tensor(err) => "distributed tensor error: "@ + tensor_error_text(err),
    }
}

impl DistributedTensorError {
    /// The text that the error displays.
    pub fn message(&self) -> (r: String)
        ensures
            r@ == distributed_error_text(*self),
    {
        let mut out = String::new();
        match self {
            DistributedTensorError::Timeout { peer_id, timeout_ms } => {
                out.append("distributed tensor timeout on peer ");
                out.append(peer_id.as_str());
                out.append(" after ");
                append_decimal(&mut out, *timeout_ms);
                out.append("ms");
            },
            DistributedTensorError::PeerUnavailable { peer_id } => {
                out.append("distributed tensor peer unavailable: ");
                out.append(peer_id.as_str());
            },
            DistributedTensorError::UnsupportedWorkUnit { work_unit } => {
                out.append("distributed tensor work unit is not supported: ");
                out.append(work_unit_debug(*work_unit));
            },
            DistributedTensorError::InvalidPolicy(message) => {
                out.append("invalid distributed execution policy: ");
                out.append(message);
            },
            DistributedTensorError::Transport(message) => {
                out.append("distributed transport error: ");
                out.append(message.as_str());
            },
            DistributedTensorError::Tensor(err) => {
                out.append("distributed tensor error: ");
                let inner = err.message();
                out.append(inner.as_str());
            },
        }
        out
    }
}

impl From<TensorError> for DistributedTensorError {
    fn from(value: TensorError) -> (r: Self) {
        DistributedTensorError::Tensor(value)
    }
}

impl vstd::std_specs::convert::FromSpecImpl<TensorError> for DistributedTensorError {
    open spec fn obeys_from_spec() -> bool {
        true
    }

    open spec fn from_spec(v: TensorError) -> Self {
        DistributedTensorError::Tensor(v)
    }
}

} // verus!
