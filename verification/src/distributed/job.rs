use vstd::prelude::*;

use crate::distributed::policy::TensorResidency;

verus! {

/// A tensor held by a remote peer.
#[derive(Debug, PartialEq, Eq)]
pub struct RemoteTensorRef {
    pub peer_id: String,
    pub tensor_id: String,
    pub shape: (usize, usize, usize, usize),
    pub residency: TensorResidency,
    pub version: Option<u64>,
}

} // verus!
