use vstd::prelude::*;

verus! {

/// What a tensor backend can do natively during training.
#[derive(Debug, Clone, Copy, PartialEq, Eq, Structural)]
pub struct BackendTrainingCapabilities {
    pub native_forward_execution: bool,
    pub native_backward_execution: bool,
    pub host_materializes_gradients: bool,
    pub device_resident_parameter_state: bool,
    pub device_side_parameter_updates: bool,
}

impl BackendTrainingCapabilities {
    /// Everything runs on the host.
    pub fn host_only() -> (r: Self)
        ensures
            !r.native_forward_execution,
            !r.native_backward_execution,
            r.host_materializes_gradients,
            !r.device_resident_parameter_state,
            !r.device_side_parameter_updates,
    {
        Self {
            native_forward_execution: false,
            native_backward_execution: false,
            host_materializes_gradients: true,
            device_resident_parameter_state: false,
            device_side_parameter_updates: false,
        }
    }

    /// Native forward and backward kernels, with gradients and parameters on the host.
    pub fn native_compute_host_training() -> (r: Self)
        ensures
            r.native_forward_execution,
            r.native_backward_execution,
            r.host_materializes_gradients,
            !r.device_resident_parameter_state,
            !r.device_side_parameter_updates,
    {
        Self {
            native_forward_execution: true,
            native_backward_execution: true,
            host_materializes_gradients: true,
            device_resident_parameter_state: false,
            device_side_parameter_updates: false,
        }
    }

    /// Training that keeps parameters and their updates on the device.
    pub fn fully_device_resident_training() -> (r: Self)
        ensures
            r.native_forward_execution,
            r.native_backward_execution,
            !r.host_materializes_gradients,
            r.device_resident_parameter_state,
            r.device_side_parameter_updates,
    {
        Self {
            native_forward_execution: true,
            native_backward_execution: true,
            host_materializes_gradients: false,
            device_resident_parameter_state: true,
            device_side_parameter_updates: true,
        }
    }

    pub open spec fn spec_supports_device_resident_training(&self) -> bool {
        self.device_resident_parameter_state && self.device_side_parameter_updates
    }

    pub fn supports_device_resident_training(&self) -> (r: bool)
        ensures
            r == self.spec_supports_device_resident_training(),
    {
        self.device_resident_parameter_state && self.device_side_parameter_updates
    }
}

} // verus!
