use vstd::prelude::*;

use crate::tensor::device::BackendTrainingCapabilities;
use crate::text::{normalize_key, normalize_key_seq};

verus! {

/// The tensor backends that a process can select.
#[derive(Debug, Clone, Copy, PartialEq, Eq, Structural)]
pub enum TensorBackendKind {
    Cpu,
    Cuda,
    Mlx,
}

pub open spec fn backend_kind_name(kind: TensorBackendKind) -> Seq<char> {
    match kind {
        TensorBackendKind::Cpu => "cpu"@,
        TensorBackendKind::Cuda => "cuda"@,
        TensorBackendKind::Mlx => "mlx"@,
    }
}

/// The backend a setting names, after trimming and lower-casing it.
pub open spec fn parse_backend_kind(normalized: Seq<char>) -> Option<TensorBackendKind> {
    if normalized == "cpu"@ {
        Some(TensorBackendKind::Cpu)
    } else if normalized == "cuda"@ || normalized == "gpu"@ {
        Some(TensorBackendKind::Cuda)
    } else if normalized == "mlx"@ {
        Some(TensorBackendKind::Mlx)
    } else {
        None
    }
}

impl TensorBackendKind {
    pub fn as_str(self) -> (r: &'static str)
        ensures
            r@ == backend_kind_name(self),
    {
        match self {
            TensorBackendKind::Cpu => "cpu",
            TensorBackendKind::Cuda => "cuda",
            TensorBackendKind::Mlx => "mlx",
        }
    }

    pub fn parse(value: &str) -> (r: Option<Self>)
        ensures
            r == parse_backend_kind(normalize_key_seq(value@)),
    {
        let normalized = normalize_key(value);
        if normalized == "cpu".to_string() {
            Some(TensorBackendKind::Cpu)
        } else if normalized == "cuda".to_string() || normalized == "gpu".to_string() {
            Some(TensorBackendKind::Cuda)
        } else if normalized == "mlx".to_string() {
            Some(TensorBackendKind::Mlx)
        } else {
            None
        }
    }
}

} // verus!

verus! {

/// Parsing the name of a backend gives that backend back.
pub proof fn lemma_backend_kind_name_parses(kind: TensorBackendKind)
    ensures
        parse_backend_kind(normalize_key_seq(backend_kind_name(kind))) == Some(kind),
{
    reveal_strlit("cpu");
    reveal_strlit("cuda");
    reveal_strlit("gpu");
    reveal_strlit("mlx");
    crate::text::lemma_normalize_key_identity(backend_kind_name(kind));
}

/// The host backend.
#[derive(Debug, Clone, Copy, Default)]
pub struct CpuTensorBackend;

/// The CUDA backend; this library is built without its kernels.
#[derive(Debug, Clone, Copy, Default)]
pub struct CudaTensorBackend;

/// The Apple MLX backend; this library is built without its kernels.
#[derive(Debug, Clone, Copy, Default)]
pub struct MlxTensorBackend;

pub fn cpu_backend() -> CpuTensorBackend {
    CpuTensorBackend
}

pub fn cuda_backend() -> CudaTensorBackend {
    CudaTensorBackend
}

pub fn mlx_backend() -> MlxTensorBackend {
    MlxTensorBackend
}

/// This library is built without the CUDA offloading kernels.
pub fn cuda_backend_available() -> (r: bool)
    ensures
        !r,
{
    false
}

/// This library is built without the MLX offloading kernels.
pub fn mlx_backend_available() -> (r: bool)
    ensures
        !r,
{
    false
}

/// Whether the MLX runtime would run on a GPU; never, without the MLX build.
pub fn mlx_backend_uses_gpu() -> (r: bool)
    ensures
        !r,
{
    false
}

/// `"mlx(gpu)"` when MLX runs on a GPU, else `"mlx(cpu)"`.
pub fn mlx_backend_label() -> (r: &'static str)
    ensures
        r@ == "mlx(cpu)"@,
{
    if mlx_backend_uses_gpu() {
        "mlx(gpu)"
    } else {
        "mlx(cpu)"
    }
}

/// Whether the given backend can be selected in this build.
pub open spec fn backend_selectable(kind: TensorBackendKind) -> bool {
    match kind {
        TensorBackendKind::Cpu => true,
        _ => false,
    }
}

pub fn is_backend_selectable(kind: TensorBackendKind) -> (r: bool)
    ensures
        r == backend_selectable(kind),
{
    match kind {
        TensorBackendKind::Cpu => true,
        TensorBackendKind::Cuda => cuda_backend_available(),
        TensorBackendKind::Mlx => mlx_backend_available(),
    }
}

/// The active backend: the preferred one when it can be selected, else the first
/// selectable one of CUDA, MLX and CPU.
pub open spec fn resolved_backend(preferred: Option<TensorBackendKind>) -> TensorBackendKind {
    match preferred {
        Some(kind) if backend_selectable(kind) => kind,
        _ => if backend_selectable(TensorBackendKind::Cuda) {
            TensorBackendKind::Cuda
        } else if backend_selectable(TensorBackendKind::Mlx) {
            TensorBackendKind::Mlx
        } else {
            TensorBackendKind::Cpu
        },
    }
}

/// Resolves the active backend from the preference that the process configured
/// (`NEURALNET_TENSOR_BACKEND`, then `NEURALNET_BACKEND`, parsed).
pub fn resolve_active_backend(preferred: Option<TensorBackendKind>) -> (r: TensorBackendKind)
    ensures
        r == resolved_backend(preferred),
{
    if let Some(kind) = preferred {
        if is_backend_selectable(kind) {
            return kind;
        }
    }
    if is_backend_selectable(TensorBackendKind::Cuda) {
        TensorBackendKind::Cuda
    } else if is_backend_selectable(TensorBackendKind::Mlx) {
        TensorBackendKind::Mlx
    } else {
        TensorBackendKind::Cpu
    }
}

/// Without offloading kernels the CPU backend is always the active one.
pub proof fn lemma_active_backend_is_cpu(preferred: Option<TensorBackendKind>)
    ensures
        resolved_backend(preferred) == TensorBackendKind::Cpu,
{
}

/// The name the active backend reports.
pub fn active_backend_name(preferred: Option<TensorBackendKind>) -> (r: &'static str)
    ensures
        r@ == backend_kind_name(resolved_backend(preferred)),
{
    resolve_active_backend(preferred).as_str()
}

pub open spec fn backend_label(kind: TensorBackendKind) -> Seq<char> {
    match kind {
        TensorBackendKind::Cpu => "cpu"@,
        TensorBackendKind::Cuda => "cuda"@,
        TensorBackendKind::Mlx => "mlx(cpu)"@,
    }
}

/// The label of the active backend; for MLX it names where MLX runs.
pub fn active_backend_label(preferred: Option<TensorBackendKind>) -> (r: &'static str)
    ensures
        r@ == backend_label(resolved_backend(preferred)),
{
    match resolve_active_backend(preferred) {
        TensorBackendKind::Cpu => "cpu",
        TensorBackendKind::Cuda => "cuda",
        TensorBackendKind::Mlx => mlx_backend_label(),
    }
}

pub open spec fn backend_capabilities(kind: TensorBackendKind) -> BackendTrainingCapabilities {
    match kind {
        TensorBackendKind::Cpu => BackendTrainingCapabilities {
            native_forward_execution: false,
            native_backward_execution: false,
            host_materializes_gradients: true,
            device_resident_parameter_state: false,
            device_side_parameter_updates: false,
        },
        _ => BackendTrainingCapabilities {
            native_forward_execution: true,
            native_backward_execution: true,
            host_materializes_gradients: true,
            device_resident_parameter_state: false,
            device_side_parameter_updates: false,
        },
    }
}

/// The training capabilities of a backend kind.
pub fn backend_training_capabilities(kind: TensorBackendKind) -> (r: BackendTrainingCapabilities)
    ensures
        r == backend_capabilities(kind),
{
    match kind {
        TensorBackendKind::Cpu => BackendTrainingCapabilities::host_only(),
        TensorBackendKind::Cuda => BackendTrainingCapabilities::native_compute_host_training(),
        TensorBackendKind::Mlx => BackendTrainingCapabilities::native_compute_host_training(),
    }
}

impl CpuTensorBackend {
    pub fn name(&self) -> (r: &'static str)
        ensures
            r@ == "cpu"@,
    {
        "cpu"
    }

    pub fn training_capabilities(&self) -> (r: BackendTrainingCapabilities)
        ensures
            r == backend_capabilities(TensorBackendKind::Cpu),
    {
        BackendTrainingCapabilities::host_only()
    }
}

impl CudaTensorBackend {
    pub fn name(&self) -> (r: &'static str)
        ensures
            r@ == "cuda"@,
    {
        "cuda"
    }

    pub fn training_capabilities(&self) -> (r: BackendTrainingCapabilities)
        ensures
            r == backend_capabilities(TensorBackendKind::Cuda),
    {
        BackendTrainingCapabilities::native_compute_host_training()
    }
}

impl MlxTensorBackend {
    pub fn name(&self) -> (r: &'static str)
        ensures
            r@ == "mlx"@,
    {
        "mlx"
    }

    pub fn training_capabilities(&self) -> (r: BackendTrainingCapabilities)
        ensures
            r == backend_capabilities(TensorBackendKind::Mlx),
    {
        BackendTrainingCapabilities::native_compute_host_training()
    }
}

/// The training capabilities of the active backend.
pub fn active_backend_training_capabilities(preferred: Option<TensorBackendKind>) -> (r:
    BackendTrainingCapabilities)
    ensures
        r == backend_capabilities(resolved_backend(preferred)),
{
    backend_training_capabilities(resolve_active_backend(preferred))
}

/// Counters of the MLX backward paths; all zero without the MLX build.
#[derive(Debug, Clone, Copy, Default, PartialEq, Eq, Structural)]
pub struct MlxBackpropPathSnapshot {
    pub total_calls: u64,
    pub full_native_success: u64,
    pub full_cpu_fallback: u64,
    pub fallback_incompatible_shapes: u64,
    pub fallback_shape_mismatch: u64,
    pub fallback_invalid_argument: u64,
    pub fallback_other: u64,
    pub input_grad_requested: u64,
    pub input_grad_skipped: u64,
    pub intended_native_dw: u64,
    pub executed_native_dw: u64,
    pub fallback_dw: u64,
    pub intended_native_dinput: u64,
    pub executed_native_dinput: u64,
    pub fallback_dinput: u64,
    pub native_dw_time_ns: u64,
    pub native_dinput_time_ns: u64,
    pub native_dw_transpose_time_ns: u64,
    pub native_dw_conv_time_ns: u64,
    pub native_dw_materialize_time_ns: u64,
}

pub open spec fn zero_snapshot() -> MlxBackpropPathSnapshot {
    MlxBackpropPathSnapshot {
        total_calls: 0,
        full_native_success: 0,
        full_cpu_fallback: 0,
        fallback_incompatible_shapes: 0,
        fallback_shape_mismatch: 0,
        fallback_invalid_argument: 0,
        fallback_other: 0,
        input_grad_requested: 0,
        input_grad_skipped: 0,
        intended_native_dw: 0,
        executed_native_dw: 0,
        fallback_dw: 0,
        intended_native_dinput: 0,
        executed_native_dinput: 0,
        fallback_dinput: 0,
        native_dw_time_ns: 0,
        native_dinput_time_ns: 0,
        native_dw_transpose_time_ns: 0,
        native_dw_conv_time_ns: 0,
        native_dw_materialize_time_ns: 0,
    }
}

/// The MLX backward-path counters; without the MLX build nothing is counted.
pub fn mlx_backprop_path_snapshot() -> (r: MlxBackpropPathSnapshot)
    ensures
        r == zero_snapshot(),
{
    MlxBackpropPathSnapshot {
        total_calls: 0,
        full_native_success: 0,
        full_cpu_fallback: 0,
        fallback_incompatible_shapes: 0,
        fallback_shape_mismatch: 0,
        fallback_invalid_argument: 0,
        fallback_other: 0,
        input_grad_requested: 0,
        input_grad_skipped: 0,
        intended_native_dw: 0,
        executed_native_dw: 0,
        fallback_dw: 0,
        intended_native_dinput: 0,
        executed_native_dinput: 0,
        fallback_dinput: 0,
        native_dw_time_ns: 0,
        native_dinput_time_ns: 0,
        native_dw_transpose_time_ns: 0,
        native_dw_conv_time_ns: 0,
        native_dw_materialize_time_ns: 0,
    }
}

/// Resets the MLX backward-path counters; without the MLX build there are none.
pub fn mlx_backprop_path_reset() {
}

} // verus!

verus! {

/// Where the parameters of a layer live.
#[derive(Debug, Clone, Copy, PartialEq, Eq, Structural)]
pub enum ParameterResidency {
    HostBacked,
    BackendMirrored,
    DeviceResident,
}

/// Which backend keeps a layer's parameters.
#[derive(Debug, Clone, Copy, PartialEq, Eq, Structural)]
pub enum ParameterBackendKind {
    Host,
    Mlx,
    Cuda,
}

} // verus!
