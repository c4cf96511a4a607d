use neuralnet::tensor::adapters::resize_interleaved_nearest;
use neuralnet::tensor::backend::{
    active_backend_label,
    active_backend_name,
    active_backend_training_capabilities,
    cpu_backend,
    cuda_backend,
    cuda_backend_available,
    is_backend_selectable,
    mlx_backend,
    mlx_backend_available,
    mlx_backend_label,
    mlx_backprop_path_snapshot,
    resolve_active_backend,
    TensorBackendKind,
};
use neuralnet::tensor::device::BackendTrainingCapabilities;
use neuralnet::tensor::distributed_backend::{
    distributed_backend,
    distributed_backend_available,
    distributed_execution_policy,
    distributed_local_peer,
    distributed_target_peer,
    distributed_transport_config,
    distributed_transport_config_from_settings,
    job_response_error,
    tensor_job_result_error,
    JobResponse,
    JobResultKind,
};
use neuralnet::tensor::errors::{TensorAdapterError, TensorError};
use neuralnet::distributed::error::DistributedTensorError;

#[test]
fn cpu_backend_reports_host_only_training_capabilities() {
    let caps = cpu_backend().training_capabilities();
    assert!(!caps.native_forward_execution);
    assert!(!caps.native_backward_execution);
    assert!(caps.host_materializes_gradients);
    assert!(!caps.supports_device_resident_training());
}

#[test]
fn active_backend_training_capabilities_match_backend_mode() {
    let caps = active_backend_training_capabilities(None);
    assert!(!caps.native_forward_execution);
    assert!(!caps.native_backward_execution);
}

#[test]
fn active_backend_defaults_to_cpu_without_offloading_features() {
    assert_eq!(active_backend_name(None), "cpu");
}

#[test]
fn mlx_backend_feature_flag_reflects_build_configuration() {
    assert_eq!(mlx_backend_available(), false);
}

#[test]
fn mlx_backend_label_includes_runtime_mode() {
    let label = mlx_backend_label();
    assert!(label == "mlx(cpu)" || label == "mlx(gpu)");
}

#[test]
fn backend_kinds_parse_and_name() {
    for kind in [TensorBackendKind::Cpu, TensorBackendKind::Cuda, TensorBackendKind::Mlx] {
        assert_eq!(TensorBackendKind::parse(kind.as_str()), Some(kind));
    }
    assert_eq!(TensorBackendKind::parse(" GPU "), Some(TensorBackendKind::Cuda));
    assert_eq!(TensorBackendKind::parse("tpu"), None);
}

#[test]
fn only_cpu_is_selectable_without_offloading_kernels() {
    assert!(!cuda_backend_available());
    assert!(is_backend_selectable(TensorBackendKind::Cpu));
    assert!(!is_backend_selectable(TensorBackendKind::Mlx));
    assert_eq!(resolve_active_backend(Some(TensorBackendKind::Cuda)), TensorBackendKind::Cpu);
    assert_eq!(active_backend_label(Some(TensorBackendKind::Mlx)), "cpu");
    assert_eq!(cuda_backend().name(), "cuda");
    assert_eq!(mlx_backend().name(), "mlx");
    assert!(mlx_backend().training_capabilities().native_forward_execution);
    assert_eq!(mlx_backprop_path_snapshot().total_calls, 0);
}

#[test]
fn device_resident_training_needs_state_and_updates_on_device() {
    assert!(BackendTrainingCapabilities::fully_device_resident_training().supports_device_resident_training());
    assert!(!BackendTrainingCapabilities::native_compute_host_training().supports_device_resident_training());
    assert!(BackendTrainingCapabilities::host_only().host_materializes_gradients);
}

#[test]
fn tensor_error_messages() {
    assert_eq!(
        TensorError::ShapeMismatch { expected: 4, actual: 3 }.message(),
        "tensor shape mismatch: expected 4 elements, got 3"
    );
    assert_eq!(
        TensorAdapterError::InvalidChannelCount { channels: 0 }.message(),
        "invalid image channel count: 0 (must be > 0)"
    );
    assert_eq!(TensorAdapterError::EmptyBatch.message(), "cannot build tensor from empty image batch");
}

#[test]
fn distributed_backend_peers_follow_settings() {
    let local = distributed_local_peer(Some("  "), None, "linux", None);
    assert_eq!(local.peer_id, "neuralnet-local");
    assert_eq!(local.platform, "linux");
    assert_eq!(local.transport, "libp2p");
    let local = distributed_local_peer(Some("me"), Some("macos"), "linux", Some("metal"));
    assert_eq!(local.peer_id, "me");
    assert_eq!(local.platform, "macos");
    assert_eq!(local.accelerator.as_deref(), Some("metal"));

    let target = distributed_target_peer(None, None, None, "me");
    assert_eq!(target.peer_id, "me");
    assert_eq!(target.platform, "unknown");
    let target = distributed_target_peer(Some("gpu-box"), Some("linux"), Some("cuda"), "me");
    assert_eq!(target.peer_id, "gpu-box");
    assert_eq!(target.accelerator.as_deref(), Some("cuda"));
}

#[test]
fn distributed_backend_transport_follows_settings() {
    let config = distributed_transport_config(Some("lab"), Some(" "), Some(0));
    assert_eq!(config.swarm_name, "lab");
    assert_eq!(config.swarm_version, "v1");
    assert_eq!(config.request_timeout_ms, 1);

    let config = distributed_transport_config_from_settings(None, Some("v3"), Some("750"));
    assert_eq!(config.swarm_name, "neuralnet-distributed");
    assert_eq!(config.swarm_version, "v3");
    assert_eq!(config.request_timeout_ms, 750);
    let config = distributed_transport_config_from_settings(None, None, Some("soon"));
    assert_eq!(config.request_timeout_ms, 2_000);
    assert!(distributed_backend_available(&config));

    let policy = distributed_execution_policy(config.request_timeout_ms);
    assert_eq!(policy.timeout_ms, 2_000);
    assert_eq!(policy.min_remote_batch_size, 8);

    let backend = distributed_backend();
    assert_eq!(backend.name(), "distributed");
    assert!(backend.training_capabilities().native_backward_execution);
}

#[test]
fn distributed_job_responses_map_to_errors() {
    assert!(job_response_error(&JobResponse::Result).is_none());
    match job_response_error(&JobResponse::Error { message: "peer execution failed".to_string() }) {
        Some(DistributedTensorError::Transport(m)) => assert_eq!(m, "peer execution failed"),
        other => panic!("unexpected {:?}", other),
    }
    match job_response_error(&JobResponse::Unexpected { payload_debug: "Ack".to_string() }) {
        Some(DistributedTensorError::Transport(m)) => assert_eq!(m, "unexpected transport response payload: Ack"),
        other => panic!("unexpected {:?}", other),
    }
    assert!(tensor_job_result_error(JobResultKind::Tensor).is_none());
    assert!(matches!(
        tensor_job_result_error(JobResultKind::FeatureBatch),
        Some(TensorError::InvalidArgument("distributed tensor op returned feature batch"))
    ));
}

#[test]
fn executor_maps_transport_error_payload() {
    let error = job_response_error(&JobResponse::Error { message: "peer execution failed".to_string() })
        .expect("execution should surface transport error");
    assert!(matches!(error, DistributedTensorError::Transport(_)));
}

#[test]
fn interleaved_resize_takes_the_nearest_source_pixel() {
    let image: Vec<u8> = (0u8..8).collect();
    let up = resize_interleaved_nearest(&image, 2, 2, 2, 3, 3);
    assert_eq!(up, vec![0, 1, 0, 1, 2, 3, 0, 1, 0, 1, 2, 3, 4, 5, 4, 5, 6, 7]);
    let down = resize_interleaved_nearest(&image, 2, 2, 2, 1, 1);
    assert_eq!(down, vec![0, 1]);
    assert!(resize_interleaved_nearest(&image, 2, 2, 2, 0, 4).is_empty());
}

#[test]
fn timeout_settings_parse_as_unsigned_decimal_numbers() {
    let timeout = |s: &str| distributed_transport_config_from_settings(None, None, Some(s)).request_timeout_ms;
    assert_eq!(timeout("+15"), 15);
    assert_eq!(timeout("0"), 1);
    assert_eq!(timeout("007"), 7);
    assert_eq!(timeout("18446744073709551615"), u64::MAX);
    assert_eq!(timeout("18446744073709551616"), 2000);
    assert_eq!(timeout(" 5"), 2000);
    assert_eq!(timeout("-5"), 2000);
    assert_eq!(timeout("+"), 2000);
    assert_eq!(timeout(""), 2000);
}
