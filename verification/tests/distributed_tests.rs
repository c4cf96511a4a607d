use neuralnet::distributed::error::DistributedTensorError;
use neuralnet::distributed::libp2p::{
    default_server_backend_kind,
    job_failure_message,
    selected_server_backend_kind,
    Libp2pBootstrapPeer,
    Libp2pTransport,
    Libp2pTransportConfig,
    SwarmReply,
    SwarmReplyMessage,
    SwarmRequest,
    SwarmRoute,
};
use neuralnet::distributed::policy::{
    DistributedExecutionPolicy,
    DistributedExecutorCapabilities,
    DistributedFallbackPolicy,
    DistributedSyncMode,
    DistributedWorkUnitKind,
    RemotePeerDescriptor,
    TensorResidency,
};
use neuralnet::distributed::server::DistributedServerConfig;
use neuralnet::distributed::swarm::{SwarmPeerTable, SwarmRegistry};
use neuralnet::distributed::transport::{
    TransportCapabilitiesAnnouncement,
    TransportPeerRecord,
    DISTRIBUTED_TRANSPORT_PROTOCOL_NAME,
    DISTRIBUTED_TRANSPORT_PROTOCOL_VERSION,
};
use neuralnet::tensor::backend::TensorBackendKind;
use neuralnet::tensor::errors::TensorError;

fn peer(id: &str) -> RemotePeerDescriptor {
    RemotePeerDescriptor {
        peer_id: id.to_string(),
        platform: "macos".to_string(),
        accelerator: None,
        transport: "libp2p".to_string(),
    }
}

fn announcement(id: &str, protocol_name: &str) -> TransportCapabilitiesAnnouncement {
    TransportCapabilitiesAnnouncement {
        peer: RemotePeerDescriptor {
            peer_id: id.to_string(),
            platform: "linux".to_string(),
            accelerator: None,
            transport: "libp2p".to_string(),
        },
        executor: DistributedExecutorCapabilities {
            supported_work_units: vec![DistributedWorkUnitKind::FeatureStackForward],
            supports_parameter_push: true,
            supports_parameter_pull: false,
            supports_result_streaming: false,
            supports_eventual_sync: true,
            max_tensor_elements: Some(1024),
        },
        protocol_name: protocol_name.to_string(),
        protocol_version: DISTRIBUTED_TRANSPORT_PROTOCOL_VERSION,
    }
}

#[test]
fn libp2p_config_rejects_invalid_address() {
    let config = Libp2pTransportConfig {
        listen_addresses: vec!["not-a-multiaddr".to_string()],
        ..Libp2pTransportConfig::default()
    };

    let error = config.validate().expect_err("invalid address should fail");
    assert!(matches!(error, DistributedTensorError::Transport(_)));
}

#[test]
fn libp2p_config_includes_named_versioned_swarm_scope() {
    let config = Libp2pTransportConfig {
        swarm_name: "training-cluster".to_string(),
        swarm_version: "v2026.06".to_string(),
        ..Libp2pTransportConfig::default()
    };

    assert_eq!(config.swarm_identifier(), "training-cluster@v2026.06");
    assert_eq!(config.local_discovery_namespace(), "/neuralnet/swarm/training-cluster/v2026.06");
    assert_eq!(
        config.scoped_protocol_name(),
        "/neuralnet/distributed/1.0.0/training-cluster/v2026.06"
    );
}

#[test]
fn libp2p_config_default_is_valid_and_reports_first_problem() {
    let config = Libp2pTransportConfig::default();
    assert!(config.validate().is_ok());
    assert_eq!(config.listen_addresses, vec!["/ip4/0.0.0.0/udp/9000/quic-v1".to_string()]);
    assert_eq!(config.request_timeout_ms, 2_000);

    let blank_name = Libp2pTransportConfig { swarm_name: "  ".to_string(), ..Libp2pTransportConfig::default() };
    match blank_name.validate() {
        Err(DistributedTensorError::Transport(m)) => assert_eq!(m, "libp2p swarm_name must not be empty"),
        other => panic!("unexpected {:?}", other),
    }
    let bad_address = Libp2pTransportConfig {
        listen_addresses: vec!["not-a-multiaddr".to_string()],
        ..Libp2pTransportConfig::default()
    };
    match bad_address.validate() {
        Err(DistributedTensorError::Transport(m)) => {
            assert!(m.starts_with("invalid libp2p listen address not-a-multiaddr: "))
        },
        other => panic!("unexpected {:?}", other),
    }
    let bad_peer = Libp2pTransportConfig {
        bootstrap_peers: vec![Libp2pBootstrapPeer {
            peer_id: "not-a-peer-id".to_string(),
            address: "/ip4/127.0.0.1/tcp/4001".to_string(),
        }],
        ..Libp2pTransportConfig::default()
    };
    match bad_peer.validate() {
        Err(DistributedTensorError::Transport(m)) => {
            assert!(m.starts_with("invalid libp2p bootstrap peer id not-a-peer-id: "))
        },
        other => panic!("unexpected {:?}", other),
    }
}

#[test]
fn coordinator_default_prefers_eventual_feature_stack_execution() {
    let policy = DistributedExecutionPolicy::coordinator_default();
    assert_eq!(policy.preferred_work_unit, DistributedWorkUnitKind::FeatureStackForward);
    assert_eq!(policy.sync_mode, DistributedSyncMode::AsynchronousEventual);
    assert_eq!(policy.fallback_policy, DistributedFallbackPolicy::RetryLocalOnTimeout);
}

#[test]
fn policy_requires_batch_or_tensor_scale_to_offload() {
    let policy = DistributedExecutionPolicy::coordinator_default();
    assert!(!policy.should_offload(1, 128));
    assert!(policy.should_offload(8, 128));
    assert!(policy.should_offload(1, 65_536));
}

#[test]
fn capabilities_announcement_carries_executor_shape() {
    let announcement = TransportCapabilitiesAnnouncement {
        peer: RemotePeerDescriptor {
            peer_id: "peer-a".to_string(),
            platform: "macos".to_string(),
            accelerator: Some("metal".to_string()),
            transport: "libp2p".to_string(),
        },
        executor: DistributedExecutorCapabilities {
            supported_work_units: vec![DistributedWorkUnitKind::FeatureStackForward],
            supports_parameter_push: true,
            supports_parameter_pull: false,
            supports_result_streaming: false,
            supports_eventual_sync: true,
            max_tensor_elements: Some(1_000_000),
        },
        protocol_name: DISTRIBUTED_TRANSPORT_PROTOCOL_NAME.to_string(),
        protocol_version: DISTRIBUTED_TRANSPORT_PROTOCOL_VERSION,
    };

    assert_eq!(announcement.protocol_name, "/neuralnet/distributed/1.0.0");
    assert_eq!(announcement.peer.transport, "libp2p");
}

#[test]
fn peer_records_capture_distributed_reachability() {
    let policy = DistributedExecutionPolicy {
        preferred_work_unit: DistributedWorkUnitKind::FeatureStackForward,
        sync_mode: DistributedSyncMode::AsynchronousEventual,
        fallback_policy: DistributedFallbackPolicy::RetryLocalOnTimeout,
        timeout_ms: 2_000,
        min_remote_batch_size: 8,
        min_remote_tensor_elements: 65_536,
    };
    let record = TransportPeerRecord {
        descriptor: RemotePeerDescriptor {
            peer_id: "peer-b".to_string(),
            platform: "linux".to_string(),
            accelerator: None,
            transport: "libp2p".to_string(),
        },
        addresses: vec!["/ip4/127.0.0.1/udp/9000/quic-v1".to_string()],
        average_rtt_ms: Some(12),
        last_seen_unix_ms: Some(100),
        is_reachable: policy.should_offload(8, 128),
    };

    assert!(record.is_reachable);
    assert_eq!(record.descriptor.transport, "libp2p");
    assert_eq!(TensorResidency::LocalOnly, TensorResidency::LocalOnly);
}

#[test]
fn default_capabilities_and_server_config() {
    let caps = DistributedExecutorCapabilities::default();
    assert_eq!(
        caps.supported_work_units,
        vec![DistributedWorkUnitKind::TensorOp, DistributedWorkUnitKind::FeatureStackForward]
    );
    assert!(caps.supports_parameter_push);
    assert!(!caps.supports_parameter_pull);
    let server = DistributedServerConfig::with_defaults(peer("server"));
    assert!(server.announce_capabilities);
    assert_eq!(server.local_peer.peer_id, "server");
    assert_eq!(server.transport.swarm_name, "neuralnet-distributed");
}

#[test]
fn loopback_swarm_loop_responds_to_health_and_job_requests() {
    let local = peer("peer-local");
    let mut transport = Libp2pTransport::new(local.clone(), Libp2pTransportConfig::default())
        .expect("config should be valid");

    let health = transport.run_swarm_loop_once(1, DISTRIBUTED_TRANSPORT_PROTOCOL_VERSION, SwarmRequest::HealthCheck);
    assert!(matches!(health, SwarmReply::HealthStatus { available: true }));

    let job = transport.run_swarm_loop_once(2, DISTRIBUTED_TRANSPORT_PROTOCOL_VERSION, SwarmRequest::JobRequest);
    assert!(matches!(job, SwarmReply::RunJob));
}

#[test]
fn capabilities_announcement_is_scoped_to_named_swarm() {
    let mut transport = Libp2pTransport::new(peer("peer-local"), Libp2pTransportConfig::default())
        .expect("config should be valid");

    let mismatched = announcement("peer-remote", "/neuralnet/distributed/1.0.0/other-swarm/v9");
    let response = transport.run_swarm_loop_once(
        5,
        DISTRIBUTED_TRANSPORT_PROTOCOL_VERSION,
        SwarmRequest::CapabilitiesAnnouncement(mismatched),
    );

    match response {
        SwarmReply::Error { message } => assert_eq!(
            message,
            "capabilities announcement ignored: swarm scope mismatch for neuralnet-distributed@v1"
        ),
        other => panic!("unexpected {:?}", other),
    }
    assert!(transport.snapshot_known_peers().is_empty());
}

#[test]
fn scoped_announcement_records_the_peer_once() {
    let mut transport = Libp2pTransport::new(peer("peer-local"), Libp2pTransportConfig::default())
        .expect("config should be valid");
    let scope = transport.protocol_scope();
    assert_eq!(scope, "/neuralnet/distributed/1.0.0/neuralnet-distributed/v1");

    for message_id in [10u128, 11u128] {
        let reply = transport.run_swarm_loop_once(
            message_id,
            DISTRIBUTED_TRANSPORT_PROTOCOL_VERSION,
            SwarmRequest::CapabilitiesAnnouncement(announcement("peer-remote", scope.as_str())),
        );
        assert!(matches!(reply, SwarmReply::Ack { correlation_id } if correlation_id == message_id));
    }
    let known = transport.snapshot_known_peers();
    assert_eq!(known.len(), 1);
    assert_eq!(known[0].descriptor.peer_id, "peer-remote");
    assert!(known[0].is_reachable);
    assert!(known[0].addresses.is_empty());

    match transport.run_swarm_loop_once(12, DISTRIBUTED_TRANSPORT_PROTOCOL_VERSION, SwarmRequest::PeerDiscoveryRequest) {
        SwarmReply::PeerDiscoveryResponse { peers } => {
            assert_eq!(peers.len(), 1);
            assert_eq!(peers[0].descriptor.peer_id, "peer-remote");
        },
        other => panic!("unexpected {:?}", other),
    }
}

#[test]
fn swarm_loop_rejects_other_protocol_versions_and_echoes_acks() {
    let mut transport = Libp2pTransport::new(peer("peer-local"), Libp2pTransportConfig::default())
        .expect("config should be valid");
    match transport.run_swarm_loop_once(1, 7, SwarmRequest::HealthCheck) {
        SwarmReply::Error { message } => assert_eq!(
            message,
            "protocol version mismatch in swarm neuralnet-distributed@v1: expected 1, got 7"
        ),
        other => panic!("unexpected {:?}", other),
    }
    assert!(matches!(
        transport.run_swarm_loop_once(1, 1, SwarmRequest::Ack { correlation_id: 99 }),
        SwarmReply::Ack { correlation_id: 99 }
    ));
    match transport.run_swarm_loop_once(1, 1, SwarmRequest::Unhandled { payload_debug: "HealthStatus { available: true }".to_string() }) {
        SwarmReply::Error { message } => assert_eq!(
            message,
            "swarm neuralnet-distributed@v1 cannot handle payload in sync loop: HealthStatus { available: true }"
        ),
        other => panic!("unexpected {:?}", other),
    }
}

#[test]
fn discovery_lists_bootstrap_local_and_announced_peers() {
    let config = Libp2pTransportConfig {
        bootstrap_peers: vec![Libp2pBootstrapPeer {
            peer_id: "12D3KooWBootstrap".to_string(),
            address: "/ip4/10.0.0.1/tcp/4001".to_string(),
        }],
        swarm_name: "cluster-a".to_string(),
        ..Libp2pTransportConfig::default()
    };
    let transport = Libp2pTransport::new(peer("peer-a"), config);
    // The bootstrap peer id does not parse, so the transport is refused.
    assert!(transport.is_err());

    let mut transport = Libp2pTransport::new(
        peer("peer-a"),
        Libp2pTransportConfig { swarm_name: "cluster-a".to_string(), ..Libp2pTransportConfig::default() },
    )
    .expect("config should be valid");
    transport.record_own_announcement();
    let peers = transport.discovered_peers(&vec!["peer-a".to_string(), "peer-b".to_string()]);
    assert_eq!(peers.len(), 2);
    assert_eq!(peers[0].descriptor.peer_id, "peer-b");
    assert_eq!(peers[0].descriptor.platform, "local");
    assert_eq!(peers[0].addresses, vec!["/neuralnet/swarm/cluster-a/v1".to_string()]);
    assert_eq!(peers[1].descriptor.peer_id, "peer-a");
    assert_eq!(peers[1].average_rtt_ms, Some(0));
}

#[test]
fn local_swarm_event_loop_routes_between_two_peers() {
    let config = Libp2pTransportConfig {
        swarm_name: "cluster-a".to_string(),
        swarm_version: "v1".to_string(),
        ..Libp2pTransportConfig::default()
    };
    let transport_a = Libp2pTransport::new(peer("peer-a"), config.clone()).expect("config should be valid");
    let mut transport_b = Libp2pTransport::new(peer("peer-b"), config).expect("config should be valid");

    let mut registry: SwarmRegistry<u32> = SwarmRegistry::new();
    registry.register(transport_a.swarm_identifier().as_str(), "peer-a", 1);
    registry.register(transport_b.swarm_identifier().as_str(), "peer-b", 2);

    let registered = registry.resolve(transport_a.swarm_identifier().as_str(), "peer-b").is_some();
    let route = transport_a.route_for("peer-b", registered).expect("peer-b is registered");
    assert_eq!(route, SwarmRoute::Registered);
    assert_eq!(registry.resolve("cluster-a@v1", "peer-b"), Some(&2));

    let reply = transport_b.run_swarm_loop_once(3, DISTRIBUTED_TRANSPORT_PROTOCOL_VERSION, SwarmRequest::HealthCheck);
    assert!(matches!(reply, SwarmReply::HealthStatus { available: true }));
}

#[test]
fn local_discovery_is_isolated_by_swarm_version() {
    let transport_a = Libp2pTransport::new(
        peer("peer-a2"),
        Libp2pTransportConfig {
            swarm_name: "cluster-b".to_string(),
            swarm_version: "v1".to_string(),
            ..Libp2pTransportConfig::default()
        },
    )
    .expect("config should be valid");
    let transport_b = Libp2pTransport::new(
        peer("peer-b2"),
        Libp2pTransportConfig {
            swarm_name: "cluster-b".to_string(),
            swarm_version: "v2".to_string(),
            ..Libp2pTransportConfig::default()
        },
    )
    .expect("config should be valid");

    let mut registry: SwarmRegistry<u32> = SwarmRegistry::new();
    registry.register(transport_a.swarm_identifier().as_str(), "peer-a2", 1);
    registry.register(transport_b.swarm_identifier().as_str(), "peer-b2", 2);

    let registered = registry.resolve(transport_a.swarm_identifier().as_str(), "peer-b2").is_some();
    let error = transport_a.route_for("peer-b2", registered).expect_err("different swarm versions should not route locally");
    assert!(matches!(error, DistributedTensorError::Transport(_)));
    assert_eq!(
        error.message(),
        "distributed transport error: libp2p swarm loop cluster-b@v1 has no remote reactor attached for peer peer-b2"
    );
    assert_eq!(transport_a.route_for("peer-a2", false).ok(), Some(SwarmRoute::Local));
}

#[test]
fn registry_unregister_drops_empty_swarms() {
    let mut registry: SwarmRegistry<u8> = SwarmRegistry::new();
    registry.register("s@v1", "p1", 1);
    registry.register("s@v1", "p2", 2);
    registry.register("s@v1", "p1", 3);
    assert_eq!(registry.resolve("s@v1", "p1"), Some(&3));
    assert_eq!(registry.peers_of("s@v1"), vec!["p1".to_string(), "p2".to_string()]);
    registry.unregister("s@v1", "p1");
    assert_eq!(registry.resolve("s@v1", "p1"), None);
    assert_eq!(registry.peers_of("s@v1"), vec!["p2".to_string()]);
    registry.unregister("s@v1", "p2");
    assert!(registry.peers_of("s@v1").is_empty());
    assert_eq!(registry.resolve("other", "p2"), None);
}

#[test]
fn peer_table_replaces_records_of_the_same_peer() {
    let mut table = SwarmPeerTable::new();
    let record = |id: &str, reachable: bool| TransportPeerRecord {
        descriptor: peer(id),
        addresses: Vec::new(),
        average_rtt_ms: None,
        last_seen_unix_ms: None,
        is_reachable: reachable,
    };
    table.upsert(record("a", false));
    table.upsert(record("b", false));
    table.upsert(record("a", true));
    assert_eq!(table.len(), 2);
    let snapshot = table.snapshot();
    assert_eq!(snapshot[0].descriptor.peer_id, "a");
    assert!(snapshot[0].is_reachable);
    assert_eq!(snapshot[1].descriptor.peer_id, "b");
}

#[test]
fn bootstrap_records_are_unreachable_until_heard_from() {
    let config = Libp2pTransportConfig {
        bootstrap_peers: vec![Libp2pBootstrapPeer {
            peer_id: "12D3KooWDpJ7As7BWAwRMfu1VU2WCqNjvq387JEYKDBj4kx6nXTN".to_string(),
            address: "/ip4/10.0.0.1/tcp/4001".to_string(),
        }],
        ..Libp2pTransportConfig::default()
    };
    let transport = Libp2pTransport::new(peer("me"), config).expect("config should be valid");
    let records = transport.bootstrap_peer_records();
    assert_eq!(records.len(), 1);
    assert_eq!(records[0].descriptor.platform, "unknown");
    assert_eq!(records[0].addresses, vec!["/ip4/10.0.0.1/tcp/4001".to_string()]);
    assert!(!records[0].is_reachable);
}

#[test]
fn server_backend_selection_falls_back_to_available_backends() {
    assert_eq!(default_server_backend_kind(), TensorBackendKind::Cpu);
    assert_eq!(selected_server_backend_kind(None), TensorBackendKind::Cpu);
    assert_eq!(selected_server_backend_kind(Some(" CPU ")), TensorBackendKind::Cpu);
    assert_eq!(selected_server_backend_kind(Some("cuda")), TensorBackendKind::Cpu);
    assert_eq!(selected_server_backend_kind(Some("bogus")), TensorBackendKind::Cpu);
}

#[test]
fn job_failures_and_errors_format() {
    let err = DistributedTensorError::Tensor(TensorError::InvalidArgument("bad"));
    assert_eq!(
        job_failure_message(&err),
        "distributed job execution failed: distributed tensor error: invalid tensor argument: bad"
    );
    let timeout = DistributedTensorError::Timeout { peer_id: "p".to_string(), timeout_ms: 250 };
    assert_eq!(timeout.message(), "distributed tensor timeout on peer p after 250ms");
    let from: DistributedTensorError = TensorError::InvalidArgument("x").into();
    assert!(matches!(from, DistributedTensorError::Tensor(TensorError::InvalidArgument("x"))));
}

#[test]
fn swarm_reply_is_addressed_back_to_the_sender() {
    let mut transport = Libp2pTransport::new(peer("peer-local"), Libp2pTransportConfig::default())
        .expect("config should be valid");
    let sender = peer("peer-remote");
    let reply: SwarmReplyMessage = transport.process_swarm_message(
        &sender,
        41,
        DISTRIBUTED_TRANSPORT_PROTOCOL_VERSION,
        SwarmRequest::HealthCheck,
        77,
    );
    assert_eq!(reply.message_id, 77);
    assert_eq!(reply.correlation_id, Some(41));
    assert_eq!(reply.source_peer_id, "peer-local");
    assert_eq!(reply.target_peer_id.as_deref(), Some("peer-remote"));
    assert_eq!(reply.protocol_version, DISTRIBUTED_TRANSPORT_PROTOCOL_VERSION);
    assert!(matches!(reply.payload, SwarmReply::HealthStatus { available: true }));

    let mismatch = transport.process_swarm_message(&sender, 42, 9, SwarmRequest::HealthCheck, 78);
    assert_eq!(mismatch.correlation_id, Some(42));
    assert_eq!(mismatch.protocol_version, DISTRIBUTED_TRANSPORT_PROTOCOL_VERSION);
    assert_eq!(mismatch.target_peer_id.as_deref(), Some("peer-remote"));
    match mismatch.payload {
        SwarmReply::Error { message } => assert_eq!(
            message,
            "protocol version mismatch in swarm neuralnet-distributed@v1: expected 1, got 9"
        ),
        other => panic!("unexpected {:?}", other),
    }
}
