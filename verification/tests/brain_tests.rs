use neuralnet::brain::decisions::{QuestionStoreDecision, SnapshotLoadStatus, SupervisedSample};
use neuralnet::brain::framing::{
    append_record_bytes,
    encode_log,
    frame_bundle,
    parse_log,
    unframe_bundle,
    LogFramingError,
    RecordTooLarge,
    MAX_RECORD_BYTES,
};
use neuralnet::brain::query_cache::{query_cache_key, QueryScoreCache};
use neuralnet::brain::snapshot_paths::{
    bundle_file_name,
    fingerprint_instance_id,
    sanitize_instance_id,
    snapshot_component_names,
    snapshot_id_segment,
    snapshot_location,
    transaction_log_file_name,
    SnapshotLocation,
};
use neuralnet::brain::write_state::{wal_fsync_enabled_for, SnapshotWriteState, TransactionLogState};
use neuralnet::input::MultiModalInput;

fn fnv1a(text: &str) -> String {
    let mut hash: u64 = 0xcbf29ce484222325;
    for byte in text.as_bytes() {
        hash ^= *byte as u64;
        hash = hash.wrapping_mul(0x100000001b3);
    }
    format!("{hash:016x}")
}

#[test]
fn brain_snapshot_writes_v2_magic_header() {
    let bytes = frame_bundle(b"encoded snapshot");
    assert!(bytes.len() >= 4);
    assert_eq!(bytes[0..4], *b"BSP1");
    assert_eq!(unframe_bundle(&bytes), Some(b"encoded snapshot".to_vec()));
    assert_eq!(unframe_bundle(b"NTL1xx"), None);
}

#[test]
fn transaction_log_round_trips_records() {
    let records = vec![b"first".to_vec(), b"2".to_vec(), b"third record".to_vec()];
    let bytes = encode_log(&records);
    assert_eq!(bytes[0..4], *b"NTL1");
    assert_eq!(parse_log(&bytes), Ok(records.clone()));
    assert_eq!(parse_log(&[]), Ok(Vec::new()));
    assert_eq!(parse_log(b"XXXX"), Err(LogFramingError::InvalidHeader));

    let mut truncated = bytes.clone();
    truncated.truncate(bytes.len() - 3);
    assert_eq!(parse_log(&truncated), Ok(records[0..2].to_vec()));

    // A zero length ends the readable records.
    let with_empty = encode_log(&vec![b"a".to_vec(), Vec::new(), b"c".to_vec()]);
    assert_eq!(parse_log(&with_empty), Ok(vec![b"a".to_vec()]));
}

#[test]
fn appended_records_extend_the_log() {
    let first = append_record_bytes(true, b"abc").expect("small record");
    assert_eq!(first, vec![b'N', b'T', b'L', b'1', 3, 0, 0, 0, b'a', b'b', b'c']);
    let second = append_record_bytes(false, b"z").expect("small record");
    assert_eq!(second, vec![1, 0, 0, 0, b'z']);
    let mut log = first.clone();
    log.extend_from_slice(&second);
    assert_eq!(parse_log(&log), Ok(vec![b"abc".to_vec(), b"z".to_vec()]));
    let big = vec![0u8; MAX_RECORD_BYTES + 1];
    assert_eq!(append_record_bytes(false, &big), Err(RecordTooLarge::Bytes(MAX_RECORD_BYTES + 1)));
}

#[test]
fn snapshot_names_are_sanitized_and_fingerprinted() {
    assert_eq!(sanitize_instance_id("user/42 ok-_"), "user_42_ok-_");
    assert_eq!(fingerprint_instance_id("default"), fnv1a("default"));
    assert_eq!(snapshot_id_segment("  "), format!("default_{}", fnv1a("default")));
    let long = "x".repeat(60);
    assert_eq!(snapshot_id_segment(&long), format!("{}_{}", "x".repeat(48), fnv1a(&long)));
    let segment = snapshot_id_segment(" a/b ");
    assert_eq!(segment, format!("a_b_{}", fnv1a("a/b")));

    let (cognitive, memory, classifier) = snapshot_component_names("a/b", None);
    assert_eq!(cognitive, format!("{segment}_cognitive.nrn"));
    assert_eq!(memory, format!("{segment}_memory.nrn"));
    assert_eq!(classifier, format!("{segment}_classifier.json"));
    let (cognitive, _, classifier) = snapshot_component_names("a/b", Some(("store", "db")));
    assert_eq!(cognitive, format!("store_{segment}_cognitive.db"));
    assert_eq!(classifier, format!("store_{segment}_classifier.json"));

    assert_eq!(bundle_file_name("x_cognitive.nrn"), "x_bundle.nrn");
    assert_eq!(bundle_file_name("plain"), "plain_bundle.nrn");
    assert_eq!(transaction_log_file_name("x_cognitive.nrn"), "x_transactions.nrn");
    assert_eq!(transaction_log_file_name("plain"), "plain_transactions.wal");
}

#[test]
fn snapshot_instances_do_not_collide() {
    let a = snapshot_id_segment("tenant/a");
    let b = snapshot_id_segment("tenant_a");
    assert_ne!(a, b);
}

#[test]
fn snapshot_write_state_tracks_generations() {
    let mut state = SnapshotWriteState::new();
    let g1 = state.submit("k".to_string(), "/tmp/a".to_string(), vec![1]);
    let g2 = state.submit("k".to_string(), "/tmp/a".to_string(), vec![2]);
    assert_eq!((g1, g2), (1, 2));
    let pending = state.take_pending();
    assert_eq!(pending.len(), 1);
    assert!(state.take_pending().is_empty());
    assert!(!state.is_complete_at_least("k", 2));
    state.record_result("k", 2, Some("disk full".to_string()));
    assert!(state.is_complete_at_least("k", 1));
    assert_eq!(state.completion("k", 2), Some(Some("disk full".to_string())));
    assert_eq!(state.latest_error("k"), Some("disk full".to_string()));
    assert_eq!(state.completion("other", 1), None);
}

#[test]
fn transaction_log_state_orders_jobs() {
    let mut state: TransactionLogState<u8> = TransactionLogState::new();
    let s1 = state.submit("w".to_string(), "/tmp/w".to_string(), 7);
    let s2 = state.submit("w".to_string(), "/tmp/w".to_string(), 8);
    assert_eq!((s1, s2), (1, 2));
    let jobs = state.take_pending();
    assert_eq!(jobs.len(), 2);
    state.record_result("w", 2, None);
    assert_eq!(state.completion("w", 1), Some(None));
    assert_eq!(state.latest_error("w"), None);
    assert!(wal_fsync_enabled_for(Some(" TRUE ")));
    assert!(!wal_fsync_enabled_for(Some("0")));
    assert!(!wal_fsync_enabled_for(None));
}

#[test]
fn query_cache_keys_normalize_queries() {
    assert_eq!(query_cache_key(&MultiModalInput::Text("  Cat ON Mat ".to_string())), Some("t:cat on mat".to_string()));
    assert_eq!(query_cache_key(&MultiModalInput::Text("   ".to_string())), None);
    assert_eq!(query_cache_key(&MultiModalInput::ImageBytes(vec![1, 2])), None);
    let tokens = MultiModalInput::FeatureTokens {
        modality: " Vision ".to_string(),
        tokens: vec!["Edge:04".to_string(), " shape ".to_string()],
    };
    assert_eq!(query_cache_key(&tokens), Some("f:vision|edge:04\u{1f}shape\u{1f}".to_string()));
    let empty = MultiModalInput::FeatureTokens { modality: "v".to_string(), tokens: Vec::new() };
    assert_eq!(query_cache_key(&empty), None);
}

#[test]
fn query_score_cache_evicts_least_recently_used() {
    let mut cache: QueryScoreCache<u32> = QueryScoreCache::with_capacity(2);
    cache.insert("a".to_string(), 1);
    cache.insert("b".to_string(), 2);
    assert_eq!(cache.get("a"), Some(1));
    cache.insert("c".to_string(), 3);
    assert_eq!(cache.len(), 2);
    assert_eq!(cache.get("b"), None);
    assert_eq!(cache.get("a"), Some(1));
    assert_eq!(cache.get("c"), Some(3));
    cache.insert("a".to_string(), 10);
    assert_eq!(cache.get("a"), Some(10));
    cache.clear();
    assert_eq!(cache.len(), 0);
    assert_eq!(cache.get("a"), None);

    let mut tiny: QueryScoreCache<u32> = QueryScoreCache::with_capacity(0);
    tiny.insert("x".to_string(), 1);
    tiny.insert("y".to_string(), 2);
    assert_eq!(tiny.len(), 1);
    assert_eq!(tiny.get("x"), None);
    assert_eq!(tiny.get("y"), Some(2));
}

#[test]
fn decisions_and_samples() {
    assert_ne!(QuestionStoreDecision::Store, QuestionStoreDecision::Defer);
    let status = SnapshotLoadStatus { cognitive_loaded: true, memory_loaded: false, classifier_loaded: true };
    assert!(status.cognitive_loaded && !status.memory_loaded);
    let sample = SupervisedSample::new("greeting", MultiModalInput::Text("hi".to_string()));
    assert_eq!(sample.label, "greeting");
    assert_eq!(sample.content, MultiModalInput::Text("hi".to_string()));
}

#[test]
fn snapshot_location_prefers_directories_then_the_store_file() {
    assert_eq!(
        snapshot_location(Some("/tmp/given"), Some("/tmp/configured"), Some("/data/x.bin")),
        SnapshotLocation::Directory("/tmp/given".to_string())
    );
    assert_eq!(
        snapshot_location(None, Some("/tmp/configured"), Some("/data/x.bin")),
        SnapshotLocation::Directory("/tmp/configured".to_string())
    );
    assert_eq!(
        snapshot_location(None, None, None),
        SnapshotLocation::NextToStore {
            parent: ".".to_string(),
            stem: "multimodal_store".to_string(),
            extension: "nrn".to_string(),
        }
    );
    assert_eq!(
        snapshot_location(None, None, Some("/data/brains/main.store")),
        SnapshotLocation::NextToStore {
            parent: "/data/brains".to_string(),
            stem: "main".to_string(),
            extension: "store".to_string(),
        }
    );
    assert_eq!(
        snapshot_location(None, None, Some("plainfile")),
        SnapshotLocation::NextToStore {
            parent: "".to_string(),
            stem: "plainfile".to_string(),
            extension: "nrn".to_string(),
        }
    );
}
