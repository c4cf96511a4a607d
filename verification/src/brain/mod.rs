pub mod framing;
pub mod nodenet;
pub mod snapshot_paths;
pub mod write_state;
pub mod query_cache;
pub mod decisions;
