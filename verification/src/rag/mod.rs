pub mod bridge;
pub mod rag_io;
pub mod types;
