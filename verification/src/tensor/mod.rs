pub mod backend;
pub mod device;
pub mod errors;
pub mod distributed_backend;
pub mod adapters;
pub mod tensor_io;
pub mod shape;
