pub mod brain;
pub mod cnn;
pub mod collections;
pub mod distributed;
pub mod input;
pub mod rag;
pub mod tensor;
pub mod text;
