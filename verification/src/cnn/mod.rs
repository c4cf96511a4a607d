pub mod data_pipeline;
pub mod rng;
pub mod cnn_trainer;
pub mod classifier;
pub mod image_sample;
pub mod feature_extractor;
pub mod coalescing;
pub mod evaluation;
