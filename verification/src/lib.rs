//! Metadata analysis for locally hosted language models: tensor
//! classification, checkpoint index bookkeeping, configuration
//! normalisation and exact memory arithmetic.

pub mod text;

pub mod tensor_classifier;
pub mod safetensors_index;
pub mod precision;
pub mod model_config;
pub mod memory_planner;
pub mod report;
