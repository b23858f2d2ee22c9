pub mod audit;
pub mod cli;
pub mod decimal;
pub mod device;
pub mod encoder;
pub mod generation;
pub mod gpu;
pub mod gpu_context;
pub mod gpu_inference_context;
pub mod hex;
pub mod ieee;
pub mod init;
pub mod layout;
pub mod machine;
pub mod memory;
pub mod merge;
pub mod metabolic_core;
pub mod names;
pub mod pairs;
pub mod payload;
pub mod round_trip;
pub mod sampling;
pub mod save;
pub mod sovereign;
pub mod system;
pub mod tensor;
pub mod tokenizer;
pub mod train;
pub mod vocab;
pub mod writer;
