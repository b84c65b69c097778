//! NeuralForge: the verified core of a local inference runtime for Qwen3 models.
//!
//! The crate holds the parts of the runtime that decide and compute on plain
//! values: the GGUF and Safetensors header readers, the tiktoken tokenizer,
//! the model configuration and key-value cache, the memory planner, the
//! generation schedule and the request logic of the HTTP API.

pub mod dtype;
pub mod shape;
pub mod types;
pub mod error;
pub mod text;
pub mod bytes;
pub mod gguf;
pub mod gguf_parse;
pub mod gguf_access;
pub mod gguf_laws;
pub mod qwen;
pub mod token_map;
pub mod base64;
pub mod numparse;
pub mod bpe;
pub mod tokenizer;
pub mod planner;
pub mod generation;
pub mod api;
pub mod models;
pub mod quant;
pub mod cli;
pub mod safetensors;
pub mod hardware;
pub mod sorting;
