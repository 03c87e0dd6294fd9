//! What the engines share: the models they are asked for and the options of a turn.
use vstd::prelude::*;

pub mod adapter;
pub mod candle_engine;
pub mod gguf;
pub mod path;
pub mod tokenizer;

verus! {

/// A model to load.
#[derive(Debug, Clone)]
pub struct ModelSpec {
    pub name: String,
    pub base_path: String,
    pub lora_path: Option<String>,
    pub template: Option<String>,
    pub ctx_len: usize,
    pub n_threads: Option<i32>,
}

/// How a model is reached through the universal interface.
#[derive(Debug, Clone)]
pub enum ModelBackend {
    HuggingFace { base_model_id: String, peft_path: Option<String>, use_local: bool },
}

/// A model to load through the universal interface.
#[derive(Debug, Clone)]
pub struct UniversalModelSpec {
    pub name: String,
    pub backend: ModelBackend,
    pub template: Option<String>,
    pub ctx_len: usize,
    pub device: String,
    pub n_threads: Option<i32>,
}

/// The options that greedy decoding reads.
#[derive(Debug, Clone)]
pub struct GenOptions {
    pub max_tokens: usize,
    pub stop_tokens: Vec<String>,
}

} // verus!
