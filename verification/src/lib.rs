//! The decisions of a local inference server: which engine serves a model, how a turn of
//! generation proceeds, and how tool calls are written into a prompt and read back.
pub mod engine;
pub mod json;
pub mod openai_compat;
pub mod text;
pub mod tool_calling;
