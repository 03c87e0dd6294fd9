# shimmy

The decisions of a local inference server, verified with Verus.

- `src/engine/adapter.rs` chooses the engine that serves a model, from its path, its name, the
  engines that are built in and the machine, and plans how it is loaded.
- `src/engine/candle_engine.rs` decides which GGUF models the candle engine takes, picks a token
  greedily from logits, and runs a turn of generation between forward passes.
- `src/tool_calling.rs` writes the tools of a request into the system prompt, and reads the calls
  that a model emits. `src/tool_calling/laws.rs` proves what holds of it as a whole.
- `src/text.rs` and `src/engine/path.rs` search and cut text and paths.
- `src/json.rs`, `src/engine/gguf.rs` and `src/engine/tokenizer.rs` state what is trusted of
  `serde_json`, `candle_core` and `shimmytok`.

`app/` holds the rest of the engines: files, the CUDA device, the model's forward passes and the
async interfaces.
