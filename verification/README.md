# NeuralForge

A CPU-first inference runtime for Qwen3 models. The library crate
`neural_forge` (in `src/`) holds the parts of the runtime that decide and
compute on plain values, each with a contract proved by Verus:

- `gguf`, `gguf_parse`, `gguf_access`: the GGUF header reader (metadata,
  tensor directory, safety limits, 32-byte aligned data start) and the
  accessors of a parsed header; `gguf_laws` proves that every accepted header
  respects the limits and that reading more of a file never changes a result
  that did not stop for want of bytes, and that a tagged value reads as its
  type tag followed by an element of that type.
- `safetensors`, `sorting`: the Safetensors header checks and the name order
  of its tensors.
- `base64`, `numparse`, `token_map`, `bpe`, `tokenizer`: loading tiktoken rank
  files, byte-pair encoding and decoding; decoding gives back every text
  whose pre-tokenization matches cover it without gaps.
- `qwen`: the model configuration read from metadata, the tensors to load and
  the key/value cache.
- `generation`: the schedule of prefill and decoding as a state machine.
- `planner`, `hardware`, `models`, `api`, `cli`: memory planning, hardware
  estimates, the model cache, request screening and the chat prompt, and the
  command-line decisions.
- `quant`: half-precision bit conversions and quantized block decoding.

The program in `app/` is the command line around it: argument parsing,
terminal output, file and network input/output, the HTTP server, and the
floating-point model kernels and samplers.

Tests of the library are under `tests/`.
