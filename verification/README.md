# voxflow

The verified core of an audiobook production tool: a writing agent turns an
outline into a script with a language model, the script's lines are
synthesised with Alibaba Cloud Bailian (DashScope) speech models, and the
clips are mixed with FFmpeg.

## Layout

- `src/` — the library, checked with Verus. Every function but the random
  id generator states its result in `ensures`; the `law_*` proof functions state properties that span
  calls (chunking keeps the text, sessions partition the chunks, a complete
  batch leaves nothing to synthesise, completed JSON closes everything, ...).
  - `tts`, `synth`, `merge`, `dashscope` — chunking text for synthesis,
    routing to the HTTP or realtime API, the realtime session's state
    machine, request bodies, joining chunk audio.
  - `json`, `script`, `stream`, `prompts`, `tools`, `agent` — reading model
    replies (streamed deltas, fences, object spans, truncated JSON), turning them into scripts, the
    prompts, the agent's tools and turns.
  - `audio`, `cli`, `storage`, `events` — FFmpeg mixing arguments, PCM
    decoding, the command line's decisions, store helpers, event summaries.
  - `text`, `fmt`, `models`, `error` — strings, numbers, data, errors.
- `tests/` — the tests, run against the compiled library.
- `app/` — the `voxflow` command-line program: argument parsing, the SQLite
  store, HTTP streaming, FFmpeg processes and JSON output around the
  library.
