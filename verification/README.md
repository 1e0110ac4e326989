# rika

A personal assistant server whose decision-making core is verified with Verus.

- `src/` — the verified library: configuration defaults and validation, the
  tool permission engine, session bookkeeping, run scheduling, the agent's
  step-by-step state machine, streamed and non-streamed chat replies, tool
  request readers and result builders (files, search, shell, processes, web
  fetch and search), skills and prompt assembly, MCP status and OAuth helpers.
  Calls into outside crates (regex, glob, url, serde_json, uuid, chrono, sha2,
  base64, rand) go through small trusted wrappers whose contracts are stated
  next to them.
- `tests/` — tests of the library on concrete values.
- `app/` — the `rika` binary: CLI, HTTP/WebSocket gateway, model and MCP
  clients, and all file, network and process I/O.
