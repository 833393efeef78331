# coplex-cage

Cage runs several WebAssembly agents side by side, each with a fuel budget,
and lets them exchange messages through a configurable router (direct,
broadcast, glob pattern, hub-and-spoke) with an optional dead-letter queue.

This crate is written in Verus. The library under `src/` holds the
decisions of the runtime, each stated by a contract and proved:

- `router/` — the topologies and which agents a message reaches;
- `orchestrator.rs` — the agent registry and its lifecycle (spawn, kill,
  pause, resume), routing, the accounting of a tick and of a round, and
  when a checkpoint is due;
- `snapshot.rs` — what a checkpoint records and how a registry is rebuilt
  from one;
- `sandbox.rs` — how the host functions answer an agent: the URL
  whitelist, environment lookups, HTTP request planning, peer sends;
- `ipc.rs`, `json.rs`, `text.rs`, `cli.rs` — message framing, the JSON
  calls made through `serde_json`, small string helpers and argument
  parsing.

`app/` is the `cage` command line: it loads and runs the WebAssembly
modules with Wasmtime, performs file and network I/O, and calls the
library for every decision. `tests/` exercises the library on concrete
values.
