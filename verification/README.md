# hud

Find what is blocking a Tokio runtime: an eBPF profiler that watches the
scheduler, samples the stacks of the runtime's worker threads and shows the
functions that keep them busy, live in the terminal or as a Chrome trace.

## Layout

- `src/` — the library, verified with Verus. Everything that decides or
  computes lives here, each function with a contract:
  - `classification`, `symbolization` — where a stack frame comes from,
    the executable's address range in `/proc/<pid>/maps`, the resolution of
    addresses through the binary's DWARF information (cached per address),
    resolved frames and their printed form;
  - `process_lookup`, `preflight`, `cli` — finding the target process,
    the checks before profiling, command-line decisions, when profiling
    stops, and exit codes;
  - `profiling` — the decisions of the probes (execution spans, blocking
    detection, event records), worker discovery by name and by stack,
    event routing, stack resolution through a cache, headless output;
  - `trace_data`, `analysis` — samples, the stack cache, the session
    accumulator, saved traces read back into a session, and hotspot
    aggregation (incremental and batch, proved to agree);
  - `tui` — layout, the hotspot list with filters (by name and by
    worker), grouping and scrolling, the content of the detail view,
    worker statistics and key handling of the live display;
  - `export` — the timeline in the Chrome trace event format;
  - `text` — character-sequence helpers with their specifications.
- `tests/` — tests of the library.
- `app/` — the program around the library: command line, `/proc` and
  `/sys` reading, reading the binary, loading and attaching the probes,
  the terminal drawing, the JSON export and reading a saved trace back
  (`--tui FILE`).

Verification: `verus src/lib.rs` with the outside crates of `Cargo.toml`.
