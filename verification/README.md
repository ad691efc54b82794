# rusty-pee

Fan one input stream out to N concurrent shell-spawned children, like
moreutils `pee`, with exit-code aggregation and clean handling of children
that stop reading.

## Layout

- `src/` — the verified library (Verus):
  - `lib.rs` — `CompatibilityMode`, `PeeBuilder` / `Pee` (build-time validation:
    Strict mode refuses capture).
  - `fanout.rs` — the live-set state machine of the write loop, with the
    pipeline-safety proofs (a sink still live at the end received every chunk,
    in registration order; failing sinks leave only after the chunk is complete).
  - `mode.rs` — Default/Strict resolution (flag, `RUSTY_PEE_STRICT`, `argv[0]`).
  - `strict.rs` — the Strict-mode argv scanner and its messages.
  - `aggregate.rs` — `max` / bitwise-OR exit aggregation and exit statuses.
  - `capture.rs` — argv-ordered layout of captured child output.
- `app/` — the `rusty-pee` binary: clap parsing, completions, process spawning,
  pipes, threads and stream I/O, driven by the library's decisions.
- `tests/` — tests of the library.
