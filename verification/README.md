# rewrite_trace

Rewrite traces of equality-saturation programs, verified with Verus.

A trace takes a program with a seed expression `$expr`. It extracts the seed before
the first round and after each round, every time from a fresh engine that runs the
iterations of all rounds so far, and reports by how much the cost falls. With proofs
on, each round also reports the rules that prove the extracted expression equal to
the seed, as a compressed chain such as `A x2 -> (B -> C) x2 -> D`.

The engine is a parameter: `run_rewrite_trace` takes one function that parses a
program and one that runs a program on a fresh engine, and its contract says which
programs they are given and what the report makes of their replies.
`run_rewrite_trace_checked` does the same for any configuration, and comes back with
nothing where a round would need more iterations than can be counted. A driver that
cannot hand over functions steps a `TraceSession` instead.

- `src/chain.rs`: compression and rendering of rule chains
- `src/catalog.rs`: the catalog of motifs over many rounds
- `src/command.rs`, `src/program.rs`: what a trace reads from a program, and the
  programs that it writes
- `src/engine.rs`: settings, requests and replies of the engine
- `src/trace.rs`: the trace itself
- `src/*_laws.rs`: what holds of every chain, catalog, program and trace
- `src/paths.rs`: paths and quoting, trusted to the standard library
- `app/`: tracing a file, and reports that serialize
