# delta_stream

State synchronization for realtime applications: a publisher sends an initial
snapshot and then compact deltas (or compressed packets) whenever they are
cheaper; a subscriber checks sequence numbers, schema and base-state hashes and
asks for recovery instead of applying a delta that does not fit its state.

The library is written in Verus, and Verus proves the contracts of the
executable functions in `src/`. The laws of the library are public proof
functions or clauses of the functions they are about: codec roundtrips, CRDT
merge laws, a receiver that follows its sender, no rollback, exact partial
repair, and convergence of the simulations when every payload fits the
receiver's limit. The generic subscriber gates each delta through
`sync::delta_gate`, which answers a base-hash mismatch with a recovery request.
Where the result depends on the compressor, the checksum, or a state type's
own encoding, the contracts state it in terms of those results. The
edge-case suite states the name of every check it reports, and that the checks
on tiny states, resizing, smart deltas, publisher restart, stale snapshots and
the largest sequence pass. The other checks depend on the sizes the compressor
produces or on checksum values, and their outcome is stated in those terms or
left open. The validation suites state how many checks they report.

Layout:

- `src/packet.rs`: the wire format, with decoding rules written as a
  specification.
- `src/sync.rs`, `src/api.rs`, `src/schema.rs`: agent-state and generic
  encoders and decoders, the publisher and subscriber surface.
- `src/adaptive.rs`: how the encoder chooses between snapshot and delta, raw
  and compressed.
- `src/smart_delta.rs`, `src/byte_sync.rs`, `src/v30_sync.rs`,
  `src/fast_selector.rs`: byte-level delta strategies and the byte-state
  encoders.
- `src/reorder.rs`, `src/replay.rs`, `src/recovery_history.rs`,
  `src/recovery_v30.rs`, `src/partial_repair.rs`: reordering, duplicate
  suppression and recovery planning.
- `src/crdt/`: grow-only and positive-negative counters, last-writer-wins
  registers.
- `src/chaos.rs`, `src/multi_client.rs`, `src/torture.rs`,
  `src/v30_torture.rs`, `src/edge_cases.rs`, `src/v25_validation.rs`,
  `src/v30_validation.rs`: deterministic fault simulations and release checks.
- `src/ext.rs`: the contracts assumed of `crc32fast` and `zstd`.
- `app/`: the command-line program, benchmarks, the dashboard server, network
  transports and the JSON forms of the library's types.
- `tests/`: tests run against the compiled library.
