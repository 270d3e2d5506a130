# pigtree

The verified core of the PigTree disk-usage analyser, written in Verus.

- `src/model.rs`, `src/builder.rs`: observation records and their ingestion
  into a directory tree, with the structural and aggregate checks that refuse
  malformed streams (`GraphBuilder`, `build_graph`).
- `src/aggregate.rs`, `src/rollup.rs`, `src/tree.rs`, `src/layout.rs`,
  `src/order.rs`: settlement of a finished stream: hard-link alias groups and
  object records, subtree roll-ups with unique allocation, and the display
  order of each directory's children.
- `src/graph.rs`: the settled `DirectoryGraph` and its queries (entries,
  hard-link report, paginated child listings).
- `src/validator.rs`, `src/win32.rs`: scan-target classification.
- `src/security.rs`, `src/session.rs`, `src/process.rs`: channel-key
  derivation, pipe security descriptors, handshake checks, frame numbering,
  and Windows command-line quoting.
- `src/cli.rs`, `src/scan_call.rs`, `src/runner.rs`, `src/engine_host.rs`:
  command-line parsing, scan-call and worker decisions, exit codes, and the
  engine host's replies.
- `src/frame.rs`: the frame header and checksum trailer of the IPC transport.
- `src/messages.rs`: the texts of the library's errors.
- `src/laws.rs`: properties that span calls (terminal finality, root totals,
  hard-link accounting, child order and paging, refusal neutrality, quoting
  and wide-string round trips, ...).
- `app/main.rs`: the command-line front end around the library.
