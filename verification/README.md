# ovn_core

The core of the Oblivinx3x document database, written in Verus: every
executable function in `src/` carries a `requires`/`ensures` contract that
Verus proves, and the properties that relate several functions stand as
public proof functions (their names begin with `lemma_`).

## Layout

- `src/format/` — the `.ovn2` file formats: file header, page headers, the
  segment directory and the OBE document encoding, each with a byte-level
  decoder whose result is stated exactly and a round trip proved.
- `src/mvcc/` — transaction ids, snapshots and visibility, version chains,
  conflict detection at commit, the hybrid logical clock and read-your-writes
  sessions.
- `src/index/` — the tier-0 adaptive radix tree, full-text indexing and the
  secondary-index bookkeeping.
- `src/query/` — the grammars of filters, update documents and aggregation
  stages (read from OBE values, with every error stated), filter and update
  operators, index selection and the SQL lexer and parser.
- `src/engine/` — savepoints, triggers, relations, configuration and the other
  engine-level rules, and the decisions of the engine's operations: how a
  file is opened (`open`), which stored entries a find returns (`crud`), how
  a plan is explained (`explain`) and how a backup file is framed (`backup`);
  `src/recovery.rs` — recovery bookkeeping and reports.
- `src/distributed/`, `src/security/`, `src/compression/`, `src/io/`,
  `src/background/` — Raft roles, chained HMAC authentication, compression
  dispatch, storage backends and background-task decisions.
- `tests/` — tests of the library on concrete values.
- `app/` — plain Rust around the library: file and network I/O, threads,
  JSON conversion and the parts that compute with floating point.

Calls into outside crates (`crc32c`, `lz4_flex`, `zstd`, `hmac`/`sha2`,
`uuid`) and into parts of `std` without a Verus specification go through
small `#[verifier::external_body]` wrappers whose doc comments say what each
contract assumes of the outside code.
