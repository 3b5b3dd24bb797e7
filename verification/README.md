# bittice

A columnar read-layer data engine whose logic is written in Verus: each function
states what it returns in `requires` and `ensures`, and Verus proves it.

- `src/` holds the verified library. Storage is in `column`, `segment`, `table`,
  `upkeep`, `compaction`, `soundness`, `sweep`, `wal` and `manifest`; indexes are in
  `primary_index`, `exact_index`, `exact_index_v3` and `field_index`; queries are in
  `types`, `lookup`, `query`, `sorting` and `hits`; the terminal is in `repl`,
  deployments are in `deploy`, and the rest of the program's decisions are in
  `launch`, `release`, `settings`, `vpn` and `writer`.
- `tests/` runs the library on concrete values.
- `app/` is the program around it: files, terminals, processes and the network.
  Numbers are read there as floating point; the library takes their bits.

Public proof functions named `law_*` state what holds across functions. Functions
marked `external_body`, `assume_specification` items and the spec functions without a
body are what is believed of other crates; each says in its comment what it claims.
