# lib: a verified file-backed key-value store

Pairs of strings are kept in memory in insertion order and persisted to a
`.dat` file in a binary format: for each entry, a 4-byte little-endian key
length, the key's UTF-8 bytes, a 4-byte little-endian value length and the
value's UTF-8 bytes.

## Layout

- `src/text.rs`: whitespace trimming of keys and values (Unicode `White_Space`).
- `src/codec.rs`: encoding and decoding of the file format, and the proof that
  decoding what was encoded gives the entries back.
- `src/file_manip.rs`: `KnownFile`, the path and in-memory entries, with the
  operations on them (append, remove by key, update in place, reload from bytes).
- `src/shrub.rs`: `TErrors`, `Logger` and `Instance`. Operations that reach the
  disk return an `Action` (load, save, remove, finish); the embedding code
  performs it and calls `Instance::resume` with the `Event` that came of it.
- `src/laws.rs`: properties of the operations taken together.
- `app/lib.rs`: the file-system side: it performs the actions on real files
  (writing a `.tmp` file and renaming it over the `.dat` file) and offers
  one-call versions of the operations.
