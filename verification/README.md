# noil

A log correlation library, verified with Verus. Records from several log
sources are read line by line into multi-line records, merged into one
timestamp order under per-source watermarks, and grouped into *fibers*: sets
of related records joined by key values that a fiber type's patterns
extract.

## Layout

- `src/` — the verified library.
  - `source/` — timestamp extraction and the line-by-line record reader.
  - `sequencer/` — the watermark-ordered merge of several sources.
  - `fiber/` — open fibers (`session`), compiled fiber types (`rule`), the
    fiber processor that matches, merges and closes fibers, and the laws of
    its key index (`key_index`).
  - `collector/`, `parent/` — epoch batching, the batch buffer and the
    bookkeeping of the collector protocol.
  - `config/` — configuration types, validation, version hashing, diffs,
    three-way merge and the startup reconciliation machine.
  - `web/` — the decisions of the web API: paging, YAML editing of fiber
    types (with the laws that an edit reads back, `yaml_laws`) and the
    working-set test.
  - `matcher.rs`, `time.rs`, `ids.rs` — the trusted edges to `regex`,
    `chrono` and `uuid`.
- `tests/` — tests of the library.
- `app/` — the command line program: configuration files, reading log
  files and printing fibers.
