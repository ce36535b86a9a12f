# honu

honu records the commands you run in your shell in an SQLite database, imports
the history files of Bash, Fish and Zsh, and lets you search what you ran with
a fuzzy finder bound to control-r.

The library is written in Verus: its functions carry `requires` / `ensures`
contracts, and Verus proves that the code meets them.

## Layout

- `src/` — the verified library.
  - `parser.rs`, `lines.rs`, `shell/` — history parsing: a parser is a state
    machine over lines, specified by `step` and `end` spec functions; the Bash,
    Fish and Zsh parsers (with Zsh unmetafying) are proved against theirs.
  - `record.rs` — records and their fingerprints, length-framed so that a
    fingerprint determines the record's kind and parts.
  - `diff.rs` — reconciling a history with the previous import of the same
    file: the diff of fingerprints that `imara-diff` computes, an edit script
    that leaves the common prefix and suffix untouched, and the laws that
    follow from it (an unchanged history keeps every execution, appended
    lines are the only new ones, a history cut at its start or at its end
    adds nothing).
  - `database.rs`, `sqlite.rs` — the schema, imports, inserts and queries, on
    top of `rusqlite` behind small trusted wrappers.
  - `choice.rs`, `truncate.rs`, `batching.rs` — the rows of interactive
    search, display-width truncation, and how commands are handed to the
    finder (the first alone, then 256 at a time).
  - `init.rs` — the shell integration scripts.
  - `text.rs`, `error.rs`, `command.rs`, `execution.rs` — numerals, byte
    strings, errors and their messages, and the stored types.
- `tests/` — tests of the library.
- `app/` — the command-line program: argument parsing, configuration, file
  and terminal I/O, and the fuzzy finder.
