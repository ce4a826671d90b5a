# brain-dump core

Capture ideas and break them into projects, phases and tasks, linked by
dependencies, and tagged. The library in `src/` is written in Verus: every
query on the store has a contract that states its outcome exactly over a
mathematical view of the tables, and `src/laws.rs` proves what holds across
queries (for instance that the `blocks` dependencies never form a cycle, and
that deleting a node removes everything below it and every row that refers
to it).

A `Store` always meets the schema's constraints (unique keys and unique
columns, and every reference naming an existing row): this is its type
invariant, which every query keeps and every reader may rely on. Rows read
back from a file enter a store only through `Store::from_tables`, which
checks them.

Layout:

- `src/` — the verified library (`brain_dump_core`).
- `tests/` — tests of the library on concrete values.
- `app/` — the `bd` command line: it keeps the tables in a SQLite file
  (`~/.brain-dump/brain-dump.db`), loads them into a `Store` inside one write
  transaction, runs the verified query and writes the tables back. It also
  holds the command layer for the desktop front end and the serializable
  copies of the records used for `--json` output.

Identifiers are ULIDs (`ulid`) and timestamps RFC 3339 strings (`chrono`);
the queries that draw them do so through two small trusted functions and
hand the values to `*_with` queries whose contracts are exact.
