# Ryokan

The records and rules of a self-hosted recorder for anime series, as a verified
library, and a small server around it.

- `src/` is the library. Every record is a plain value, every operation on the
  records a function with a contract, and what holds of several operations
  together is stated as a public proof function.
  - `models` holds one module per kind of record: settings, series and what is
    kept of them, grabs, quality tags, feeds, indexers, download clients, caches,
    the log, keys of the interface. `models::startup` brings records of earlier
    versions to their present form.
  - `handlers` decides what the import wizard shows and does, and cuts lists
    into pages.
  - `routing` says which download client a grab goes to, `scheduler` when the
    feeds are polled and how a task is reported.
  - `source` names what a release is made of.
  - `table`, `text`, `json` and `number` are what these share.
- `app/` is the server: it reads the records from an SQLite file, lets the
  library change them, and writes them back.
- `tests/` runs the library on given values.

Time is an argument of the functions that depend on it; `is_timestamp_stale`
alone asks the clock, and leaves the rest to `is_stale_at`. A single- or
double-precision number is carried as its bits.

A first key for the interface is made with `ryokan new-key NAME SCOPE...`.
