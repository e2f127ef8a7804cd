# today

Collects dated events (singular dates, yearly month-and-day dates, and
rules such as "first Monday in January") from text files, CSV files,
SQLite databases and web endpoints, and lists those of a day that pass a
filter of categories and text.

Layout:

- `src/` — the library, verified with Verus: dates and rules
  (`date.rs`, `event.rs`), filters (`filter.rs`), what each kind of source
  reads and writes (`providers/`), the configuration (`config.rs`), the
  command line's requests (`cli.rs`), the birthday greeting (`birthday.rs`),
  plain listings (`listing.rs`) and text handling (`chars.rs`).
- `app/` — the `today` program: argument parsing, the configuration file,
  and the file, database and network access around the library.
- `tests/` — tests of the library.
