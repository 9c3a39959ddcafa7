# incfleetchat

Site timers and run analytics for EVE Online incursion fleets, as a Verus
library with a thin host around it.

- `src/` is the verified library. Chat and gamelog parsing (`parse`,
  `gamelog_parse`, `encoding`), the overlay board and its marks (`board`,
  `state`, `idset`, `site_id`), picking the active logs (`resolve`,
  `gamelog_watch`), the wallet and manifest parsers (`wallet_parse`,
  `spawn_parse`), site timing and hourly buckets (`timing`), gamelog
  enrichment and its aggregate (`enrichment`, `enrichment_pipeline`,
  `gamelog_scan`) and the Tools run desk (`run_desk`). Times are UTC
  seconds; calls into `chrono`, `sha2`, `hex` and `std::path` sit behind
  small trusted wrappers whose contracts name or state their results.
- `app/` is the host: SQLite storage (`sqlx`), reading the log
  directories, `notify` watchers, serde forms of the library's types, and
  the floating-point display values (averages, LP value, hourly rates).
- `tests/` runs the library on concrete inputs.
