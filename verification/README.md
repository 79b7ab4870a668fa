# pi_switch

The decision logic of pi-switch — a local model-provider switcher with a
failover proxy, a recovery monitor, a raw request log, a web UI and a
terminal UI — as a Verus-verified library.

- `src/` is the verified library. Each module states its behaviour in
  `requires`/`ensures` over spec functions and views, and the laws that span
  several functions are public proof functions (`lemma_*`).
  - `config`: the configuration values the decisions read.
  - `models`: catalog lookup (namespaced and bare ids, preferred providers),
    enrichment of model entries, thinking-level maps, cache decisions.
  - `monitor`: failover chains, fully broken chains, probe requests and the
    probe plan of a monitoring pass, the recovery log.
  - `daemon`: what `start`, `stop` and `status` of the background services
    report and clean up, from what was observed.
  - `rawlog`: body capping, header filtering and masking, log entries and
    the newest-first views of the capture log.
  - `tui`, `layout`: the stats range picker, the profile table, the UI
    snapshot, text wrapping and overlay placement.
  - `web`: Basic auth, password generation, query parsing, asset paths.
  - `text`: character-level string helpers.
- `tests/` runs the library on concrete values.
- `app/` is the unverified shell: files, processes, sockets, HTTP, the web
  server and terminal drawing. It reads, calls the library, and writes.
