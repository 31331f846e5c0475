# osu! map manager

The rules of a manager for a local osu! beatmap library, verified with Verus:
reading `.osu` files, deciding what a library scan reuses and reports,
filtering maps by controls or by the osu! search syntax, and signing in to
osu! through a backend.

- `src/query.rs`, `src/filters.rs`: the search syntax and the filter controls.
  `src/round_trip.rs` and `src/search_laws.rs` state what holds of them: what
  comes back when controls are written as a search and read again, and which
  maps a written search lets through.
- `src/osu_file.rs`, `src/local.rs`, `src/scan.rs`: beatmap files, repair
  issues, beatmap sets and the decisions of a scan. `src/file_laws.rs` states
  what holds of every file.
- `src/osu_oauth.rs`, `src/sign_in.rs`: addresses, forms, the loopback
  callback, sessions and their renewal, and the order of the steps of a
  sign-in. `src/encoding.rs` and
  `src/random_text.rs` hold percent encoding, Base64 and random texts.
- `src/single.rs`, `src/natural.rs`, `src/decimal.rs`, `src/numeral.rs`:
  single-precision numbers by their bits, with exact rounding, and how they are
  read and written. `src/rounding.rs` and `src/short_numbers.rs` hold facts
  about them.
- `src/text.rs`, `src/table.rs`, `src/path.rs`: texts as sequences of
  characters, tables with texts for keys, and paths that are compared part by
  part.
- `src/outside.rs`: the calls into the standard library and other crates whose
  contracts are taken on trust.
- `app/`: files, threads, the network and the browser around the library.
- `tests/`: examples, and comparisons with the machine's own arithmetic.
