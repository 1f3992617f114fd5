# slipstream_state

The state of a Photo Library: Albums and their members, decisions about Photos,
removals and restorations, scans of Original Files, edit recipes, Exports, and the
schema of the SQLite database that holds them.

`src/` is a Verus library. It decides: a function takes what is stored, as plain
rows, and a request, and returns what is to be stored and what is answered. Every
function has a contract over the views of its arguments, and every contract is
proved. What holds across functions is stated by the public proof functions whose
names begin with `law_`.

`app/` is ordinary Rust around the library. It opens the state directory and the
database, reads the rows that a decision needs, stores what was decided in one
transaction, and runs the one thread that owns the connection. `tests/` runs the
library.

| Modules | What they hold |
| --- | --- |
| `text`, `numeral`, `order`, `sorting`, `path`, `identity`, `binary`, `json` | texts, numbers, orders, paths, identities, digests |
| `error`, `limits`, `versions`, `codec` | errors, bounds, version tokens, stored names |
| `album`, `album_state`, `album_change`, `album_checked`, `album_order`, `album_laws` | Albums |
| `photo_state`, `photo_change`, `photo_decision` | decisions about Photos |
| `removal`, `restore`, `removed_page` | removed Photos |
| `query`, `query_source`, `capture_bound`, `photo_read` | queries and what is told of Photos and Albums |
| `scan_state`, `scan`, `scan_laws`, `snapshot` | scans |
| `recovery`, `manual_recovery`, `manual_recovery_laws` | fingerprints and relocations |
| `schema`, `startup`, `legacy`, `split_pairs` | the schema and its migrations |
| `expansion`, `binding` | binding a library to a larger root |
| `edit_recipe`, `export`, `export_store`, `export_change` | edit recipes and Exports |
| `admission`, `owner`, `dispatch` | the state directory and the owner of the database |

Floating-point numbers are held as their bits (`binary::Real`). Outside functions
that the library calls stand behind the few items marked
`#[verifier::external_body]`; the doc comment of each says what is taken on trust.
