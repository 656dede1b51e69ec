# prettycond

Reads a Kubernetes-style JSON document and lays out its status conditions as a
fixed-width table: type, status, reason and the age of the last transition
(for example `13m ago`). A `List` document gives one stanza per resource.

The library under `src/` is verified with Verus:

- `text.rs` — code-point order of strings, decimal digits, padding.
- `time.rs` — instants (`Timestamp`), parsing RFC 3339 through chrono, ages.
- `json.rs` — the JSON value, dot-separated paths and the walk along them.
- `table.rs` — column widths, padded lines and the alignment of columns.
- `order.rs` — condition rows, sort modes and the order of rows.
- `sort.rs` — a stable insertion sort under any strict weak order.
- `conditions.rs` — rows read from condition objects and the whole table.
- `document.rs` — list documents, their resources and stanzas.

`app/main.rs` is the command line: it reads standard input, parses the JSON
with serde_json, reads the clock and prints the lines that the library gives.
