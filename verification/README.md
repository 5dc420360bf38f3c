# cornell_notes

A library for Cornell Notes documents (cues in the left column, notes in the
right column, grouped in sections, with a summary), written in Verus: the
data model, the schema's validation rules and the Markdown export carry
contracts that Verus proves.

Layout:

- `src/model.rs` — the data types, their constructors and mutators.
- `src/validate.rs` — the validation rules, stated as spec functions that give
  the first rule a document breaks, and the checks, proved to report exactly that.
- `src/validity.rs` — validity stated rule by rule, and laws relating it to the
  checks, to the constructors and to adding entries.
- `src/markdown.rs` — the Markdown export and the exact text it produces.
- `src/order.rs` — stable ordering by position, and the proof that it is unique.
- `src/rearrange.rs` — laws of the export: it ignores the order in which
  entries are stored, and reads nothing but what it prints.
- `src/ids.rs`, `src/time.rs`, `src/text.rs`, `src/error.rs` — identifiers,
  points in time, text building, errors.
- `app/` — JSON (serde) and file input/output around the library.
- `tests/` — tests run against the compiled library.
