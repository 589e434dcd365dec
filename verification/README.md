# celld

A verified core for a desktop tool that maps the columns of source Excel
workbooks onto a template and merges their rows into one workbook shaped like
the template.

- `src/` is the library, verified with Verus: header normalization, aliases,
  history, content recognition, the staged header matcher and its greedy
  one-to-one assignment, sheet previews and samples, header-row features,
  row transformation, the placement of a sheet's cells, the workbook XML
  parts that say which rows a sheet hides (read through quick-xml), the cache
  of template embeddings, sheet names, and the decisions
  behind each command (manual edits, confirmation checks, conversion checks,
  output names and paths, source labels).
- `src/mapping/inference.rs` states the matcher's central laws: matching is
  one-to-one and content inference never takes a column that a header match
  holds.
- `tests/` runs the library on concrete cases.
- `app/` is the plain Rust around it: opening and writing workbooks, the
  SQLite history, embeddings and similarity scores (floating point), header-row
  scoring, the session store and the commands.

Match scores are carried in the library as order keys of their 32-bit float
values (see `src/domain/mapping.rs`); `app/embedding.rs` converts both ways.
