# codejourney

Git repository analytics and security scanning, with its logic verified by Verus.

- `src/` is the verified library: the report output (terminal lines and buffering),
  the repository analytics over commit histories, the security checks, license
  detection, cyclomatic complexity, SAST rules, dependency parsing (SCA), the
  dependency graph analysis, fix suggestions, scan-history metrics, the report
  parser and the HTML report body. Every function carries a contract over
  mathematical models (`Seq`, `nat`, spec functions); the laws the library
  promises (counting, ranking and sorting, version ordering, output buffering,
  HTML escaping, skip rules) are proof functions.
- Calls into `regex`, `serde_json`, `toml` and `chrono` go through small trusted
  wrappers in `src/pattern.rs`, `src/value.rs`, `src/text.rs` and `src/calendar.rs`,
  whose results are named by uninterpreted spec functions.
- `app/` is the command-line program: argument parsing (clap), reading the git
  repository (git2), spinners (indicatif), the PDF report (printpdf), the SQLite
  scan history (rusqlite) and the HTTP server (axum, tokio).
- `tests/` runs the library on concrete repositories, commits and reports.
