# blazelint

A linter for Python, Rust and JavaScript/TypeScript sources, written in Verus.
The library works on the raw bytes of a file: it splits them into lines
(with `memchr`), runs its rules on each line and, in fix mode, computes the
rewritten content. Its contracts state exactly which reports come out, in
which order, and what the fixed content is; `src/laws.rs` proves properties
that hold across calls (content kept when nothing is fixed, fixed lines end
without whitespace, every report names a rule and a line of the file).

- `src/bytes.rs`, `src/lines.rs`: byte-string helpers and line splitting.
- `src/language.rs`: file extensions and the languages they name.
- `src/rules.rs`: the lint rules, as spec functions and their checks.
- `src/fix.rs`: the fixes.
- `src/analyze.rs`: linting a whole file and formatting its reports.
- `src/report.rs`: reports, decimal notation and coloured output.
- `src/debug_scan.rs`: a lighter scan for debug output, keys and outdated APIs.
- `src/cache.rs`: when a cached file may be skipped.
- `src/laws.rs`: properties of the library as a whole.
- `app/main.rs`: the command line: directory walk, memory-mapped reading,
  atomic write-back, progress bar and cache file.
