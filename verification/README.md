# lintdiff

Diff-scoped lint diagnostics as a verified library. The functions in `src/`
carry contracts that Verus proves, except a few thin wrappers marked
`#[verifier::external_body]` around calls into std and `serde_json` (path
logic, JSON parsing, lowercasing, UTF-8 decoding, `Debug` quoting,
`String::push`): their contracts are trusted, and each one's doc comment says
what it claims of the outside code.

- `src/` — the library. Counting (`counts`, `diff_stats`), classification
  (`diagnostic_level`, `disposition`, `verdict`, `exit`), escaping
  (`escape`), diff parsing (`diff`, `source`, `diff_paths`, `hunk`,
  `git_path`, `line_ranges`), cargo message streams (`json`, `diagnostics`,
  `cargo_messages`), inventories and their pairing (`inventory`, `compare`,
  `compare_laws`, `policy`, `paths`), and shared text and path helpers
  (`text`, `table`, `types`, `path_map`). Laws of the library are the
  `law_*` proof functions.
- `app/` — what stays outside verification: reading streams from any
  `BufRead`, the pass rate as a float, `Display`/`Error` impls and serde forms.
- `tests/` — the test suite.
