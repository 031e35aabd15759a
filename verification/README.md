# yauz

The logic of YAUZ, a small desktop front end for the 7-Zip command-line tool,
as a library verified with Verus, and the desktop shell around it.

## Layout

- `src/` — the verified library.
  - `text.rs`, `bytes.rs` — what the string operations the logic relies on
    mean (trimming, `lines`, `split_whitespace`, searching), with verified
    executable versions; the few standard-library calls that stay trusted
    (`to_lowercase`, `is_alphanumeric`, `from_utf8_lossy`, building a
    `String` from characters).
  - `config.rs` — reading and writing `config.ini`, and the law that a saved
    configuration loads back unchanged.
  - `state.rs` — the settings of the running application, start-up, and the
    commands that change them.
  - `passwords.rs`, `sorting.rs` — the saved password list (each once, in
    ascending order) and sorting.
  - `envvars.rs` — expansion of `%VAR%`, `${VAR}` and `$VAR` as a step
    function; the caller reads the environment.
  - `split_parts.rs` — recognising the volumes of a split archive.
  - `sevenzip.rs` — 7-Zip's command lines and what its output means.
  - `extract.rs` — a batch extraction with password retry as a state machine.
  - `webdav.rs` — the server URLs and what each HTTP status means.
  - `menu.rs`, `platform.rs` — the macOS menu's language and labels, and the
    names that depend on the platform, and where 7-Zip is searched for.
- `tests/` — tests of the library on concrete values.
- `app/` — the Tauri application: commands, file and network I/O, running
  7-Zip, the menu, and the WebView2 check on Windows.
