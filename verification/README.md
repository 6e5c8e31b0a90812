# ia_get_core

The decisions behind a command-line downloader for Internet Archive items,
verified with Verus.

- `src/` is the library. `encoding` and `urls` make the URLs of an item and its
  files, `credentials` resolves the account of a run, `xauthn` reads the reply to
  a login, `plan` selects the files and lays out the downloads, `report` lists
  what is told about them, and `workflow` puts the steps of a run in order.
- `tests/` runs the library together with the real crates behind it.
- `app/` is the program: command line, requests, cookies and the spinner. It also
  needs the `ia_get` crate, which reads file lists and transfers files.

What is not proved is what the library says of `reqwest::Url`, of the text of
`reqwest::StatusCode` and of `String::push` and `String::pop`; the contracts are
in `src/url_syntax.rs`, `src/xauthn.rs` and `src/text.rs`.
