# p2p-nube

A private media library: one device hosts films, series and files, the others of the same
tailnet stream them by range without keeping them.

- `src/` is the library, verified with Verus: the catalog of files and collections, the rules
  for adding and removing files, scans and their jobs, and what the web gateway answers.
  `catalog` says what the catalog holds and what each operation makes of it, `db` does it, and
  `consistency` proves what holds whatever is done.
- `tests/` runs it on concrete values.
- `app/` is the program `p2p-serve` around it: the command line, SQLite, the blob store, the
  peer-to-peer node, and the HTTP server. The web pages are read from the folder that
  `P2P_NUBE_WEB` names, `./web` by default.

## What is trusted

Verus takes the contracts of these functions without proof: `str::trim`, `str::to_lowercase`,
`String::push`, `String::from_utf8` and `String::from_utf8_lossy` of the standard library,
`HeaderValue::to_str` and `HeaderValue::from_str` of `http`, `Hash::from_str` of `iroh-blobs`,
`Sha256::digest` of `sha2`, and `from_slice`, `Value::get` and `Value::as_str` of `serde_json`.
Each stands in `src/` with a comment on what is claimed of it.
