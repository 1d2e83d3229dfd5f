# qqflow-server

A local HTTP API and event stream over QQ NT chat databases. The databases are read live and
read-only; clients register one account with its key and then query sessions, messages,
contacts and media, pull ChatLab pages, or subscribe to new messages.

## Layout

- `src/` is the library: message decoding, the in-memory index, name resolution, queries,
  media registration and export rules, the account state machine, sync passes and the reply
  of every endpoint. All of it is verified with Verus. What comes from the file system, a
  database or the network reaches it as plain values.
  - `parser` decodes message blobs: the wire format first, then heuristics.
  - `store` is the index: conversations, names, media, queries and exports.
  - `db` decides how sources are found, opened and kept open.
  - `sync` applies new rows and tells what is pushed.
  - `server` holds accounts, authorisation, the replay history and the endpoints' replies.
  - `config`, `keystore`, `pathsafe` check what comes from outside.
  - `text`, `pathname`, `order`, `strmap` are the groundwork: strings, file names after the
    rules of either system, stable sorting, ordered maps.
- `app/` is the program around it: SQLCipher connections, directory walks, the watcher, the
  credential store and HTTP.
- `tests/` runs the library, with SQLite and the other crates linked.

Public proof functions whose names begin with `law_` state what holds across functions: that
pages join without gap or overlap, that a pull cursor drains every message once, that only one
account is ever bound, that a group's cards never show elsewhere, and more.
