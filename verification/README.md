# mci_client

A client for reading the unused amounts of MCI (`my.mci.ir`) internet
packages, with its logic verified by Verus.

## Layout

- `src/` — the verified library:
  - `env_store.rs`: the `.env` store (parsing, quoting, reading back what was
    written, rendering the file with existing lines kept in place). Its
    pairs are held in a `Vec` sorted by key, with that order as the type's
    invariant, in place of a `BTreeMap<String, String>`: vstd's specification of
    `BTreeMap` holds only for key types whose ordering it knows to obey
    its comparison laws, which it does not state for `String`, while the
    sorted `Vec` gives the key-ordered rendering and the laws on reading
    back what was written;
  - `client.rs`: the session read from `.env`, the choice between reusing,
    refreshing or replacing a token, what an auth response changes, and the
    packages fetch that retries once after a 401, as steps the caller runs;
  - `json.rs`: the JSON document type and the walk that collects every
    `unusedAmount`;
  - `overlay.rs`, `settings.rs`: what the floating label and the Manage App
    window show and decide;
  - `amounts.rs`: the unit and label of a byte amount, and the total of the
    amounts;
  - `cli.rs`: command-line parsing;
  - `text.rs`: the string and number helpers the rest is proved with.
- `app/` — the program around it: file and network I/O (`reqwest`), JSON
  parsing and printing (`serde_json`), the Win32 window and tray icon
  (`windows-sys`), and the floating-point formatting of amounts.
- `tests/` — tests of the library on concrete values.
