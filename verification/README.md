# oci-sync

Sync local files or directories to OCI-compatible registries: pack them
into a tar.gz, optionally encrypt them (scrypt + AES-256-GCM), push them as
an OCI artifact with labels, and pull, list, label or delete them again.
A full-screen terminal browser covers the same operations.

## Layout

- `src/` — the verified library (Verus). Each module states its rules as
  contracts over mathematical models:
  - `oci` — remote references and artifact metadata;
  - `registry` — scheme and credentials per host, the raw HTTP requests
    (catalog, deletion, Bearer-token challenge) and their replies,
    manifest annotations;
  - `archive` — lexical path normalization, where unpacked entries may
    land (no escape from the destination), naming and order of packed
    entries, and the tar.gz stream written and read back;
  - `crypto` — the encryption envelope `[salt][nonce][ciphertext+tag]`;
  - `config`, `cache`, `output`, `cli`, `app` — shortcuts, activity
    history, listing filters and cells, command routing, the per-command
    decisions;
  - `tui` — the browser's state machine, its sort order and search filter;
  - `text`, `strmap`, `sorting` — character-sequence helpers, a
    string-keyed table, record sorting.
- `app/` — the executable: argument parsing, files, network, terminal and
  drawing, calling the library for every decision.
- `tests/` — tests of the library.
