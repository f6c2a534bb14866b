# omnyssh

The host-management logic of an SSH / SFTP / FTP host manager, written in
Verus and verified.

`src/` is the verified library:

- `text` — characters of strings, whitespace trimming, splitting and joining,
  substring search, code-point order, UTF-8 widths and decimal port numbers.
- `order` — a stable ordering of positions by a (number, text) key.
- `client` — host records and their defaults.
- `form` — the host add/edit form: text fields with a byte cursor, showing a
  host and validating the text back into one; the round-trip laws.
- `hostlist` — search, tag filter, sort orders, selection and the tag picker.
- `dashboard` — what confirming the add, edit and delete popups does, and
  moving a renamed host's entries.
- `hosts` — saving and deleting hosts of the manual list by name.
- `files` — the Files tab: path guard, remote path joining, directory
  listings, the transfer task's steps, transfer progress, previews and the FTP login.

`app/` holds the I/O around it: the `hosts.toml` file (serde), the
FTP/FTPS backend and the file-transfer task loop, local
listings, and the floating-point metric readings of the dashboard.
The SFTP transport is not part of it: SFTP runs over the host's SSH
session, which this crate does not open, so the file-transfer manager
refuses hosts whose file access is SFTP (the default) and serves FTP and
FTPS hosts only. The SFTP listing logic itself (`files::sftp_listing`) is
in the library.

`tests/` runs the library on concrete values.
