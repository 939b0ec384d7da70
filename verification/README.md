# niri-clip

A clipboard history for Wayland. The library under `src/` holds its rules and is
verified with Verus; the programs under `app/` read and write files, processes
and the screen around it.

- `store`: the history in memory, how captures enter it, the order in which it
  is shown, what leaves it, and what a database has to change to follow it.
  `store::laws` states what holds of the whole.
- `confirm`: deletions of pinned entries, which are asked for twice.
- `backup`: exports, and imports that merge.
- `migrate`: older databases.
- `daemon`: what is done with a payload, and how the clipboard is watched.
- `preview`, `tui`, `gui`, `cli`, `notify`: what is shown, and how keys and
  choices lead back to entries.
- `config`, `text`, `order`, `pattern`: settings and the means of all others.

The library calls `blake3`, `base64`, `regex`, `chrono` and `image` through small
wrappers whose contracts say what is taken for granted of them. The database is
read whole before a command and the differences are written after it, in one
transaction.
