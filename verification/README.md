# clipd

Clipboard history and an emoji picker for GNOME on Wayland. A daemon keeps the history and
answers requests on a Unix socket; a palette shows it, searches it and pastes from it.

The logic is a library that Verus verifies; `app/` is the ordinary Rust around it: sockets,
SQLite, GTK.

## The library (`src/`)

| Module | What it holds |
|---|---|
| `history`, `history_laws` | the model of the history table: what each operation does to it, and what holds of all of them |
| `store` | the table itself, held in memory, with a record of the steps that its copy on disk has to take |
| `order` | stable sorting, and what holds of it |
| `proto`, `frame`, `socket` | messages, their frames, and where the socket is |
| `ipc`, `ipc_laws` | how the daemon answers each request, and what holds of the answers |
| `client` | the palette's requests, and what the replies mean |
| `classify` | what kind of thing a clip is, and its preview |
| `query` | full-text queries |
| `emoji` | the emoji catalog and its ranking |
| `results`, `line`, `menu`, `picker`, `snapshot` | the palette: its list, rows, context menu, keys, focus, and the snapshot of the clipboard |
| `display`, `swatch` | ages, sizes and colors |
| `cli`, `watcher`, `clock`, `text` | the command line, the watcher, the clock, and text |

Public proof functions state what holds of the library as a whole: for example
`history_laws::pinned_clips_are_kept`, `ipc_laws::captured_content_is_listed` or
`client::replies_are_expected`.

Calls into other crates, and into parts of the standard library that Verus knows nothing of,
are trusted. Each stands behind an item whose doc comment says what is claimed of it:
`classify` (`std::str::from_utf8`, `String::from_utf8_lossy`, `serde_json::from_str`), `clock`
(`SystemTime::elapsed`), `emoji` (`emojis::iter`, `str::to_lowercase`), `query`
(`char::is_alphanumeric`) and `text` (`String::push`).

## The application (`app/`)

One executable under two names: `clipd` is the daemon and its command line, `clipd-pick` the
palette. SQLite keeps a copy of the table that takes every step the library notes, and its
full-text index finds clips for a query; the library ranks what it found.
