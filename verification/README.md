# waddle

The interaction core of the Waddle file manager, written in Verus. The
functions of `src/` carry contracts that Verus proves, except a few small
trusted wrappers around `std` (paths, lower-casing, UTF-8 decoding, path
sorting, the clock) and around `shlex`, whose contracts are taken from the
documentation of what they call; the two adapter traits (command runner and
folder watcher) are implemented outside the library and their contracts
name what the implementation answers.

## Layout

- `src/` — the verified library.
  - `browser_input` — the key grammar of the browser (counts, operators,
    multi-key sequences, prompts).
  - `navigation` — the navigation session: requests, completions, history,
    Back/Forward, overlays (Recent, Trash), and the commits that restore the
    grid selection.
  - `grid` — index-level grid interaction: motions, keyboard, click and
    marquee selection, visual mode, the context menu.
  - `command`, `shell` — the command prompt: parsing `:` commands, settings
    completion, the Bash runner's marker protocol, terminal-screen detection
    and the output panel.
  - `file_operation`, `places`, `diagnostics`, `open_with`, `search`,
    `focus`, `drag_hover`, `operations`, `location_monitoring`,
    `directory_watch`, `native_clipboard`, `native_dnd`, `fonts`,
    `icon_size`, `sidebar` — the smaller sessions and formats.
  - `text`, `paths`, `entries`, `prompt` — shared character, path and entry
    helpers.
- `tests/` — tests run against the compiled library.
- `app/` — the operating-system side: processes, threads, Tokio scheduling,
  inotify, GIO, settings files, and the floating-point parts of zoom and the
  drag preview.

## Outside crates

`shlex` splits command lines inside the library. `serde`/`serde_json`
(settings files), `libc` (process groups, inotify, file locks), `tokio`
(background scheduling) and `gio` (URIs, applications, desktop settings)
are used by `app/`; `tempfile` by the tests.
