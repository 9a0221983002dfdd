# ssh4

An SSH client for interactive shell work, with clipboard and file-transfer
conveniences. The decisions of the client are a verified library; the
terminal program around it is ordinary Rust.

No graphical program is built. The graphical front end's decisions are in
the library (`src/gui`), but the window, its widgets and its painting need
eframe, egui and rfd, which this build does not depend on. The program therefore
runs only in terminal mode; asked for the graphical mode (the default
without a host or profile), it says so and exits.

## Layout

- `src/` — the library, verified with Verus.
  - `text`, `decimal`: character and number helpers the rest is proved with
    (trimming, `str::lines`, decimal rendering, unsigned parsing).
  - `auth`: `[user@]host[:port]` parsing and the default key names.
  - `config`: saved profiles and snippets.
  - `ssh_client`: connection parameters, the password wrapper, error texts,
    the checks made before connecting, and chunked writes.
  - `terminal`: the VT side — key and paste encoding, SGR mouse reports,
    the output scanner (terminal queries and mode changes), selection,
    bracket matching, and the UTF-8 carry between writes.
  - `remote_fs`: shell quoting, remote paths, remote commands, and the
    parsing and ordering of `ls -la` listings.
  - `transfer`: upload naming, the temporary-file record, upload reports.
  - `cli`: option resolution, durations, and what local input and mouse
    events do in the terminal front end.
  - `gui`: the graphical front end's decisions — how the screen is styled
    and batched into runs, keyboard and pointer handling on the canvas,
    links, search, the session worker's state machine, tabs, dialogs,
    the command palette, the file tools, status texts, and the window state
    that the sidebar, tab bar, palette and modals change.
- `tests/` — tests of the library.
- `app/` — the terminal program: argument parsing, prompts, the
  configuration file, the SSH and SCP calls, the clipboard, and the loop
  that connects them to the library.
