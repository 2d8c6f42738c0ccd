# rizzler

The core of a modal text editor, with its behaviour stated in contracts and
proved with Verus.

- `src/` — the verified library:
  - `ringbuffer`, `registers`: a bounded double-ended queue and vim-style
    registers (unnamed, numbered, named, append-on-uppercase, black hole).
  - `text/`: rope access (with ropey's line breaks spelled out), cursor
    movement and clamping, word motions, text objects, move kinds, linewise
    yank, line shifting, the ranges that delete, replace and paste edit,
    text properties and overlays.
  - `search`: regex search over a buffer's text, landing and overlays.
  - `lsp/`: `Content-Length` framing, position encodings, per-document
    change tracking, the client's request bookkeeping and routing, the
    client registry and the editor's side of outstanding requests.
  - `install/`: grammar and language-server manifests, cache layout, and
    the install decisions (resolution, stamps, plans).
  - `highlight`, `ts_registry`, `workspace`: language by file name, grammar
    lookup by extension, working directory, workspace root and `file://`
    URIs.
- `app/` — the host layer around it: environment and filesystem probes,
  child processes, the tokio transport and the serde / lsp-types adapters.
- `tests/` — executable tests of the library.

`src/` is checked with Verus; `app/` is ordinary Rust built against it.

Not here: the editor state that dispatches key-bound actions, renders and
hosts the scripting runtime, and the undo history the buffer's edits are
recorded in. They are built on the editor's core, action, UI and
change-tree crates, which are not part of this repository; what an edit
removes, replaces or inserts is computed here. The viewport's scroll and soft-wrap layout logic is also
outside it, so cursor movement takes its answers (the wrapped step, the
half-page target, the centred and clamped top rows) as arguments.
