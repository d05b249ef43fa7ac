# smdr

A small markdown reader: a native window with vim-style navigation, tabs,
search, an outline sidebar, live reload, and a review mode that turns line
comments into annotated markdown, a JSON envelope or an insertion-only diff.

The decisions and text processing of the reader are a library verified with
Verus; the window, files, sockets and processes are ordinary Rust around it.

## Layout

- `src/` — the verified library (`smdr`):
  - `annotate.rs` — review annotations, markers, the annotated document and
    the diff transport, with the laws that both only insert marker lines;
  - `markdown.rs` — ATX headings, GitHub-style slugs, the outline;
  - `events.rs` — link extraction and mermaid blocks from the parser's
    events (pulldown-cmark);
  - `navigate.rs` — search hits and highlighting, anchor resolution, link
    classification (urlencoding), image sources and SVG sniffing;
  - `viewer.rs` — navigation history, tabs, selections, two-key sequences,
    the key map, line comments and status texts;
  - `config.rs` — start-up configuration and launch mode;
  - `paths.rs` — draft, state, socket and desktop-integration paths;
  - `ipc.rs` — the single-instance wire format;
  - `theme.rs` — the theme selector;
  - `text.rs` — character-level helpers shared by the above.
- `tests/` — tests of the library.
- `app/` — the program: command line, headless review, daemonizing, the
  socket server and client, file watching, the state and draft files, and
  the iced window.
