# DocSail

A terminal viewer for Markdown workspaces: a file list, a preview of the
selected document, a table of contents, file and page search, link
following with back/forward history, and Mermaid diagrams.

## Layout

- `src/` is the library, verified with Verus:
  - `app.rs`: the viewer's state machine (focus, selection, scroll, overlays,
    the search input and its cursor) and its laws.
  - `markdown.rs`, `parse.rs`: the document model, its plain text, heading
    ids, search and links; parsing from pulldown-cmark's event stream.
  - `ui.rs`: the preview as styled lines, scroll offsets of blocks, the file
    tree rows and the overlay cursor.
  - `navigation.rs`: fuzzy file ranking, page-search labels and cycling, the
    overlay result lists, submission targets and the location history.
  - `diagram.rs`: Mermaid fences, supported diagram families, and the ledger
    of the rendered-image cache with its byte budget.
  - `event.rs`: key bindings and one step of the event loop.
  - `terminal.rs`: entering and restoring full-screen mode.
  - `workspace.rs`: workspace targets, their errors and the file tree model.
  - `text.rs`: characters, UTF-8 widths and the Unicode tables used.
- `app/` is the terminal program: arguments, the file system, crossterm,
  ratatui drawing, the Mermaid renderer thread and the event loop.
- `tests/` exercises the library.
