# vivida

The model and decisions of a terminal workspace shell: workspaces hold tabs, tabs hold a
split tree of panes, and a chrome of sidebar, tab strip and menus surrounds them. The library
is written in Verus: every function in `src/` carries a contract, and Verus proves all of
them except three thin wrappers of standard-library calls (`String::push`,
`str::to_lowercase`, `Path::file_name`), whose contracts are trusted.

## Layout

- `src/layout.rs` — the split tree: splitting and closing panes, split paths, and laying the
  panes out in pixels.
- `src/model.rs` — tabs and workspaces, the ordered pane table of a tab, and the operations
  scoped by a pane's owners.
- `src/navigation.rs`, `src/route.rs`, `src/report.rs` — directional neighbours, routes of
  navigation steps, and what the layout request reports of each pane.
- `src/names.rs`, `src/selectors.rs`, `src/host.rs` — name rules, workspace and tab selectors,
  and the host requests that change the model.
- `src/chrome.rs`, `src/hit_targets.rs`, `src/click.rs`, `src/shell.rs`, `src/drag.rs` —
  chrome geometry and its click targets, what a click, a key or a window event asks of the
  shell, and divider drags.
- `src/name_editor.rs`, `src/shortcuts.rs`, `src/session.rs`, `src/rect.rs` — the rename
  editor, the shortcuts window, session snapshots and pixel rectangles.
- `app/` — the host process: the session file, the host protocol over standard input and
  output, window-event conversion and the floating-point geometry.
- `tests/` — tests of the library on concrete values.
