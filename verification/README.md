# herdr-configurable-picker

A tree picker for herdr sessions: workspaces, their tabs and their panes in a
collapsible tree, driven by configurable key bindings, closing on the node to
focus.

- `src/` is the library, verified with Verus: search matching (`search`),
  key specs, the keymap and chord resolution (`keymap`), the `[keys]`
  defaults (`config`), the tree model and its visible rows (`tree`), the
  input state machine (`app`), row text, footer hints and popup geometry
  (`ui`), and the host theme accent (`host_theme`).
- `app/` is the program around it: environment and configuration files,
  the session socket, the terminal event loop and the ratatui drawing.
- `tests/` exercises the library on concrete values.
