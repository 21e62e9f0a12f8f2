# cad_widgets

Widgets, layout state and dock/document workspaces for CAD-style desktop
applications built on egui, with their state and decision logic verified by
Verus.

## Layout

- `src/` — the verified library.
  - `workspace.rs`: document tabs, the layout spec of the central document
    pane tree, its builder, and the layout that builds an `egui_tiles` tree
    from the spec, closes and restores documents, and saves and restores
    snapshots.
  - `docking.rs`: the four dock hosts around the workspace; panes can be
    closed, restored, and moved from one host to another.
  - `trees.rs`, `panels.rs`, `shell.rs`, `feedback.rs`, `messages.rs`: the
    state of the tree view, panel headers, toolbar, shell regions, status bar
    and message log, and how clicks change it.
  - `tiles.rs`: the boundary to `egui_tiles`. Its wrappers make the outside
    calls; their contracts are trusted, everything else is proved.
  - `text.rs`, `color.rs`, `theme.rs`: helpers and plain values.
- `app/` — drawing with egui: the theme tokens and their egui style, the
  widgets that hold floating-point values, the `show` functions that render
  the library's state and hand the clicks back to it, and the demo workspace
  (`DemoApp`) that puts them together.
- `tests/` — tests of the library on concrete values.

## Contracts at a glance

- Building a document workspace lays its tree out as the layout spec says,
  each document's tile holding the first registered document with its id.
- Closing and restoring documents or panes only changes which tiles are
  hidden; the tree's tiles and root stay as they were.
- Restoring a workspace from its own snapshot gives back its builder and its
  closed documents, in order.
- Each dock host starts with its own panes, arranged as the host arranges
  them; received panes stand beside that arrangement.
- A pane moved to another host and back returns to its place; restoring a
  dock host from its own snapshot gives back its received panes and its
  closed and moved-away titles.
- Only closable panes and documents that are shown can be closed; a dock
  host's closed and moved-away titles are always panes of its catalog.
- A Shift-click in the tree view selects the visible rows from the active
  row to the clicked one.
