# file_picker

The state and decision logic of a terminal file picker, verified with Verus.

- `src/state.rs`: the picker state (entries, selection, hidden files, result, input,
  view) and the cursor moves, selection and closing that it offers.
- `src/event.rs`: what a key press or a mouse event does to the picker state, as one
  step from state and event to the next state and what is left for the file system or
  the matcher; the search filter update from the scores of the entries.
- `src/path.rs`: paths as their components, so that `/a/b/` and `/a/b` are one path.
- `src/view`: the list and tree view states, the set of paths (compared by components),
  and the flattening of a directory tree into rows (`build_tree_entries`) from contents
  read beforehand.
- `src/search.rs`: the ranking of matches by score.
- `src/widget.rs`, `src/layout.rs`: what is drawn where: the parts of the picker, the rows
  of the entry list cut to the area, the status line.

`app/` holds the terminal side: the theme in ratatui styles, the drawing into a ratatui
buffer, the conversion of crossterm events, the reading of directories, and the carrying
out of what an event asks of the file system.
