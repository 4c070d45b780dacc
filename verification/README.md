# tally

The logic of a terminal markdown todo editor, verified with Verus: a todo
pane and a finished pane, with items completed into a log filed by day.

- `src/` is the library. `text` (characters, lines, search), `editor` (the
  line buffer: cursor, selection, editing, undo and redo), `markdown` (line
  kinds, inline spans, breadcrumbs, sections), `finished` (the day log:
  completing and recovering items, day headers), `keys` (keys and mouse
  events to actions), `pane` (what a pane shows), `app` (the editor state and
  its update), `git_sync` (keychain token, git decisions), `settings`
  (default shortcuts). Each public function states its result in its
  contract; the `law_*` proof functions state what holds across calls.
- `app/` is the program around it: the terminal loop, drawing, files, the
  settings file and git work.
- `tests/` runs the library on concrete values.
