# org-cli

A library for org-mode agendas, inboxes, habits and org-roam notes, with a command line and an
MCP server around it.

- `src/` is the library, written in Verus: the org-mode grammar (headlines, property drawers,
  timestamps, files), the task, habit, event and inbox models, the agenda and inbox queries, the
  elisp forms sent to Emacs, the configuration defaults, and the org-roam query helpers. Each
  public function states what it returns; the laws of the library (escaping that reads back,
  agendas that hold only what belongs to the day, and others) are proof functions.
- `app/` reads and writes the files, runs `emacsclient`, queries the org-roam SQLite database,
  and serves the MCP tools and the command line.
- `tests/` exercises the library on concrete inputs.
