# remtui

The logic of a terminal front end for Apple Reminders that talks to
Reminders through `remctl` and to Bear through `bearcli`, written in Verus
with its behaviour stated as contracts and proved.

- `src/` is the verified library: dates and due phrases, JSON values, the
  reminder and list models, the key table, the config file, remctl and
  bearcli replies and arguments, Bear todo scanning and linking, the
  stand-in `remctl` and `bearcli` tools, the form and field editors, row
  rendering to styled text, and the application state (`app`) with every
  key, mouse event and finished piece of work as a proved transition.
- `app/` is the program around it: processes, files, the terminal, the
  clock and the draw pass over ratatui.
- `tests/` runs the library on concrete values.
