# log_analyzer

A terminal viewer for log files whose lines read `timestamp | LEVEL | content`.
The library in `src/` holds the viewer's logic, verified with Verus:

- `log_line`: parsing a line into its trimmed fields and level.
- `log_store`: the lines of a file (split in parallel) and the search for a
  needle in them.
- `filter`, `highlight`, `search`, `bookmark`, `list_state`: the state of the
  filter and highlight bars, the search bar, the bookmarks and the lists.
- `app`: the viewer as a whole, with the lines it shows (`visible_line_indices`)
  and every operation stated over `AppView`.
- `input`: what each key does in each mode.
- `spans`, `screen`: the text of each shown row split at the highlight terms and
  scrolled, the bars and the bookmark list, as plain values.
- `laws`: properties that relate several operations, proved.

`app/` is the program around it: reading the file, the terminal, the search
task and drawing with ratatui.
