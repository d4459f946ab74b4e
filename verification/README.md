# itmo_terminal

The ITMO team site is a terminal-styled web page with an interactive
prompt. This crate holds its logic, verified with Verus:

- `src/text.rs`: splitting at a character or at whitespace, joining,
  prefixes, and conversions between strings and character vectors.
- `src/path.rs`: `normalize_path`, which resolves `.` and `..`; its result is
  a fixed point of itself.
- `src/commands.rs`: `run_command`, what a command line prints and which page
  it opens (`help`, `ls`, `cd`, `cat`, `pwd`, `whoami`, `date`, `clear`, `echo`).
- `src/completion.rs`: Tab completion of command names and paths; it only
  ever extends the line.
- `src/terminal.rs`: the terminal as a state machine from key presses to the
  next line, caret and history, and to what the page must do.
- `src/nav.rs`, `src/records.rs`: the highlighted navigation link, the
  player and achievement records, and Telegram addresses.

`app/` is the program around it: built for the browser it is the Leptos
front end, which feeds key presses to the terminal and performs the
navigation it asks for; built natively it is the Axum server that reads the
records from SQLite and serves them as JSON.
