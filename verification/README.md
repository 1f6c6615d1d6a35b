# todo

A terminal to-do list kept in SQLite, with a command line and a full-screen
interface. The library under `src/` is written in Verus: each public function
carries a contract over a mathematical view of the data, and the laws that
relate several operations are proved as proof functions.

## Layout

- `src/model.rs`: items (`Todo`), their times (`Stamp`) and views, and the
  error type.
- `src/storage.rs`: `TodoStore`, the items held in memory beside the SQLite
  connection they are written to; loading rows, and every change with its
  effect on the items stated exactly.
- `src/cli.rs`: the command line (`Cli`, `Commands`) and `run`, which carries
  out a command on the store and returns what is to be printed.
- `src/listing.rs`: listings (scope, latest-first stable order, limit) and
  counts.
- `src/editor.rs`: the input box: wrapping text into display lines, moving
  the cursor between lines, keeping the cursor in view.
- `src/tui.rs`: the state of the full-screen interface and what each key
  press and mouse action does to it and to the store.
- `src/screen.rs`, `src/width.rs`, `src/layout.rs`: the layout of list rows,
  of the input box and of the screen's areas, and shortening text to a
  display width.
- `src/text.rs`: trimming, lowercasing, substring search, decimal digits.
- `src/db.rs`, `src/clock.rs`: the calls into rusqlite and chrono, each behind
  a small trusted function whose contract states only what the crate's
  documentation and source show. `Db` keeps a ghost record of every exchange
  with SQLite (the statements and bound values sent, the counts and rows that
  came back), so that each change of the store states what it handed to the
  database.
- `src/laws.rs`: laws over several operations (toggling twice, marking done
  and undoing, clearing, deleting by id, searching, the two lists, editing).
- `app/`: the program: argument parsing (clap), the database path, standard
  input, printing and JSON output, and the terminal loop (ratatui,
  crossterm), which hands each event to the verified state machine.
- `tests/`: tests of the library on concrete values, against an in-memory
  SQLite database.
