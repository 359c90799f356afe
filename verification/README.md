# pull-all-tui

The logic of an interactive dashboard that pulls every git repository of a directory, written in
Verus: each function states what it returns, and the statements are proved.

- `src/` is the library. It reads the output of git, decides what is pulled and how, keeps the
  state of the dashboard, resolves groups of repositories, and says what is shown where. But for
  the clock it does no I/O: commands are handed out as arguments and their output is handed back.
- `src/outside.rs` holds what the library takes from other crates and from `std`, with what it
  relies on of each.
- `app/` runs the commands, reads and writes the files, and draws on the terminal.
- `tests/` runs the library on concrete values.

What holds of the library as a whole stands in proof functions whose names begin with `law_`, at
the end of the module they belong to; those of git's output are in `src/git_laws.rs`, and those of
the list that a scan comes to in `src/scan_laws.rs`.
