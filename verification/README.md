# beaver

`be` turns long shell commands into short tags: `be add dev -c "npm run dev"`,
then `be dev`. Commands live in `.be/config.toml`, found by searching upward
from the current directory, and can be managed from a terminal UI (`be manager`).

Layout:

- `src/` — the verified library (Verus):
  - `config.rs`: the tagged command map kept in tag order, tag validation,
    add / remove / edit / lookup, and the upward search for the config file;
  - `app.rs`: the terminal manager as a state machine, one key press at a time;
  - `manager.rs`: what the `list`, `add`, `remove`, `edit` and run subcommands compute;
  - `ui.rs`: the texts the terminal manager shows;
  - `error.rs`, `text.rs`, `cli.rs`: errors and their messages, string helpers,
    the command-line model;
  - `laws.rs`: properties that relate several operations.
- `app/` — the program around it: argument parsing, reading and writing the
  TOML file, running shell commands, and drawing the terminal UI.
- `tests/` — tests of the library.
