# herdr-muster

A project and workspace picker for the Herdr terminal multiplexer, as a verified
library with a thin program around it. One key shows live workspaces, tabs, renamed
panes and projects; Enter focuses what is live or opens what is not. Jump Pane mode
finds any live pane of one or more runtimes and focuses exactly that one.

## Layout

- `src/` is the library, verified with Verus. Each data type has a mathematical model
  (`...Model`) that the contracts speak of. Calls into outside crates stand behind
  small wrappers, whose doc comments say what is assumed of them.
  - Rows: `herdr`, `wire`, `model`, `sources`, `config`, `paths`, `registry`.
  - The picker: `search`, `fuzzy`, `width`, `style`, `render`, `screen`, `picker`,
    `session`.
  - Jump Pane mode: `jump_pane`, `jump_list`, `jump_focus`, `jump_session`.
  - Work in the background and decisions: `refresh`, `command`, `cli`, `driver`.
  - Tools: `text`, `lists`, `order`.
  - What holds of the whole: `order_laws`, `model_laws`, `search_laws`, `picker_laws`,
    `registry_laws`, `jump_laws`, `safety_laws`.
- `app/` is the program: arguments, environment, files, processes, sockets, threads
  and the terminal. It performs what the library asks for and hands back what came of
  it.
- `tests/` runs the library on concrete values.

## How the program and the library meet

Wherever outside work and decisions alternate, the library holds a state machine and
the program runs its loop:

| Machine | Drives |
|---|---|
| `refresh::Refresh` | a refresh of the picker's rows |
| `sources::Gather` | discovery of projects on disk |
| `command::CommandRun` | one command, its output and its end |
| `session::Picker` | one run of the picker |
| `jump_session::JumpPane` | one run of Jump Pane mode |
