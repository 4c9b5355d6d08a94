# swiftfind_core

The core of SwiftFind, a keyboard launcher: configuration, the query
language, ranking, the overlay's results and event handling, clipboard
history, plugins, uninstall actions and index maintenance. The logic is
written in Verus and proved against its contracts.

## Layout

- `src/` — the verified library. Each module states what its functions
  return in `ensures` clauses over spec functions, and the properties that
  relate several functions as `law_*` proof functions.
  - `search`, `query_dsl`, `query_profile`: ranking, the query language, and
    latency statistics.
  - `overlay_search`, `overlay_session`, `overlay_view`, `overlay_flow`,
    `overlay_state`, `selection`: answering overlay queries, the rows the list
    shows, and what each window event does.
  - `config`, `config_template`, `settings`, `settings_window`: settings, their
    validation, migration, and the commented configuration file.
  - `discovery`, `core_service`, `uninstall_registry`, `clipboard_history`,
    `plugin_sdk`, `action_registry`, `action_executor`: where items come from,
    how the index is kept, and the actions offered.
  - `hotkey`, `hotkey_runtime`, `startup`, `runtime`, `logging`, `contract`,
    `transport`, `model`, `text`, `clock`: supporting types and text handling.
- `tests/` — tests of the library on concrete values.
- `app/` — the command-line program: reading and writing files, the SQLite
  index, walking directories, and logging.

Calls into `std` and `serde_json` that the logic needs go through small
trusted wrappers marked `#[verifier::external_body]`, each with a doc comment
saying what its contract claims.
