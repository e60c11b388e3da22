# kumo

The logic of the Kumo mobile web browser as a Verus-verified library, with a
thin command line program around it.

## Layout

- `src/` — the verified library, which Verus proves as a whole. Every public
  function carries a `requires` / `ensures` contract; laws that relate several
  operations are public proof functions named `law_*`.
  - `history`, `history_laws`: URI parsing, normalization, completion,
    relevance search and the in-memory history records.
  - `text_input`, `ime`: text field editing by byte positions, the key
    press dispatch, surrounding text clamping and the input method state.
  - `engine`, `webkit_menu`, `option_menu`: engine types, context menus and
    their actions, per-host engine preferences.
  - `downloads`, `group`, `storage`: the downloads list, tab groups, database
    versions, migrations and session restoration.
  - `config`, `settings`, `keyboard`, `geometry`, `on_demand`, `cli`, `text`:
    configuration values, settings validation, key repetition, rectangles,
    lazily built state, command line values and text helpers.
- `tests/` — tests of the library, run against the real outside crates.
- `app/` — the program: argument parsing, configuration IPC, SQLite storage,
  floating point helpers and the types that carry outside derives.

Calls into outside crates (`url`, `uuid`, `smallvec`, `indexmap`) and into a
few std functions go through small trusted wrappers whose contracts state what
the called function does; each says so in its doc comment.
