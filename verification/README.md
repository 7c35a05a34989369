# pexand

A text expander: type a trigger such as `;name` followed by a space, and the
trigger is replaced by its expansion. Expansions may hold variables
(`{{date}}`, `{{date:FORMAT}}`, `{{clipboard}}`, `{{cursor}}`). Snippets live
in SQLite and are managed from a small window with fuzzy search, which
ignores case. A new database is seeded with three example snippets:
`;name` (Neo Anderson), `;email` (neo@matrix.com) and `;date`
(`{{date:%Y-%m-%d}}`).

## Layout

- `src/` — the library, verified with Verus.
  - `db/` — the snippet model, its validation, the example snippets a new
    database is seeded with, and where the database and settings live
    (portable mode or the user's application data).
  - `sentinel/` — the rolling keystroke buffer, the trigger trie (exact,
    prefix and longest-occurrence queries), the template language and its
    expansion, recursion detection between snippets, key decoding, the
    decision to expand, and the pacing of simulated typing.
  - `ui/` — the window's state machine (every message and the command it
    gives), fuzzy search ranking, list previews, the icon-file decoder and
    the tray icon's pixels.
  - `settings.rs` — the application lists (whitelist and blacklist) as
    JSON text.
  - `text.rs` — small string helpers shared by the modules.
- `tests/` — tests of the library on concrete values.
- `app/` — the program around the library: SQLite storage, the keyboard
  hook, simulated typing, the iced window, the tray icon and the global
  hotkey.

The laws the library promises are public proof functions next to the code
they are about (for example `buffer_keeps_last_typed`, `push_keeps_last`,
`typed_trigger_is_found`, `stored_triggers_within_max_len`,
`render_keeps_plain_text`, `self_reference_is_recursion`,
`cycle_iff_repeating_path`).
