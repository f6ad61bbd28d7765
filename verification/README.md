# imp_tui

The state and text logic of the imp terminal interface, written in Verus and proved
against its contracts.

- `src/` — the verified library: key bindings, the editor, overlays (command palette,
  file finder, model selector, session picker, settings, personality, welcome flow,
  ask bar), the sidebar and chat bookkeeping, tool-call summaries and the turn
  tracker, markdown reading (blocks, inline formatting, tables) and text wrapping,
  themes, layout helpers and UTF-8 text utilities.
- `tests/` — tests of the library on concrete values.
- `app/` — what touches the file system: collecting project files for the file finder.

Calls into `unicode-width`, `serde_json` and the standard library that the library
relies on stand behind small trusted wrappers whose contracts are stated next to them.
