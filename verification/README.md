# rimru

A mod manager for RimWorld: it reads the installed mods (their `About.xml`
files) and the game's `ModsConfig.xml`, keeps the list of active mods,
reports load-order and dependency issues, sorts the active mods by their
load rules, and writes the configuration back.

The library under `src/` is written in Verus and verified:

- `game/xml.rs` — a pull reader over XML events and the parsers of text
  elements, `li` lists, string maps and dependency maps.
- `game/mods/meta*` — mod metadata (`About.xml`) and its parser.
- `game/mods/config.rs` — reading and writing `ModsConfig.xml`.
- `game/mods/sort*` — the load-order comparators and their laws.
- `project*` — the state of the manager: installed mods, active list,
  issues, cycle detection, toggling, moving and sorting.
- `settings.rs`, `db*`, `ui/` — settings, history events and the plain
  values the user interface works with.

`app/` is the command-line program around the library: file system,
settings file, history database and platform defaults.
