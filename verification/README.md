# shuvarie_core

The core of a terminal coding assistant: sessions and their branches, streamed
turns, steering, permissions, scenes, skills, patches, and the settings files.
The library is written in Verus. What each function returns or changes stands in
its contract, and every contract is proved.

## Layout

- `src/` is the verified library. It does no I/O: a function that needs to know
  something of the disk, the clock or a service takes it as a plain value, and
  what is to be done comes back as a plain value.
  - `core_task/` holds the run loop (`run`, `dispatch`), turns (`turn_start`,
    `request`, `stream`, `turn_end`), the session tree (`tree`, `compact`) and the
    answers at the edges (`services`, `target`, `retry`, `steer`).
  - `apply_patch/`, `compaction`, `context`, `permissions`, `scenes`, `session`,
    `skills/`, `custom_commands`, `title`, `tools` hold the rules of the
    assistant.
  - `config/`, `connections`, `kdlfmt`, `catalog`, `settings` hold the settings
    and the catalog of providers.
  - `text`, `text_map`, `paths`, `order`, `views` are what the rest is built on.
- `tests/` runs the library on concrete values.
- `app/` is ordinary Rust around the library: files, the environment, channels,
  floating-point costs and scores, and the event loop.

## What is trusted

The library calls `kdl`, `regex`, `selune`, `serde_json` and `similar`, and a few
functions of the standard library that have no specification. Each call stands
behind an item whose doc comment names the outside function and says what its
contract claims. Everything else is proved.

## Laws

What holds across functions is stated as public proof functions named
`lemma_...`, each with the law in words above it. Among them: settings that are
written are read back; carrying out a diff gives the new text; a fork walks the
path back to just before its message; no prompt that waits is lost or overtaken;
a running action is never cut; a session that another client holds is left alone.
