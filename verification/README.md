# openit

A command-line file opener for Linux that follows the XDG desktop entry and
MIME association rules, written in Verus: the library in `src/` states its
behaviour in `requires`/`ensures` contracts and is proved against them.

## Layout

- `src/` — the verified library:
  - `desktop_parser`: reading `.desktop` files into entries and actions;
  - `mime_associations`, `mimeapps`: reading and editing `mimeapps.list`
    (with a proved write-then-read round trip for every parsed file, and
    for any associations whose types and handlers can be written as they
    are);
  - `application_finder`: the applications offered for a MIME type, XDG
    associations first;
  - `mime_pattern`, `target`, `commands`: MIME patterns, targets and the
    `set`/`add`/`remove`/`unset`/`get`/`list` subcommands;
  - `template`, `config`, `selector`, `fuzzy_finder`, `executor`, `launch`:
    presenting the choice and building the command that launches it;
  - `cache`, `xdg`, `paths`, `regex_handlers`, `icon_search`, `strmap`,
    `shell`: the supporting pieces.
- `app/` — the program around the library: command-line parsing, files,
  environment variables, processes and JSON/TOML output.
- `tests/` — tests of the library on concrete values.

Calls into other crates (`wildmatch`, `shell-words`, `mime_guess`, `mime`,
`regex`, `url`) go through small trusted wrappers whose contracts say what
those crates document.
