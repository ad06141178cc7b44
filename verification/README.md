# homebrewconfig

A terminal tool that edits Homebrew's environment variables in the user's
shell profile by writing a delimited, idempotent export block.

- `src/` is the verified library (Verus): the catalogue of settings and how
  each reads from its variable, the editing state and its key handling, the
  filter, the choice of the target profile, the generated block and how it
  replaces the old one in a profile, command-line parsing, the palettes, and
  the parsing of `brew environment` output. Every public function carries a
  contract, and the laws of the library (idempotent apply, round trips,
  navigation, highlighting) are proof functions.
- `app/` is the program around it: the terminal loop and drawing, reading the
  environment, files and `brew`, and the TOML/JSON formats.
- `tests/` exercises the library on concrete values.
