# grf

`grf` keeps a global cache of Git repositories and copies them, as references, into
the workspaces that need them (`grf add`, `clean`, `list`, `load`, `unload`,
`update`).

- `src/` is the library, verified with Verus: parsing repository locations, the
  repository table and the loaded-reference records, `.gitignore` editing, the
  arguments and output parsing of the Git commands, and what each command decides.
  Calls into `url`, `camino`, `uuid` and `time` stand behind small trusted wrappers
  whose contracts are documented where they are declared.
- `app/` is the command-line program around it: argument parsing, files, Git
  processes, prompts and terminal output.
- `tests/` runs the library on concrete values.
