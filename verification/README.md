# envsentinel

Checks `.env` files against a template: parsing, validation, drift comparison,
configuration and the reports of the `scan`, `diff`, `validate`, `init` and
`watch` commands. With `--json` each report is printed as one JSON object
whose message is fully escaped.

- `src/` is the library, written in Verus: every function carries a contract
  and is proved against it, and the `law_*` proof functions state what holds
  across functions: where each parsed key and issue comes from and that every
  content line gives exactly one entry, exact missing/extra/empty keys,
  configuration accepted exactly when it follows the rules, generated templates whose key names read back
  unchanged with empty values (for names not starting with `#` or `export `),
  exit codes of the commands in both directions, and JSON escaping that reads
  back as the original message.
- `app/main.rs` is the program: it reads arguments, the working directory and
  files, walks the project tree, writes generated templates and prints, handing
  what it read to the library (which also decides the order of the files
  found and compares paths by their components).
- `tests/` exercises the library on concrete inputs.

The TOML reader is the `toml` crate, reached through one trusted function in
`src/config/document.rs`.
