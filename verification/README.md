# file_suite

A collection of small file utilities, with their logic verified by Verus.

- `src/` is the verified library:
  - `array_expr`: array expressions over tokens — parsing, the chain functions, layered
    variable storage, typed output, and pasting expressions into token streams.
  - `case_fold_fs`: the decisions of a case folded mount — case folding names, file types
    as stored and reported, error numbers, and the checks of each operation.
  - `log_level`: log levels and filters as command line values.
  - `nested`: the flat names given to files gathered from nested directories.
  - `tools`: the names each tool of the suite goes by in generated code.
  - `text`, `common`: integer text, character helpers, and the command line traits.
- `app/` is the program around it: command lines, the FUSE file system and its database,
  directory walking, token stream conversion and code generation.
- `tests/` exercises the library with the real outside crates linked.

Outside crates are those the suite's programs use, with one addition: `unicode-ident`,
the table that `proc-macro2` checks identifiers against when an identifier token is made.
The library calls it directly so that a value typed as an identifier is checked before the
token is built, and an invalid one is an error rather than a panic.
