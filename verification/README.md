# tracey

Tracey ties requirements in specification documents to the code that implements
and verifies them.

- `src/` is the library, verified with Verus: rule ids, markers, AsciiDoc
  extraction and rendering, source scanning, coverage, validation, diagnostics,
  and what editors ask about a position in a file. It takes the contents of
  files and gives back values.
- `tests/` runs the library with the crates it calls.
- `app/` reads files, walks directories, asks `git`, renders Markdown and keeps
  the service running.

What the library believes of other crates stands in `src/bindings.rs` and
`src/adoc_tree.rs`, each call with the contract it is given. Properties that
relate several functions are the public proof functions whose names begin with
`law_`.
