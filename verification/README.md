# deslop

Finds and removes the marks that machine-generated writing leaves in text
and source files: typographic characters (em dashes, curly quotes, ellipses,
invisible spaces), decorative symbols and emoji, filler and sycophantic
phrases, comments that restate the code, boilerplate docstrings, and phrases
or patterns that a project lists in its own `.deslop-rules` files.

## Layout

- `src/` is the library, written in Verus and verified: every function
  states what it computes in its `requires`/`ensures`, over mathematical
  models of the texts (sequences of characters and bytes).
  - `rules/`: the match model, the profiles, every detection rule, the
    registry, and the `.deslop-rules` file format (parsing, checking,
    merging).
  - `engine.rs`: running the rules on a file, resolving overlapping
    matches, applying fixes and collapsing the blank lines left behind.
  - `detector.rs`: file types and the comment spans of code files.
  - `interactive.rs`: the keys of interactive mode and the review session.
  - `report.rs`: sentence densities, rule counts and summary figures.
  - `lsp.rs`: diagnostics and quick fixes for the language server.
  - `scanner.rs`, `diff.rs`, `cli.rs`, `config.rs`: the files of a run,
    unified diffs, and the command-line and configuration choices.
  - `bindings.rs`: the calls into `regex`, `globset`, `memchr`, `similar`
    and the parts of `std` the proofs rely on, each with the contract it is
    trusted to meet.
- `app/` is the `deslop` program around the library: argument parsing,
  configuration files, walking directories, the terminal screen of
  interactive mode, the language server transport, watch mode and printing.
- `tests/` runs the library on concrete inputs.
