# mandate

Documentation held to a standard. A mandate (a YAML file under
`.mandate/mandates/`) names the documents it governs, the rules each must
follow, and the source files that back them. `mandate` finds the repository
root by walking up to a `.mandate` folder, snapshots the tree once, and
validates every selected mandate against that snapshot.

## Layout

- `src/` — the library, verified with Verus:
  - `mandate`, `mandate_doc`: the mandate model, and the step from a mandate
    document to a mandate (each rule checked against its declared type).
  - `file_tree`: an exact, sorted snapshot of a repository's paths.
  - `validation`: every problem a mandate has against a snapshot, with the
    laws that tie validity to well-formedness and file presence.
  - `run_report`, `run_mandates`: a run over a repository and its report.
  - `cli`, `validate_command`: argument parsing and rendering for the two
    command lines.
  - `ports`, `file_system`, `fs_file_tree_source`, `fs_mandate_store`,
    `memory_tree`: the ports and the adapters built on a filesystem trait.
  - `fs_path`, `text`: the path operations taken from `std`, and verified
    text helpers.
- `app/` — the program: real filesystem, YAML reading with `serde` and
  `yaml_serde`, and `main`.
- `tests/` — scenarios run against the compiled library.
