# arm — API Routes Manager

`arm` keeps the documentation of an HTTP API and its error codes in a Git
repository, one branch per version, category, endpoint, method and error
code, with a mapping from API paths to branches on `master`.

## Layout

- `src/` — the library, written in Verus and verified:
  - `text.rs`, `keyed.rs` — characters, lines and key-value lists, each
    operation stated over its mathematical model;
  - `markdown.rs`, `show.rs` — reading INFO.md and ERROR.md: fields,
    sections, tables, lists, code blocks, with the laws that a new error
    code's or method's document reads back as what it was written for;
  - `update.rs` — rewriting a field or section of a document, with the law
    that a field set under its heading reads back as the value set;
  - `registry.rs` — the recorded repositories and the path mapping, with
    their read-after-write laws, and the mapping cache;
  - `version.rs`, `commands.rs`, `docs.rs`, `report.rs`, `setup.rs`,
    `cli.rs` — what each command decides: branch names, documents, mapping
    records, refusals, reports, which repository to use;
  - `template.rs` — the document templates and their rendering;
  - `branch_order.rs`, `tree.rs`, `search_index.rs` — the tree of branches,
    its queries, and a substring index for fuzzy search, with the laws of a
    tree built node by node (lookups, finds, statistics and searches);
  - `outside.rs` — the calls into `regex`, `rand` (the operating system's
    random source) and the parts of std without a specification, each with
    the contract it is trusted with.
- `app/` — the program: command-line parsing (`clap`), Git, files and JSON
  (`serde_json`), settings under `~/.arm` (`dirs`), colours (`colored`), and
  the local time (`chrono`), which the library takes as a plain text.
  It asks the library what to do and carries it out.
- `tests/` — tests of the library on concrete documents, mappings and trees.
