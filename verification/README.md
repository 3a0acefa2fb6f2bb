# brainprint_engine

The logic of a code-intelligence engine, written in Verus: what the engine
decides is stated in contracts and proved; what it does to the world is kept
apart from it.

## The library

`src/` holds the verified library.

- `registry`: Projects and Workspaces, by identity and by locator.
- `query`, `query_text`: listing, locating and searching over index rows.
- `query_surface`: the operations a caller sees, each as the step to be done
  next and what its result comes to.
- `projection`, `knowledge`, `evidence`: what a projection may ask for, under
  which scopes, and what an answer may claim.
- `index_tables`, `reconcile`, `refresh`: the index, its recovery from the
  filesystem, and the refresh of one Resource.
- `semantic`, `semantic_index`: what semantic analysis establishes, what each
  publication depends on, and when it stops being current.
- `python_semantic`: asking a Python type server about a Workspace, from the
  handshake over coherent batches to published evidence.
- `text`, `paths`, `json`, `fingerprint`: what all of these are built from.

`text` and `json` also hold the few functions of the standard library and of
`serde_json` whose contracts are taken on trust.

## Around it

`app/` is ordinary Rust: processes, files, databases and encodings. It performs
the steps that the library decides on, and hands back what came of them.

`tests/` runs the library on concrete values.
