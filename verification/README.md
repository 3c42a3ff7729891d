# hydroflow

Lattice types and the scheduling core of a dataflow runtime, with machine-checked
contracts.

## Layout

- `src/` — the verified library.
  - `lattice`, `set_union`, `map_union`, `pair`, `union_find`: lattice traits and lattices;
    every `merge` states the join it computes, and the join laws are proved for each type.
  - `checks`, `lattice_checks`, `order`, `cartesian`, `functions`: checks of lattice laws and
    bimorphisms over sample values, with exact contracts and lemmas that they always pass.
  - `collections`: singleton and fixed-size array collections.
  - `scheduled`: handoffs, send/receive contexts, the dataflow graph with its stratified
    scheduler, and the Graphviz statements of a graph.
  - `scheduled_alt`: handoffs that own their buffers.
  - `surface`: the operator graph of a surface-syntax program, its validation, the coloring
    of its operators into pull and push subgraphs, and its Mermaid flowchart.
  - `util::slot_map`, `one_to_many`, `codegen`, `root_path`, `text`: helpers.
- `app/` — the parts that do I/O or use other crates' traits: the run loop with its event
  channel, Graphviz file output, serde forms, and code generation with `quote` and `syn`.
- `tests/` — tests of the library.

Code emission from the language's flat graph (its topological sort and per-operator code
writers) is not part of this crate.
