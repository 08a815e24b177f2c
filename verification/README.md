# honeycomb-core

Combinatorial maps in 2D and 3D, whose operations carry contracts that Verus proves.

A combinatorial map represents a mesh by its darts (oriented edge halves) and the beta
functions that link them: *β<sub>1</sub>* follows a face, *β<sub>0</sub>* goes back,
*β<sub>2</sub>* (and *β<sub>3</sub>* in 3D) pairs darts of adjacent faces (volumes). Cells
(vertices, edges, faces, volumes) are orbits of darts, identified by their smallest dart.

## Layout

- `src/` — the verified library:
  - `components.rs`, `attributes.rs`, `ids.rs`, `error.rs`: storages of beta images, unused
    flags and sparse attributes, identifiers and errors;
  - `orbits.rs`: breadth-first orbit traversal, with its exact visiting order, and orbit
    identifiers;
  - `cmap2/`, `cmap3/`: 2-maps and 3-maps: dart management, links and sews (with their
    merging and splitting of vertex values), cell identifiers, edge splitting, and the
    properties that relate these operations (`laws.rs`, `split_laws.rs`, `sew_laws.rs`, `vertex_laws.rs`,
    `consistency.rs`);
  - `grid_data.rs`, `grid_export.rs`: building a 2-map from the cells of an unstructured
    grid, and laying a 2-map out as such a grid;
  - `twomap.rs`, `dart.rs`, `embed.rs`, `generation.rs`: a 2-map storing the cell identifiers of
    each dart, its embedding policies, and the generation of square meshes.
- `app/` — ordinary Rust around the library: floating-point vertex types, VTK files, the
  plain-text dump, builders, and error messages.
- `tests/` — tests of the library.
