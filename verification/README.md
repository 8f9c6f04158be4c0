# vector_index

Storage layer of an approximate nearest-neighbour vector index, verified
with Verus.

- `src/` — the verified library: `documents` (append-only document store),
  `vectors` (row-major vector buffers), `neighbors` (per-level neighbour
  lists of the layered graph), `distances` (distance selectors and the
  chunk/lane index arithmetic of the vectorised kernels).
- `app/` — the floating-point side, built on the library: distance kernels,
  the distance-ordered priority element, and the index structures whose
  configuration holds an `f32`.
- `tests/` — tests of the library.
