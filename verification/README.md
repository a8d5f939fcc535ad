# octaindex3d

Spatial identifiers on the body-centred cubic (BCC) lattice, whose cells are
truncated octahedra with 14 neighbours each, written in Verus. The library's
own functions carry contracts that the verifier proves; the calls into outside
crates go through a small number of trusted wrappers, whose
contracts are taken on trust.

## Layout

- `src/` — the verified library.
  - `lattice`, `ids`, `id`, `morton`, `hilbert`, `neighbors`: lattice
    coordinates, the packed identifiers (`Galactic128`, `Index64`, `Route64`,
    `Hilbert64`, `CellID`), Morton and Hilbert codes, parent/child and
    neighbour relations, with their round trips proved.
  - `bytes`, `bech32m`, `compression`, `container`, `container_v2`: big-endian
    encodings, Bech32m text, codecs and the two container formats; what a
    reader gives back is what the writer wrote.
  - `layer`, `layers`, `frame`, `geojson`: per-cell data layers, the frame
    registry, and the integer parts of the mapping layers.
  - `graph`, `grid`, `path`: breadth-first k-rings and k-shells over cells and
    routes, exact as sets.
  - `game`: the maze game — Prim's maze generation (a spanning tree that
    carves every lattice point of the box), A* search (sound and complete, returning a walk without repeated
    cells), player moves and the bloodhound mode.
  - `performance`: batch, parallel-chunk and accelerator entry points, each
    proved to compute what the scalar functions compute.
- `tests/` — tests of the library on concrete values.
- `app/` — the command-line program: terminal game loops, benchmarks, file
  output, floating-point geometry and the mapping layers that store floats.

Outside crates called from the library (`bech32`, `lz4_flex`, `zstd`,
`crc32fast`, `sha2`, `rand`) are reached through small trusted wrappers whose
contracts state what those crates document; the system clock is read
through one more wrapper, of which nothing is stated.
