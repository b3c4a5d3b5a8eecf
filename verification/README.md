# nucleide

Verified core of a nuclear-analysis toolkit, written in Verus: every
function under `src/` carries a `requires`/`ensures` contract that Verus
proves.

- `src/` — the library: the MCPL particle-list header codec, FGR 15 table
  layout and nuclide naming, FISPACT-II clearance listing structure, the
  MCNP CSG geometry planners for OpenMC, Serpent, PHITS and GDML and
  their passes (cell parameters, data cards, universes and lattices,
  surface mapping, macrobody expansion, cell regions in each code's
  spelling, boundary conditions, GDML solid choice), parameter-sweep case
  grids, the samplers' integer random-number streams, and the input checks
  and error types of the numerical crates.
- `tests/` — scenario tests of the library.
- `app/` — plain Rust around the library: file I/O, the floating-point
  parts (particle records, table values, tridiagonal and decay solves,
  samplers, surface coefficients and lattice geometry), the OpenMC
  `geometry.xml`, Serpent and PHITS writers, and `Display` for the error
  types.

The library calls one outside crate, `flate2`, through two trusted
wrappers (`src/mcpl/gzip.rs`) to compress and decompress MCPL files; the
XML writer in `app/` uses `quick-xml`.
