# pair_creation

Verified integer and decision logic of the nonlinear Breit-Wheeler
pair-creation rate in linearly polarized backgrounds.

- `src/` (Verus): `region` chooses the rate table for a point and the table
  that sampling draws from; `harmonics` builds the sorted, repeat-free table of
  harmonic orders a quadrature needs and looks harmonics up in it; `cdf` places
  the nodes of the cumulative distribution over harmonics and picks the entry
  of the running sum each node reads; `fold` maps the final uniform draws onto
  halves of the `s` range and quadrants of `theta`.
- `app/` (plain Rust): the floating-point side that calls the library: the
  quadrature and rate tables, the log-spaced node grid, cumulative complex
  sums, interpolation between harmonics and the reflections of a sample.
- `tests/`: tests of the library on concrete values.
