# natal_chart_solver

Finds the Julian-date windows in which chosen planets (and the Sun) occupy
chosen zodiac signs at the same time.

The search is split in two:

* `src/` is the verified library. It holds the decisions of the search:
  request validation, the feature and sign identifiers, the coarse step per
  body, station detection, the sweep through one window (`WindowSweep`:
  where each segment ends, when the sweep is done, which windows open, close
  and are emitted), the decisions of the bisection searches, the merging of
  windows and the feature-by-feature refinement of the search range
  (`WindowRefinement`). Dates and other numeric values travel through it as
  the IEEE 754 bit patterns of their `f64` values (`binary64`), compared with
  the IEEE semantics.
* `app/` holds the floating-point work and the WebAssembly interface: VSOP87
  ephemeris evaluation, longitudes, velocities, angular differences, the
  step additions and the midpoint arithmetic of the bisections. It drives the
  library's state machines, evaluating the body wherever they ask.
  `app/main.rs` runs one example search.

Modules of `src/`: `binary64`, `features`, `validation`, `windows`,
`segments`, `bisection`, `refinement`.
