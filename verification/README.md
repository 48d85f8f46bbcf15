# grib_viewer

A GRIB2 weather-data viewer for the browser: it opens a GRIB2 file held in
memory, lists the parameters, fixed surfaces and forecast times it holds,
finds the message for a request, and draws heatmap and wind-barb overlays.

## Layout

- `src/` — the verified library (Verus).
  - `grib_helpers.rs` — parameter keys (`grib2_<d>_<c>_<p>`) and surface keys
    (`surface_<t1>_<f1>_<v1>_<t2>_<f2>_<v2>`): writing them, reading them back
    (with proofs that every written key reads back), and surface descriptions.
  - `catalog.rs` — selection over the submessages of a file: by parameter, by
    surfaces, by forecast time; the first match for a request; sorted, unique
    forecast times; pairing of vector components by time.
  - `viewer.rs` — `GribViewer`: a file opened from bytes, what it read of
    each submessage (tied to the reader by a type invariant), its parameter,
    surface and time listings, the message index, description and dump for a
    request, and summaries of the messages.
  - `framing.rs` — the check that the lengths declared in GRIB2 data are
    in range for the reader's arithmetic.
  - `calendar.rs` — UTC civil time: seconds since the epoch of a date and
    time, whether a forecast target time lies beyond what chrono holds, and
    time-of-day text.
  - `grid.rs` — grid-point bookkeeping: the position of each grid point among
    the values, 1-d axes of regular grids, the cell around a coordinate,
    zoom-dependent sampling steps and sample points.
  - `windbarbs.rs` — arrow types and the SVG templates of wind barbs.
  - `text.rs` — character-level helpers: decimal text, splitting, integer
    parsing with the standard library's semantics, lexicographic order.
  - `error.rs` — the library's error type and its messages.
  - `grib_source.rs` — the calls into the `grib` crate (and into std and
    chrono for text), with their contracts.
- `tests/` — tests of the library, run against the real `grib` crate.
- `app/` — the WebAssembly front end: JavaScript bindings, decoding of values,
  map projection, colour maps and the floating-point parts of the overlays.
