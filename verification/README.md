# liteparse_c

The verified core of liteparse's C interface: the rules by which parsed
documents are packed into flat records (one string pool and one array per
record kind, each page naming its ranges), and the checks and
conversions by which caller-supplied records are read back.

- `src/` is the library, written in Verus. Packing (`pack`, `projected`,
  `objects`, `raw_text`, `records`), reading (`page`, `content`,
  `content_in`, `config`), selection and rendering decisions (`select`,
  `raster`), the structure-tree and region layouts (`structure`,
  `region`), the record layout description (`layout`) and the JavaScript
  binding's views (`js`, `js_text`) carry exact contracts. The
  `round_trip*` modules prove that what packing writes the readers read
  back unchanged.
- `app/` holds what Verus does not check: the C-facing boundary (last
  error, panic guard), the async runtime, reading caller memory, and the
  single-precision arithmetic the core keeps as bit patterns.
- `tests/` runs the library on concrete values.
