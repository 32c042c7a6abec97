# reda_db

A placement database for mixed-size VLSI placement (macros, standard cells
and I/O pins), built from a LEF library and a DEF design, with its reading
logic verified by Verus.

## Layout

- `src/` — the verified library.
  - `numeric.rs`: the `Numeric` scalar trait the database computes with.
  - `geometry.rs`, `kinds.rs`: coordinates, sizes, the die area, and the
    instance, placement and orientation kinds.
  - `columns.rs`, `instances.rs`: column-wise storage of points, sizes and
    instances, with cursors over them.
  - `lefdef.rs`: what the database reads of a LEF library and a DEF design,
    as plain values, and the reading errors.
  - `units.rs`, `lookup.rs`: units and scales; name lookups.
  - `name_index.rs`: an index of names by hash, built once per read, so
    that each connection looks its names up without a scan.
  - `instances_reader.rs`: components to instances (movable first, then fixed).
  - `nets_reader.rs`: nets to pins, with a terminal instance per I/O pin.
  - `netlist.rs`: pin numbering (2-pin nets, then 3-pin, then larger).
  - `db.rs`: the database, its counts and areas, and the whole reading.
  - `laws.rs`: properties of a database read this way.
  - `utils.rs`: the building blocks under one module.
- `tests/` — tests on concrete designs.
- `app/` — file reading with `reda-lefdef`, conversion into the library's
  models, the `f32` computations of the file format (scale, die area),
  and logging.
