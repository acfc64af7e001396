# orthowan

Repairs the window and door openings of IFC files exported from OrthoGraph so that
Allplan reads them: every opening that an `IFCRELVOIDSELEMENT` relation places in a
wall becomes an `IFCOPENINGSTANDARDCASE` whose body is a plain `IFCEXTRUDEDAREASOLID`,
a rectangle extruded along the wall's normal.

## Layout

- `src/` is the library, verified with Verus. It works on the text of a STEP file as
  a sequence of characters.
  - `text.rs`: character classes (Unicode white space and decimal digits, the
    characters of type names), trimming, searching, decimal numerals.
  - `scan.rs`: the entity records `#<id> = <TYPE>(<arguments>);` of a file and the
    references `#<id>` inside arguments.
  - `args.rs`: splitting argument lists at top-level commas, point coordinates, and
    shortening fixed-point numerals.
  - `table.rs`: the entities of a file, one per id, with an index.
  - `plan.rs`: the body context, the largest id number, and the openings with their
    walls.
  - `source.rs`: the texts that the geometry of an opening is computed from.
  - `emit.rs`: the fifteen records of a repaired opening and the record that takes
    its place.
  - `splice.rs`: rewriting a text record by record and placing new records before the
    last `ENDSEC;`.
  - `convert.rs`: the whole conversion. `opening_sources` gives what the geometry is
    asked for each opening, `convert_with_answers` converts with given answers and
    says exactly what text or which error comes out, and `convert_ifc` asks a
    geometry function itself.
  - `laws.rs`: properties proved of every input.
- `app/` is the desktop program (Tauri): reading and writing files, and the
  floating-point geometry of each opening (the wall's axis, the projection of the old
  profile onto it), which it hands to the library as text.
- `tests/` runs the library, and compares its scanner and character classes with the
  `regex` crate and with the standard library.
