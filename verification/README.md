# shapefile

Reading and writing ESRI shapefiles (`.shp` and `.shx`), with the format's logic
verified by Verus.

## Layout

- `src/` is the verified library. It works on the bytes of the files:
  - `header.rs`: the 100-byte file header;
  - `record/`: the shapes (points, multipoints, polylines, polygons, multipatches),
    their bounding boxes, and how each is encoded in a record;
  - `reader.rs`: `ShapeReader`, which reads the records of a `.shp` file, and uses
    its `.shx` index to reach a record by its number;
  - `writer.rs`: `ShapeWriter`, which writes the records and the index, then the
    headers;
  - `bytes.rs`: the little- and big-endian encodings, through `byteorder`;
  - `float_bits.rs`: coordinates are kept as the bit patterns of `f64` values; this
    module states how they compare.
- `app/` opens and writes the files, pairs the shapes with the `.dbf` records
  (through `dbase`), converts to and from `geo-types`, and decides the orientation of
  polygon rings, which is a floating-point computation.
- `tests/` runs the library on concrete values.

## What is proved

Among other things: a header, a record header and each shape's content read back as
they were written; a file written by `ShapeWriter` reads back, through `ShapeReader`,
as the shapes that were written, and the index entry `k` leads to the shape `k`;
polygon rings are closed and ordered as their kind asks; a bounding box holds all the
points it was made of.
