# spatial_io

Spatial conversion contracts — validated linear rings, polygons and
multipolygons, typed attribute schemas, coordinate spaces and CRS identities,
and the row content of `GeoParquet` output — verified with Verus.

Coordinates are held as IEEE 754 binary64 encodings (`f64::to_bits`), and
every geometric predicate is decided exactly on the rational values they
denote. Every finite binary64 value is an integer multiple of `2^-1074`, so in
units of `2^-1075` every coordinate (and every midpoint of two coordinates)
is an integer. `num-bigint` integers in those units therefore carry the
exact arithmetic that rational numbers would, and they are built from the
encoding's bits rather than from floating-point values.

## Layout

- `src/` — the verified library:
  - `binary64`: the exact value of an encoding and an order key for it;
  - `exact`: exact orientation and determinant signs;
  - `model`, `reference`: points, linework, features, attribute maps,
    affines and CRS identities;
  - `topology`: ring, polygon and multipolygon validation;
  - `similarity`, `reversal`: laws on translation, scaling and ring direction;
  - `intersection`: what each segment relation means for the points the two
    closed segments share;
  - `area`: the shoelace area, negated by reversal together with the winding,
    scaled by a similarity, and its sign as the winding of a triangle;
  - `bounds`, `wkb`, `geoparquet`: exact bounds, WKB records, metadata
    validation, CRS resolution and attestation for `GeoParquet` output;
  - `geotiff`: the spatial reference decided from decoded `GeoTIFF` metadata;
  - `flatten`: the work list of cubic flattening;
  - `text`: byte order of strings and decimal notation.
- `app/` — ordinary Rust around the library: binary64 arithmetic (affine
  application, flatness and halving of cubics), Arrow/Parquet writing and
  atomic publication, `GeoTIFF` reading, serde forms and a displayable error.
- `tests/` — tests of the library.
