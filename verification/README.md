# cad_extraction

The verified core of a CAD (DXF/DWG) extraction tool and viewer.

`src/` is a Verus library.  It holds the rules of the tool, each with a
contract proved by Verus:

- `extract`, `blocks`, `output` — indexing an extracted drawing (entity
  records, layer and block indexes, layer/block summaries, layouts in tab
  order, counts) and the layer table and blocks section of the JSON output;
- `semantic`, `fingerprint` — the semantic comparison of two drawings:
  counts by layer, block, entity type and fingerprint, and their
  differences;
- `version`, `paths`, `reader`, `batch` — DXF/DWG versions, the `$ACADVER`
  header scan and repair, output file locations, and the bookkeeping of
  command-line runs;
- `commands`, `panels`, `viewer`, `scene`, `walk`, `style`, `mtext` — the
  viewer's command line, visibility filters, state, draw order, block walk,
  colours and MTEXT decoding;
- `name_map`, `text` — a sorted map keyed by names and character-level
  string helpers.

`app/` is the command-line program and the viewer around the library: file
and CAD I/O through `acadrust`, JSON through `serde`, the `clap` interface,
the `egui` viewer and all floating-point geometry.

`tests/` exercises the library from outside.
