# motion_k

The verified core of a small motion-graphics program that renders
OpenStreetMap data with keyframed camera moves.

`src/` (verified with Verus):

- `motion_graphics::attributes` — the `Attribute` trait, constant
  attributes, and keyframed attributes: which keyframe a frame falls on or
  between (`InterpolatedAttribute::sample`).
- `motion_graphics::elements` — the point-count checks shapes and lines make
  before drawing.
- `geo::style` — style tables keyed by tag value, the built-in map styles,
  and the tag filters used while importing.
- `geo::map_generator` — the map data model (nodes, ways, relations) and the
  choice of style for an element.
- `geo::pos_builder` — ordering a relation's outer ways into outlines, and
  the node sequences the position builders project.
- `geo::map_io` — the bookkeeping of an OSM import (`OsmImport`).

`app/` holds what the verifier cannot take: drawing with skia, `f32`
interpolation and projection, the window, reading PBF files and the bincode
cache.
