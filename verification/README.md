# osm_nav

An interactive road navigator for OpenStreetMap extracts. It loads a
`.osm.pbf` file, builds a directed road graph and computes fastest or
shortest routes with A*, honouring toll and motorway avoidance.

- `src/` is the library, verified with Verus:
  - `types`: road classes, route modes, click modes, routing options;
  - `graph`: the road graph and its adjacency lists;
  - `osm`: which ways are roads, their class, direction, toll, name and
    speed text, and the construction of the graph from OpenStreetMap ways
    and nodes;
  - `router`: which edges a route may use, and tracing a route back from
    the search's predecessor links;
  - `controls`: the state of the screen's buttons, keys and selections;
  - `text`: the text operations the rules above rely on.
- `app/` is the program: file reading, the floating-point parts (positions,
  distances, speeds, the A* search itself), drawing and input.
- `tests/` exercises the library.
