# makepad

The core logic of a small UI toolkit, written in Verus with its behaviour
stated in contracts and proved.

- `src/image.rs`: image buffers, a least-recently-used cache of them keyed by
  path, and the steps a widget takes to get its image (file format by
  extension, cache lookup, remembering a loaded image, texture description).
- `src/network.rs`: HTTP request and response records: headers, UTF-8 bodies,
  the text form of a header block and its parser.
- `src/view.rs`: the view container: children and draw order, animation
  tracks, background textures, the search cache, event routing, hits on the
  view's own area, and the drawing steps; handles (`ViewRef`) and sets of
  handles (`ViewSet`).
- `src/desktop_button.rs`: caption-bar buttons and how they answer pointer
  input.
- `src/dock.rs`: how a dock answers dragged and dropped tabs.
- `src/counter.rs`: the click counter of the example application.
- `src/widget.rs`, `src/live_id.rs`: the shared vocabulary (identities,
  areas, events, the redraw queue).

`app/` holds what computes with floating-point numbers (layout sizes,
shader inputs, scroll positions), which stays outside the verified library.
`tests/` runs the library on concrete values.
