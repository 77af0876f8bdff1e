# ratatui_camera_readback

The decisions behind reading terminal cameras back from the GPU, verified
with Verus:

- `src/area.rs`: cell areas, render-texture dimensions and the autoresize
  decision taken when a camera widget is replaced;
- `src/targeting.rs`: targeting messages and which entity renders into which
  camera's image;
- `src/readback.rs`: which readback pipes an entity gets or loses when a
  camera or a detection setting is inserted, changed or removed, with a model
  of the pipes a world holds;
- `src/widget.rs`: what a camera widget is built from.

`app/` holds the Bevy plugin, components, systems and observers, which read
the world, call the library and carry out its decisions.
