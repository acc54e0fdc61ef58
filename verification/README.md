# raycaster

A Wolfenstein-style raycaster built on raylib, split in two:

- `src/` — the verified library (Verus): maps and wall queries (`map`), the game's
  screen state machine (`state`), the RGBA software framebuffer and its drawing
  primitives (`framebuffer`), wall colours, wall-slice extents and the minimap layout
  (`raycasting`), the crosshair (`weapon`), the layouts of the generated textures,
  pistol and creature images (`textures`), creature placement and animation frames
  (`sprite`), the demo GIF's frame encoding (`recorder`), and the colour type (`color`).
- `app/` — the game program: window, input, audio, GIF recording, and the
  floating-point parts (ray casting, movement, sprite projection, weapon animation),
  calling into the library for every decision it can make.

Positions in a level's data are stored in thousandths of a cell and angles in
thousandths of a radian; the program turns them into floats.
