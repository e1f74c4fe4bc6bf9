# survicraft

The game rules of Survicraft, a small multiplayer survival game on Bevy, as a library whose
behaviour is stated in contracts and proved with Verus, and a launcher around it.

- `src/` — the library:
  - `grid`: grid points and square neighbourhoods (the tiles of a chunk, the chunks around a chunk);
  - `tilemap`: chunk centers, chunk tiles and border rings, and which chunks to spawn when tiles are
    discovered, with the laws that chunks partition the plane;
  - `hash_maps`: the `bevy_platform` hash maps the game keeps, behind small trusted wrappers;
  - `lookup`: first-match look-up of assets by identifier;
  - `inventory`: items, recipes, and what a crafter removes and spawns;
  - `features`, `terrain`: feature variants, tile kinds, the per-chunk tile buffer, generation progress;
  - `status`, `launcher`, `settings`: status-bar colors, connection plans and progress, clock-derived defaults.
- `tests/` — tests of the library on concrete values.
- `app/` — the Bevy launcher: entities, physics, noise and everything in floating point.
