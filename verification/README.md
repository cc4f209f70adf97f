# pumpkin_world

Chunk storage for a block world, verified with Verus.

- `src/chunk/palette`: paletted containers for the 4096 block states and 64 biomes of a
  section (uniform, indirect with packed indices, direct), their bit packing, and their form
  on disk.
- `src/chunk/heightmap.rs`: the three heightmaps of a chunk, nine bits per column.
- `src/chunk/section.rs`, `src/chunk/mod.rs`: sections with their count of non-air blocks, and
  chunks of sections.
- `src/chunk/format`: the stored form of chunks and of entity chunks, and reading them back.
- `src/cords`: block, section, biome and chunk coordinates.
- `src/level`: the folders of a level.
- `app/`: serde forms of the stored data and logging, outside the verified library.
