# minecraft_gl

The logic of a small Minecraft-like voxel game, verified with Verus, and a
headless program around it.

## Layout

- `src/` — the verified library.
  - `ecs/` — an entity component system: entity ids that are handed out
    again once freed, component allocators, type-indexed component managers,
    signatures, layers and systems.
  - `registry.rs` — a paged sparse-set component registry.
  - `util/opaqueVector.rs` — a growable vector with explicit capacity rules.
  - `util/greedyMeshHelper.rs`, `util/greedyTiling.rs` — the greedy mesher
    of a chunk, and the proof that its quads tile each plane's faces exactly.
  - `world/` — blocks, items, crafting recipes, the block and item
    registries read from plain descriptions, the texture atlases, biome
    descriptions, chunks, and the decisions of the world around the player
    (which chunks to make, drop, mesh again and draw).
- `tests/` — tests of the library on concrete values.
- `app/` — the program: it reads the JSON description files, builds the
  atlas images, computes the noise-based terrain and runs the world's worker
  thread, calling the library for every decision.
