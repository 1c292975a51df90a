# factorish

The rules of a small factory-building game, written in Verus: the map, the
structures that stand on it (belts, inserters, mines, furnaces, assemblers,
chests, boilers), the items lying on the ground, the player's inventory and
tools, and the power networks that wires join. Every executable function in
`src/` carries a contract that Verus proves.

Layout:

- `src/` — the verified library. `world.rs` holds the map and what building,
  harvesting, clicking and rotating do to it; `buildings.rs` the structures
  and how each answers an item; `item_steps.rs`, `arms.rs` and `mines.rs`
  one frame of the items on the ground, of an inserter and of an ore mine;
  the other modules hold the parts they are built from (inventories,
  recipes, the generational item set, terrain, power networks, scenarios).
  Public `lemma_*` proof functions state the laws that hold across calls.
- `tests/` — tests on concrete values.
- `app/` — the browser-facing side: serialisation copies of the library's
  types and the parts that work on floating-point time and angles.
