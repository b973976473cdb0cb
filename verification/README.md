# facto_loop_miner

Planning for LoopMiner, a generator of rail loop networks that mine every ore
patch of a Factorio map and bring the ore to a central base, written in
Verus with every function of the library proved against its contract.

- `src/surface`: points, areas, directions, pixels and the map surface.
- `src/navigator`: rail geometry, grouping patches into mines, scanning for
  mines in bands and squares and cutting them into batches, permuting the
  routes of a batch, choosing the best sequence of a batch, the failure
  statistics, the planners' decisions, giving rail starts back on rollback,
  reading circles of tiles from a drawn buffer, and the axis-hugging
  router (`shinri`) that runs straight and goes around what blocks it.
- `src/admiral`: the Lua commands that build rails, drills, chests, poles and
  other entities in a running game, and what the entry points send.
- `src/text`: decimal formatting, joining, search and trimming of text.
- `app/`: the command line front, which prints what the library computes.
- `tests/`: tests of the library on concrete values.
