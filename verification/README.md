# bomberman

The rules of a grid-based bomb arena game, verified with Verus.

- `src/` is the library. Positions are in thousandths of a tile and times in
  milliseconds, so every rule is integer arithmetic that Verus checks for
  overflow. Its modules: `map` (the tile map, its generation and the level
  text format), `bomb` (timers, sliding, explosions and chain reactions),
  `player`, `enemy` and `route` (movement, collisions and the enemies'
  path finding), `powerup`, `input` and `event` (input state machines and
  key binds), `game_state` (the match and campaign ticks, scoring and
  difficulty) and a few small ones.
- `tests/` runs the library on concrete games.
- `app/` is a headless runner: it reads a level file, plays it with scripted
  key presses, prints the outcome and keeps the settings file (CBOR).
