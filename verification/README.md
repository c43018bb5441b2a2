# terminal_rpg

A dark-fantasy, turn-based dungeon crawler. The library in `src/` holds the
game's rules with their contracts, checked by Verus:

- `world/` — positions, tiles, maps, deterministic room-and-corridor
  generation and its structural invariants;
- `game/` — run state and its invariant (`ExplorationGame::wf`), commands and
  turn accounting (`engine`), movement, combat, abilities, targeting,
  inspection, items, classes, enemy AI and pathing, visibility;
- `session` — transport-neutral key decoding and intent dispatch;
- `ui` — what each map cell shows, the threat line, resource bars, popup and
  viewport geometry, and terminal size limits;
- `protocol`, `server` — size and configuration checks for remote front ends;
- `web` — the browser session as a step function: what each client message
  does to the run, the input decoder and the terminal size, and which actions
  the transport must perform;
- `rng` — draws from the seeded `rand_chacha` stream at a given word
  position, behind trusted wrappers that name each draw as a function of the
  seed and the position, so generation and population are stated exactly
  (`world::generated`, `game::spawned_hostiles`, `game::seeded_items`).

`app/` is the terminal program: command-line parsing, the Crossterm event
loop and the Ratatui renderer, all built on the library.

Only local play has a front end here. Serving over SSH and playing in a
browser are not offered by `app/`: the browser client's page, script and
terminal bundle are not part of this project's files, and the SSH service's
key handling needs a second major version of `rand` beside the one the
library uses. The browser session's rules (`web::web_session_step`) and the
configuration checks (`protocol`, `server`) are in the library, ready for such
transports.

```sh
terminal-rpg play --seed 12345 --ascii --no-color
```
