# Carbonthrone

Game rules of a turn-based tactical RPG set aboard a space station caught in a
temporal loop, written in Verus: every function in `src/` carries a contract
that Verus proves.

## Layout

- `src/` — the verified library
  - `character`, `stats`, `action_points`, `temporal_flux`: characters, their
    stats and level scaling, action points, the zone's temporal flux
  - `combat`, `turn`, `pending_effects`, `entity`: damage, turn order, the
    battle driver (sides, rounds, outcome), movement costs, melee targeting,
    delayed effects
  - `ability`: what each ability does to the battle when used, and moving
  - `player_input`, `ai`: the choices offered to the player, the enemy and
    ally tactics (scripted openings, seeking cover, attacking), and a side's
    turn run step by step
  - `terrain`, `pathfinding`, `zone`, `map_gen`, `travel_system`: the level
    grid, directional cover, shortest paths and the nearest open tile, laying
    out a zone from its obstacle draws, companions following the player and the
    party's placement on arrival
  - `dialog`, `npc_population`, `game`: story flags, who stands in each zone,
    companions, the game session (dialogs, loops, travel, endings) and saving
    and loading it
  - `yarn`, `yarn_runner`, `dialog_screen`, `text`, `assoc`: a Yarn dialog
    interpreter driven one step at a time, and the layout of its screen
  - `console`: the debug console's command parser and its commands
  - `save`, `scripted_encounter`: saved records, battle snapshots, and who
    fights in each scripted encounter
- `tests/` — tests run against the compiled library
- `app/` — the terminal front end: reads the dialog scripts, draws the screen,
  reads keys, saves games as YAML, and holds what works on floating-point
  numbers (hit chances and rolls, the expected-damage target choice, the
  obstacle draws and region fractions of map generation, the marked spots of
  scripted encounters) together with the loop that runs a battle
