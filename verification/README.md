# The Last Light — game library

A cozy tavern-keeping game for the terminal. This crate is its rule book,
written in Verus: every rule is an executable function with a contract that
the verifier proves.

## Layout

- `src/` — the verified library
  - `time`, `random` — the clock and dice, behind small trusted wrappers
  - `item`, `inventory` — item definitions and the player's stock
  - `adventurer`, `gear` — the roster, levels, stats and equipping
  - `crafting`, `refining`, `workshop` — benches, batches and what the stock affords
  - `gathering`, `summary` — expeditions, drop tables and what a location yields
  - `tavern` — visitors, seating and upgrades
  - `input`, `views`, `party`, `shell` — the screens as state machines: each key
    press takes a view to its next state and says what the game should do
  - `text`, `art`, `ui` — labels, word wrapping, half-block pictures and the palette
  - `picture` — decoding and scaling images with the `image` crate
  - `catalog` — facts about the game's content as a whole: every crafting
    ingredient can be had, and every item handed out has an icon
- `tests/` — tests run against the compiled library
- `app/` — the terminal front end: reads keys and the clock, draws with
  ratatui, and saves the game as JSON

Verify with Verus; the front end builds against the library like any crate.
