# punchy

The rules of Fish Folk: Punchy, a 2.5D side-scrolling beat-'em-up, written as a Verus
library: each decision the game makes is an executable function with a contract, and
the properties the game relies on are proof functions checked by Verus.

## Layout

- `src/`: the verified library.
  - `fighter_state`: fighter states, their priorities, and which queued transitions a
    fighter takes each frame (highest priority first, stopping at the first that
    replaces the current state).
  - `animation`, `audio`: sprite-sheet clips, how frames advance, and the sound
    effects tied to frames.
  - `attack`, `collision`, `item`: damage, breakables, collision layers, picking items
    up, throwing them and what they drop.
  - `enemy_ai`, `state`: enemy decisions and the coarse movement state.
  - `assets`, `loading`, `scripting`: asset paths by Unix path component rules,
    hot-reload passes, and the script load queue.
  - `ui`, `settings`, `input`, `config`, `localization`: menu pages, the controls table,
    input bindings, the command line and message lookup.
  - `random`: the one call into an outside crate (`rand`), with the contract it is
    trusted to meet.
- `tests/`: tests of the library on concrete values.
- `app/`: the game around the library, on Bevy: reading the command line and the YAML
  assets, spawning fighters and items, and the systems that feed the library's
  decisions with the world's state and apply what they return.
