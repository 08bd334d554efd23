# arena_game

The game rules of a two-player arena duel, as a library whose behaviour is stated in
`requires` / `ensures` contracts and proved with Verus.

- `src/` is the verified library:
  - `skills`: the skill roster and the held-ticks → charge-byte mapping;
  - `cast`, `input`: the per-tick input latches and the falling-edge cast detector;
  - `cue`: cue kinds and cue-id naming;
  - `charge_tiers`, `gates`, `panel`, `wheel`: presentation and input decisions (charge-tier
    visuals, input gating, the lobby list panels, the radial skill wheel);
  - `lobby`: round phases, banners, level sync and once-per-lobby requests;
  - `portals`: per-owner portal pairing;
  - `weapons`, `order`: the weapon catalog and the sort it is ordered by;
  - `args`: the `--ip` / `--port` scan;
  - `rig`, `sockets`, `timelines`, `harness`, `text`: rig naming, socket lookup, cast-timeline
    bookkeeping, the smoke/screenshot frame counters, and string helpers.
- `tests/` runs the library on concrete values.
- `app/` is the program around it: argument handling, the environment hooks of the scripted
  client, the frame loop, the floating-point geometry and feel helpers, and the serde form of
  the cue wire.
