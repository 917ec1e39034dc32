# debree

Rules of a small 2D space-station survival game, written in Verus: every
function of the library carries a contract that the verifier proves.

* `src/` — the verified library
  * `pipe_puzzle` — the engine console: building a solved pipe grid from
    weighted random pieces, scrambling it, turning pipes, checking it.
  * `wires` — the reactor console: a random pairing of sockets, colours,
    connecting wires.
  * `hack` — the satellite console: button frames, the symbol grid, which
    buttons light up and may be picked, judging an entry.
  * `consoles` — submit buttons, status lines and repair outcomes of the
    consoles.
  * `malfunction` — breakdowns: choosing one, alarms, repair times, applying
    repair outcomes.
  * `chain` — the chain-reaction history and its progress line.
  * `interaction` — which console is highlighted and entered.
  * `states` — pending start-up tasks and the loading screen.
  * `player`, `animation`, `platforms` — player modes, animation clips and
    blending decisions, moving-platform waypoints.
  * `overlay`, `rapier` — debug overlay layout and settings.
  * `utils` — the ping-pong remainder; `random` — the random source.
* `tests/` — tests of the library on concrete values.
* `app/` — the game shell built on the library: the engine systems, user
  interface, floating-point physics and effects.
