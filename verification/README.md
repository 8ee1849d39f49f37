# terminal_snake

The rules, input handling and layout of a terminal snake game, written in
Verus and proved against their contracts, plus a terminal front end.

- `src/game/` — grid types, the PCG32 generator and FNV-1a hash, the snake's
  body and step rule, food placement, and the game's tick.
- `src/input.rs` — key mapping and the two-deep queue of pending turns.
- `src/app.rs` — the application state machine: actions in, game state out,
  and which screen a terminal of a given size shows.
- `src/render/` — arena layout, colour-capability detection, the xterm-256
  palette fallback and the half-block cell decision.
- `src/ui/` — the hint line and the placed lines of the resize screen.
- `app/` — the terminal program: the floating-point clock, canvas, effects
  and drawing, and the ratatui/crossterm loop that writes frames.
- `tests/` — tests of the library.
