# chess_tui

A chess game for the terminal, with its rules engine, clock, session logic and screen
geometry verified with Verus.

- `src/engine`: the board, moves, FEN reading, the move generator and the game. The rules
  are stated as spec functions in `rules.rs`, and `geometry.rs` proves the attack test equal
  to the board's geometry (adjacent kings, pawns capturing one file aside, sliding pieces on
  open lines); `soundness.rs` proves that play never leaves the positions the generator is
  correct on, and `laws.rs` states what holds of the engine as a whole.
- `src/ai`: the computer player, which picks one of the legal moves at random.
- `src/utils/time.rs`: the chess clock, counted in nanoseconds.
- `src/app.rs`, `src/states.rs`, `src/config.rs`: the session: what a key, a click or a
  clock tick does to the game, the selection and the clocks.
- `src/ui`: screen geometry (layout, mouse to square), the theme and the texts drawn.
- `app/`: the terminal program: event loop, drawing, settings and history files.
- `tests/`: the test suite.
