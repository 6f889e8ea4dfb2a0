# push_chess

A verified library for Push Chess, a chess variant in which a moving piece
pushes the pieces in its way, and for the engines that play it.

- `src/rules/`: the rules — positions, push plans, move generation, making
  and unmaking moves, FEN reading and writing, hashing — with the laws that
  tie them together (FEN round trip, make/unmake, legality).
- `src/engine/`: what engines share: the time and node limits, bucketed
  tables, move selection, and the walk helpers that play and take back moves.
- `src/engines/`: the Astra family and the control Cataclysm's network and
  learning input.
- `src/candidates/`: the challenger engines (Titan, Chimera, Nexus, Omega,
  Void, Abyss and the candidate Cataclysm with its transaction board and
  oracle).
- `src/game.rs`, `src/session.rs`: game outcomes and analysis options.
- `src/selfplay.rs`: the self-play state (a position with its legal moves,
  prepared and ordered, and its outcome), the cursor that detaches a game's
  history, and the visit schedule of the sequential-halving root search.
- `tests/`: the tests, run against the compiled library.
- `app/`: the program around the library: the engine registry, the
  floating-point reduction tables, and input and output.

Each engine's static evaluation is specified exactly, as a spec function of
the position, and the evaluations that are counted for the side to move are
proved to change sign with it. The searches state their score bounds, what
they keep of the position and the tables, and (but for the candidate
Cataclysm, whose board is checked against the rules at run time) the score
of a node whose side to move has no legal move.

Every function in `src/` carries a contract that Verus proves; calls into
`arrayvec`, `smallvec` and the standard library's clock pass through a small
set of trusted wrappers, each documented where it stands.
