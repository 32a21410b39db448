# koch

A chess library with proofs: board and move rules, FEN reading and
writing, SAN and UCI moves, undo records and navigation through a game,
PGN reading and writing, the game controller with its clock, the analysis
engine session, and the settings store. Every function in `src/` is
checked by Verus against its `requires`/`ensures` contract.

Layout:

- `src/engine` — board, pieces, move generation, FEN, SAN, UCI, serialization, the starting position
- `src/analyzer` — analysis board, undo and navigation, engine session, assistant context
- `src/database` — PGN writing (`pgn`) and reading (`pgn_reader`)
- `src/game` — the game against the engine and its clock
- `src/server` — settings, engine variations, request handling
- `src/desktop` — the desktop board: click handling with its own move rules, castling, the end-of-game step, direct board edits, taken-piece order, engine-game setup, and its enums
- `src/text` — string helpers with their specifications
- `app/` — the program around the library: database (rusqlite), settings
  file, engine process and threads, JSON files
- `tests/` — tests on concrete values
