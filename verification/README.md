# chess

The rules of a small two-player chess game, verified with Verus.

- `src/piece.rs`: pieces and sides.
- `src/board.rs`: the 64-square board and its abstract view.
- `src/tables.rs`: the move tables of the king, knight, rook, bishop and queen.
- `src/rules.rs`: the rules as spec functions: rays, pawn moves, attacks,
  check, castling, pseudo-legal and legal moves.
- `src/moves.rs`: move generation, attack and check detection, proved against `rules.rs`.
- `src/fen.rs`: reading a position from FEN text.
- `src/fen_laws.rs`: what a FEN reading gives, field by field.
- `src/game.rs`: the click-driven game: selection, playing a move, castling
  rights, half-move counting and the turn.
- `src/laws.rs`: properties of the rules proved for all inputs.
- `app/main.rs`: the macroquad window that draws the board and forwards clicks.
