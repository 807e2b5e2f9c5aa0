# Chess engine core, verified with Verus

The library holds the parts of a chess engine that can be stated and
proved exactly:

- `basetypes`: colors, piece types, squares, move types, castling rights.
- `position::chess_move`: the 32-bit move encoding (`Move`), its field
  accessors, its order (score first, then most valuable victim, then
  least valuable aggressor), and the bounded `MoveStack`.
- `board`: the `Board` type; the `BoardEvaluator` and `MoveGenerator`
  traits, whose `calc_see` default method computes the static exchange
  evaluation; `bitsets` and `geometry` (sliding attacks, squares behind
  a blocker); `see` (the exchange model and its evaluation);
  `notation` (Forsyth–Edwards Notation); `play` (the position that a
  move leads to, which the traits' move hooks are stated over).
- `hash_table`, `stock::std_hash_table_entry`: transposition-table
  entries.
- `value`, `depth`, `moves`: values, search depths, move digests.

Every function is verified; the crate has no trusted items. Tests under
`tests/` run the library on concrete positions.
