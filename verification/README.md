# rustbik-cube

A 3x3 Rubik's Cube engine with Kociemba's two-phase solver, a scramble timer and a
terminal front end. The library in `src/` is written in Verus: its functions carry contracts,
and Verus proves the code against them.

## Layout

- `src/bitboard.rs`, `src/cube.rs`: the cube as two bitboards (twelve 5-bit edge slots,
  eight 5-bit corner slots), face turns, and the laws of turning (a turn followed by its
  inverse, four quarter turns, the stitching of move lists).
- `src/moves.rs`: moves, Singmaster notation (parsing and printing), scrambles and random
  scrambles.
- `src/combinatorics.rs`, `src/coords.rs`: the coordinates of the two-phase algorithm
  (orientations, slice positions, permutation ranks), the cubes built from them, the
  whole-cube symmetries.
- `src/search.rs`, `src/phase_one.rs`, `src/phase_two.rs`, `src/solver.rs`: the
  depth-first searches over table-driven coordinates and the two-phase solver. Each
  search returns only sequences that reach a position the pruning tables rate 0, and
  finds one whenever the bound admits one.
- `src/tables.rs`, `src/sym_tables.rs`, `src/table_bytes.rs`: generation of the move,
  symmetry and pruning tables, and their storage as bytes.
- `src/faces.rs`, `src/colors.rs`: the sticker colours of a cube state, the unfolded net
  and its terminal drawing; every cube reached by moves shows each colour nine times.
- `src/timer.rs`: the state machines of the timer and menu screens and the text they
  show.
- `src/random.rs`: the random numbers behind random scrambles.
- `app/`: the program around the library: table files, the Python module, and the
  terminal interface.
- `tests/`: tests of the library.
