//! A 3x3 Rubik's Cube engine: bitboard cube state, move notation,
//! coordinates for Kociemba's two-phase algorithm, and the search itself.

pub mod bitboard;
pub mod moves;
pub mod cube;
pub mod random;
pub mod combinatorics;
pub mod coords;
pub mod search;
pub mod phase_two;
pub mod phase_one;
pub mod solver;
pub mod table_bytes;
pub mod tables;
pub mod sym_tables;
pub mod faces;
pub mod timer;
pub mod colors;
pub mod net_turns;
