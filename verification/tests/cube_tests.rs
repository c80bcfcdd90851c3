use rustbik_cube::cube::Cube;
use rustbik_cube::moves::Scramble;

#[test]
fn test_new_cube_is_solved() {
    let cube = Cube::new();
    assert!(cube.is_solved());
}

#[test]
fn test_single_move_unsolves() {
    let mut cube = Cube::new();
    cube.apply(&Scramble::new("R"));
    assert!(!cube.is_solved());
}

#[test]
fn test_move_inverse() {
    let mut cube = Cube::new();
    cube.apply(&Scramble::new("R R'"));
    assert!(cube.is_solved());

    cube.apply(&Scramble::new("U U'"));
    assert!(cube.is_solved());

    cube.apply(&Scramble::new("F F'"));
    assert!(cube.is_solved());

    cube.apply(&Scramble::new("L L'"));
    assert!(cube.is_solved());

    cube.apply(&Scramble::new("B B'"));
    assert!(cube.is_solved());

    cube.apply(&Scramble::new("D D'"));
    assert!(cube.is_solved());
}

#[test]
fn test_double_move() {
    let mut cube = Cube::new();
    cube.apply(&Scramble::new("R2 R2"));
    assert!(cube.is_solved());

    cube.apply(&Scramble::new("U2 U2"));
    assert!(cube.is_solved());

    cube.apply(&Scramble::new("F2 F2"));
    assert!(cube.is_solved());

    cube.apply(&Scramble::new("L2 L2"));
    assert!(cube.is_solved());

    cube.apply(&Scramble::new("B2 B2"));
    assert!(cube.is_solved());

    cube.apply(&Scramble::new("D2 D2"));
    assert!(cube.is_solved());
}

#[test]
fn test_sexy_move_cycle() {
    let mut cube = Cube::new();
    for _ in 0..6 {
        cube.apply(&Scramble::new("R U R' U'"));
    }
    assert!(cube.is_solved());
}

#[test]
fn test_minimal_representation_cycle() {
    let cube = Cube::new_random(10);
    let min_rep = cube.minimal_representation();
    let cube2 = Cube::new_from_minimal(min_rep);
    assert_eq!(cube, cube2);
}

#[test]
fn test_new_random_not_solved() {
    let cube = Cube::new_random(10);
    assert!(!cube.is_solved());
}

#[test]
fn solved_bitboards_hold_each_piece_in_its_slot() {
    let cube = Cube::new();
    assert_eq!(
        cube.edges(),
        0b01011_01010_01001_01000_00111_00110_00101_00100_00011_00010_00001_00000
    );
    assert_eq!(cube.corners(), 0b00111_00110_00101_00100_00011_00010_00001_00000);
}

#[test]
fn minimal_representation_packs_edges_above_corners() {
    let cube = Cube::new();
    let rep = cube.minimal_representation();
    assert_eq!((rep >> 64) as u64, cube.edges());
    assert_eq!(rep as u64, cube.corners());
    let back = Cube::new_from_minimal(rep);
    assert_eq!(back, cube);
}

#[test]
fn quarter_turn_four_times_is_identity() {
    for face in ["U", "F", "R", "B", "L", "D"] {
        let mut cube = Cube::new();
        let text = format!("{} {} {} {}", face, face, face, face);
        cube.apply(&Scramble::new(&text));
        assert!(cube.is_solved(), "face {}", face);
    }
}

#[test]
fn single_turn_moves_only_its_face() {
    let mut cube = Cube::new();
    cube.apply(&Scramble::new("U"));
    // U moves the four top edges and corners only: the bottom layer stays.
    let solved = Cube::new();
    for slot in 4..12u32 {
        let mask = 0b11111u64 << (5 * slot);
        assert_eq!(cube.edges() & mask, solved.edges() & mask, "edge slot {}", slot);
    }
    for slot in 4..8u32 {
        let mask = 0b11111u64 << (5 * slot);
        assert_eq!(cube.corners() & mask, solved.corners() & mask, "corner slot {}", slot);
    }
}

#[test]
fn new_with_applies_the_scramble() {
    let scramble = Scramble::new("R U F'");
    let a = Cube::new_with(&scramble);
    let mut b = Cube::new();
    b.apply(&scramble);
    assert_eq!(a, b);
    assert!(!a.is_solved());
}

#[test]
fn new_random_with_size_zero_scrambles() {
    let cube = Cube::new_random(0);
    assert!(!cube.is_solved());
}
