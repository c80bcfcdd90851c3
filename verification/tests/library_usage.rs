use rustbik_cube::cube::Cube;
use rustbik_cube::moves::Scramble;

#[test]
fn test_scramble_and_is_solved() {
    let mut cube = Cube::new();
    let scramble1 = "U R2 F B R B2 L U2 L' B2 R2 U2 D' B2 L2 F2 D' L2 U' B2";
    let moves1 = Scramble::new(scramble1);
    cube.apply(&moves1);
    assert!(!cube.is_solved(), "The cube should not be solved after a scramble");

    let scramble2 = "B2 U L2 D F2 L2 B2 D U2 R2 B2 L U2 L' B2 R' B' F' R2 U'";
    let moves2 = Scramble::new(scramble2);
    cube.apply(&moves2);
    assert!(cube.is_solved(), "The cube should be solved after reversing the scramble");
}

#[test]
fn test_standard_algorithms() {
    let mut cube = Cube::new();
    let t_perm = "R U R' U' R' F R2 U' R' U' R U R' F'";
    cube.apply(&Scramble::new(t_perm));
    assert!(!cube.is_solved());
    cube.apply(&Scramble::new(t_perm));
    assert!(cube.is_solved(), "T-Perm applied twice should solve the cube");
}

#[test]
fn test_pll_sequence() {
    let mut cube = Cube::new();
    let t_perm = "R U R' U' R' F R2 U' R' U' R U R' F'";
    let j_perm = "R U R' F' R U R' U' R' F R2 U' R'";
    let a_perm = "R2 U R U R' U' R' U' R' U R'";
    cube.apply(&Scramble::new(t_perm));
    cube.apply(&Scramble::new(j_perm));
    cube.apply(&Scramble::new("U'"));
    cube.apply(&Scramble::new(a_perm));
    assert!(cube.is_solved(), "Cube should be solved after PLL sequence");
}

#[test]
fn test_state_persistence_integration() {
    let mut cube = Cube::new();
    cube.apply(&Scramble::new("R U R' U'"));
    let state = cube.minimal_representation();
    let cube2 = Cube::new_from_minimal(state);
    assert_eq!(cube.net_map(), cube2.net_map());
}

#[test]
fn test_random_scramble_integrity() {
    for _ in 0..100 {
        let cube = Cube::new_random(20);
        let net = cube.net_map();
        assert_eq!(net.len(), 54);
        for color in &['W', 'G', 'R', 'B', 'O', 'Y'] {
            let count = net.chars().filter(|&c| c == *color).count();
            assert_eq!(count, 9, "Color {} count should be 9, found {}", color, count);
        }
    }
}
