use rustbik_cube::coords::KociembaCube;
use rustbik_cube::cube::Cube;
use rustbik_cube::moves::{Scramble, SingleMove};

#[test]
fn test_kociemba_api_integration() {
    let cube = KociembaCube(Cube::new());
    assert_eq!(cube.get_eo_coord(), 0);
}

#[test]
fn test_coordinates_solved_state() {
    let cube = KociembaCube::new();
    assert_eq!(cube.get_eo_coord(), 0);
    assert_eq!(cube.get_ep_coord(), 0);
    assert_eq!(cube.get_ep_no_uds_coord(), 0);
    assert_eq!(cube.get_ep_uds_coord(), 0);
    assert_eq!(cube.get_uds_coord(), 0);
    assert_eq!(cube.get_co_coord(), 0);
    assert_eq!(cube.get_cp_coord(), 0);
}

#[test]
fn test_coordinates_after_move() {
    let mut cube = KociembaCube::new();
    cube.0.turn(&SingleMove::new("R").unwrap());
    assert_eq!(cube.get_eo_coord(), 0);
    assert!(cube.get_co_coord() != 0);
}

#[test]
fn test_from_eo_roundtrip() {
    for eo in 0..2048 {
        let cube = KociembaCube::from_eo(eo);
        assert_eq!(cube.get_eo_coord(), eo, "Failed roundtrip for EO coordinate: {}", eo);
    }
}

#[test]
fn test_from_co_roundtrip() {
    for co in 0..2187 {
        let cube = KociembaCube::from_co(co);
        assert_eq!(cube.get_co_coord(), co, "Failed roundtrip for CO coordinate: {}", co);
    }
}

#[test]
fn test_from_uds_roundtrip() {
    for uds in 0..495 {
        let cube = KociembaCube::from_uds_ori(uds);
        assert_eq!(cube.get_uds_coord(), uds, "Failed roundtrip for UDS coordinate: {}", uds);
    }
}

#[test]
fn test_from_eo_uds_roundtrip() {
    for eo in 0..2048 {
        for uds in 0..495 {
            let cube = KociembaCube::from_eo_uds(eo, uds);
            assert_eq!(
                cube.get_eo_coord(),
                eo,
                "Failed roundtrip EO in eo_uds: eo={}, uds={}",
                eo,
                uds
            );
            assert_eq!(
                cube.get_uds_coord(),
                uds,
                "Failed roundtrip UDS in eo_uds: eo={}, uds={}",
                eo,
                uds
            );
        }
    }
}

#[test]
fn test_from_cp_roundtrip() {
    for cp in 0..40320 {
        let cube = KociembaCube::from_cp(cp);
        assert_eq!(cube.get_cp_coord(), cp, "Failed roundtrip for CP coordinate: {}", cp);
    }
}

#[test]
fn test_from_ep_no_uds_roundtrip() {
    for ep in 0..40320 {
        let cube = KociembaCube::from_ep_no_uds(ep as u16);
        assert_eq!(
            cube.get_ep_no_uds_coord(),
            ep as u16,
            "Failed roundtrip for EP_NO_UDS coordinate: {}",
            ep
        );
    }
}

#[test]
fn test_from_ep12_roundtrip() {
    for ep in (0..479001600).step_by(1003) {
        let cube = KociembaCube::from_ep12(ep);
        assert_eq!(cube.get_ep_coord(), ep, "Failed roundtrip for EP coordinate: {}", ep);
    }
}

#[test]
fn test_from_uds_perm_roundtrip() {
    for uds_perm in 0..24 {
        let cube = KociembaCube::from_uds_perm(uds_perm);
        assert_eq!(
            cube.get_ep_uds_coord(),
            uds_perm,
            "Failed roundtrip for UDS perm coordinate: {}",
            uds_perm
        );
    }
}

#[test]
fn coordinates_of_a_known_cube() {
    // F flips four edges: slots 1, 8, 5, 9 hold flipped edges.
    let mut cube = KociembaCube::new();
    cube.0.apply(&Scramble::new("F"));
    let eo = cube.get_eo_coord();
    assert_eq!(eo, (1 << 1) | (1 << 5) | (1 << 8) | (1 << 9));
    // The largest permutation coordinates come from reversed orders.
    assert_eq!(KociembaCube::from_cp(40319).get_cp_coord(), 40319);
    assert_eq!(KociembaCube::from_ep12(479001599).get_ep_coord(), 479001599);
}

#[test]
fn from_co_keeps_twist_total_multiple_of_three() {
    for co in [1u16, 2, 5, 100, 2186] {
        let cube = KociembaCube::from_co(co);
        let mut total = 0u64;
        for i in 0..8 {
            let ori = (cube.0.corners() >> (5 * i + 3)) & 0b11;
            let swapped = i == 1 || i == 3 || i == 4 || i == 6;
            total += if swapped && ori != 0 { 3 - ori } else { ori };
        }
        assert_eq!(total % 3, 0, "co {}", co);
    }
}

#[test]
fn rotations_cycle() {
    let scrambled = KociembaCube::new_with(&Scramble::new("R U F' L2 D B"));
    let mut x = scrambled;
    let mut y = scrambled;
    let mut z = scrambled;
    for _ in 0..4 {
        x = x.rotate_x();
        y = y.rotate_y();
        z = z.rotate_z();
    }
    assert_eq!(x.0, scrambled.0);
    assert_eq!(y.0, scrambled.0);
    assert_eq!(z.0, scrambled.0);
    let r = scrambled.reflection().reflection();
    assert_eq!(r.0, scrambled.0);
}

#[test]
fn rotations_keep_the_solved_cube() {
    let solved = KociembaCube::new();
    assert!(solved.rotate_x().0.is_solved());
    assert!(solved.rotate_y().0.is_solved());
    assert!(solved.rotate_z().0.is_solved());
    assert!(solved.reflection().0.is_solved());
    for i in 0..32u8 {
        assert!(solved.apply_uds_symmetry(i).0.is_solved());
    }
}

#[test]
fn symmetry_numbers_wrap_at_sixteen() {
    let cube = KociembaCube::new_with(&Scramble::new("R U2 F'"));
    for i in 0..16u8 {
        assert_eq!(cube.apply_uds_symmetry(i).0, cube.apply_uds_symmetry(i + 16).0);
    }
    assert_eq!(cube.apply_uds_symmetry(0).0, cube.0);
    assert_eq!(cube.apply_uds_symmetry(1).0, cube.rotate_y().0);
    assert_eq!(cube.apply_uds_symmetry(5).0, cube.rotate_x().rotate_x().rotate_y().0);
    assert_eq!(cube.apply_uds_symmetry(14).0, cube.rotate_z().rotate_z().reflection().0);
}

#[test]
fn symmetries_keep_slice_edges_in_the_slice() {
    let cube = KociembaCube::from_eo_uds(5, 0);
    for i in 0..16u8 {
        let s = cube.apply_uds_symmetry(i);
        assert_eq!(s.get_uds_coord(), 0, "symmetry {}", i);
    }
}

#[test]
fn minimal_form_through_kociemba_cube() {
    let cube = KociembaCube::new_random(12);
    let back = KociembaCube::new_from_minimal(cube.0.minimal_representation());
    assert_eq!(back.0, cube.0);
}
