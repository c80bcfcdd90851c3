use rustbik_cube::coords::KociembaCube;
use rustbik_cube::moves::move_list;
use rustbik_cube::tables::{gen_g1_tables, gen_g2_tables};
use rustbik_cube::search::g1_move;
use rustbik_cube::phase_two::G2Solver;

#[test]
fn phase_one_move_tables_and_single_class_search() {
    let co_sym_map: Vec<u16> = (0..2187u16).flat_map(|co| std::iter::repeat(co).take(16)).collect();
    let eo_uds_sym_move: Vec<u32> = vec![0; 18];
    let t = gen_g1_tables(&co_sym_map, &eo_uds_sym_move);
    assert_eq!(t.eo_move.len(), 2048 * 18);
    assert_eq!(t.co_move.len(), 2187 * 18);
    assert_eq!(t.uds_move.len(), 495 * 18);
    let moves = move_list();
    for (v, m) in [(0u16, 0usize), (5, 3), (2047, 17), (1000, 10)] {
        let mut c = KociembaCube::from_eo(v);
        c.0.turn(&moves[m]);
        assert_eq!(t.eo_move[v as usize * 18 + m], c.get_eo_coord());
    }
    for (v, m) in [(0u16, 6usize), (2186, 4), (1234, 12)] {
        let mut c = KociembaCube::from_co(v);
        c.0.turn(&moves[m]);
        assert_eq!(t.co_move[v as usize * 18 + m], c.get_co_coord());
    }
    for (v, m) in [(0u16, 6usize), (494, 1), (77, 13)] {
        let mut c = KociembaCube::from_uds_ori(v);
        c.0.turn(&moves[m]);
        assert_eq!(t.uds_move[v as usize * 18 + m], c.get_uds_coord());
    }
    // One class: the search runs over corner orientations alone.
    assert_eq!(t.eo_co_uds_table.len(), 2187);
    assert_eq!(t.eo_co_uds_table[0], 0);
    assert!(t.eo_co_uds_table.iter().all(|&d| d < 255));
    let after_r = t.co_move[6] as usize;
    assert_eq!(t.eo_co_uds_table[after_r], 1);
    // U turns keep corner orientation: U leads back to 0.
    assert_eq!(t.co_move[0], 0);
}

#[test]
fn phase_two_tables_follow_the_cube() {
    let t = gen_g2_tables();
    assert_eq!(t.cp_uds_table[0], 0);
    assert_eq!(t.ep_table[0], 0);
    assert_eq!(t.cp_uds_table.iter().filter(|&&d| d == 0).count(), 1);
    assert_eq!(t.ep_table.iter().filter(|&&d| d == 0).count(), 1);
    let mut c = KociembaCube::new();
    for m in [4usize, 0, 8, 3, 6, 2, 9, 5] {
        let (cp, enu, eu) = (
            c.get_cp_coord() as usize,
            c.get_ep_no_uds_coord() as usize,
            c.get_ep_uds_coord() as usize,
        );
        c.0.turn(&g1_move(m));
        assert_eq!(t.cp_move[cp * 10 + m], c.get_cp_coord());
        assert_eq!(t.ep_no_uds_move[enu * 10 + m], c.get_ep_no_uds_coord());
        assert_eq!(t.ep_uds_move[eu * 10 + m], c.get_ep_uds_coord());
    }
    // One half turn of R from the solved cube: one move away in both tables.
    let mut r2 = KociembaCube::new();
    r2.0.turn(&g1_move(4));
    let eu = r2.get_ep_uds_coord() as usize;
    assert_eq!(t.cp_uds_table[eu * 40320 + r2.get_cp_coord() as usize], 1);
    assert_eq!(t.ep_table[eu * 40320 + r2.get_ep_no_uds_coord() as usize], 1);
}

#[test]
fn phase_two_search_finds_a_short_solution_with_generated_tables() {
    let t = gen_g2_tables();
    let mut c = KociembaCube::new();
    for m in [0usize, 4, 8, 3, 6] {
        c.0.turn(&g1_move(m));
    }
    let cube = c.0;
    // Five moves scrambled it, so a search bounded by five moves finds a solution.
    let moves = G2Solver::solve(&cube, 5, &t).unwrap();
    assert!(moves.len() <= 5);
    let mut done = cube;
    for mv in &moves {
        done.turn(mv);
    }
    let k = KociembaCube(done);
    assert_eq!((k.get_cp_coord(), k.get_ep_no_uds_coord(), k.get_ep_uds_coord()), (0, 0, 0));
    assert!(done.is_solved());
    // No bound below the estimate of the start can succeed.
    assert_eq!(G2Solver::solve(&cube, 0, &t), None);
    // The solved cube is the only one rated 0: it needs no move, a cube one half turn
    // away needs exactly one.
    assert_eq!(G2Solver::solve(&rustbik_cube::cube::Cube::new(), 18, &t), Some(vec![]));
    let mut r2 = rustbik_cube::cube::Cube::new();
    r2.turn(&g1_move(4));
    assert_eq!(G2Solver::solve(&r2, 18, &t), Some(vec![g1_move(4)]));
}
