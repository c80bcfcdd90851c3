use rustbik_cube::cube::Cube;
use rustbik_cube::moves::{move_list, MoveAxis, MoveDirection, Scramble, SingleMove};
use rustbik_cube::phase_one::{G1Solver, G1Tables};
use rustbik_cube::phase_two::{G2Solver, G2Tables};
use rustbik_cube::solver::{solve, solve_max_moves};
use rustbik_cube::table_bytes::{table_bytes_u16, table_from_bytes_u16, table_from_bytes_u32, table_bytes_u32};

/// Phase-one tables where every move leads to coordinate 0 and only coordinate 0 is
/// rated 0.
fn funnel_g1() -> G1Tables {
    let mut eo_uds = vec![1u8; 1013760];
    eo_uds[0] = 0;
    let mut co_uds = vec![1u8; 1082565];
    co_uds[0] = 0;
    G1Tables::from_parts(vec![0; 36864], vec![0; 39366], vec![0; 8910], eo_uds, co_uds).unwrap()
}

/// Phase-two tables of the same kind.
fn funnel_g2() -> G2Tables {
    let mut cp = vec![1u8; 967680];
    cp[0] = 0;
    let mut ep = vec![1u8; 967680];
    ep[0] = 0;
    G2Tables::from_parts(vec![0; 403200], vec![0; 403200], vec![0; 240], cp, ep).unwrap()
}

fn turned(text: &str) -> Cube {
    let mut cube = Cube::new();
    cube.apply(&Scramble::new(text));
    cube
}

#[test]
fn from_parts_checks_sizes_and_entries() {
    assert!(G2Tables::from_parts(vec![0; 10], vec![0; 403200], vec![0; 240], vec![0; 967680], vec![0; 967680]).is_none());
    assert!(G2Tables::from_parts(vec![40320; 403200], vec![0; 403200], vec![0; 240], vec![0; 967680], vec![0; 967680]).is_none());
    assert!(G2Tables::from_parts(vec![0; 403200], vec![0; 403200], vec![23; 240], vec![0; 967680], vec![0; 967680]).is_some());
    assert!(G1Tables::from_parts(vec![2048; 36864], vec![0; 39366], vec![0; 8910], vec![0; 1013760], vec![0; 1082565]).is_none());
    assert!(G1Tables::from_parts(vec![2047; 36864], vec![2186; 39366], vec![494; 8910], vec![0; 1013760], vec![0; 1082565]).is_some());
}

#[test]
fn table_bytes_round_trip() {
    let entries: Vec<u16> = vec![1, 2, 515, 40319];
    let bytes = table_bytes_u16(&entries);
    assert_eq!(bytes.len(), 8);
    assert_eq!(table_from_bytes_u16(&bytes), Some(entries));
    assert_eq!(table_from_bytes_u16(&[1, 2, 3]), None);
    let big: Vec<u32> = vec![7, 70000];
    let bytes32 = table_bytes_u32(&big);
    assert_eq!(bytes32.len(), 8);
    assert_eq!(table_from_bytes_u32(&bytes32), Some(big));
    assert_eq!(table_from_bytes_u32(&[0, 0]), None);
}

#[test]
fn tables_from_bytes() {
    let g2 = funnel_g2();
    let cp = table_bytes_u16(&g2.cp_move);
    let ep = table_bytes_u16(&g2.ep_no_uds_move);
    let eu = table_bytes_u16(&g2.ep_uds_move);
    let read = G2Tables::from_bytes(&cp, &ep, &eu, g2.cp_uds_table.clone(), g2.ep_table.clone()).unwrap();
    assert_eq!(read.cp_move, g2.cp_move);
    assert_eq!(read.ep_uds_move, g2.ep_uds_move);
    assert!(G2Tables::from_bytes(&cp[1..], &ep, &eu, g2.cp_uds_table.clone(), g2.ep_table.clone()).is_none());
    let g1 = funnel_g1();
    let eo = table_bytes_u16(&g1.eo_move);
    let co = table_bytes_u16(&g1.co_move);
    let ud = table_bytes_u16(&g1.uds_move);
    let read1 = G1Tables::from_bytes(&eo, &co, &ud, g1.eo_uds_table.clone(), g1.co_uds_table.clone()).unwrap();
    assert_eq!(read1.co_move, g1.co_move);
}

#[test]
fn phase_two_takes_the_first_move_to_a_goal() {
    let g2 = funnel_g2();
    // The solved cube is a goal already.
    assert_eq!(G2Solver::solve(&Cube::new(), 18, &g2), Some(vec![]));
    // One move away: the first phase-two move (U) leads to coordinate 0.
    let cube = turned("R2");
    assert_eq!(
        G2Solver::solve(&cube, 18, &g2),
        Some(vec![SingleMove { axis: MoveAxis::U, dir: MoveDirection::Clk }])
    );
    // With no moves allowed there is no solution.
    assert_eq!(G2Solver::solve(&cube, 0, &g2), None);
}

#[test]
fn phase_one_iterates_all_solutions_of_a_depth() {
    let g1 = funnel_g1();
    let cube = turned("R");
    let mut solver = G1Solver::new(&cube, 0, &g1);
    assert_eq!(solver.next(), None);
    solver.reset(1);
    let mut found = Vec::new();
    while let Some(path) = solver.next() {
        found.push(path);
    }
    assert_eq!(found.len(), 18);
    for (i, path) in found.iter().enumerate() {
        assert_eq!(path, &vec![i]);
    }
    assert_eq!(solver.next(), None);
}

#[test]
fn phase_one_solve_takes_the_last_solution() {
    let g1 = funnel_g1();
    let cube = turned("R");
    assert_eq!(G1Solver::solve(&cube, &g1), Some(vec![move_list()[17]]));
    assert_eq!(G1Solver::solve(&Cube::new(), &g1), Some(vec![]));
}

#[test]
fn two_phase_solution_joins_both_phases() {
    let g1 = funnel_g1();
    let g2 = funnel_g2();
    let cube = turned("R");
    let sol = solve(&cube, &g1, &g2).unwrap();
    assert_eq!(
        sol,
        vec![
            SingleMove { axis: MoveAxis::D, dir: MoveDirection::Dbl },
            SingleMove { axis: MoveAxis::U, dir: MoveDirection::Clk },
        ]
    );
}

#[test]
fn bounded_solution_respects_the_bound() {
    let g1 = funnel_g1();
    let g2 = funnel_g2();
    let cube = turned("R");
    // Within one move, only the phase-one path R' leaves phase two nothing to do.
    assert_eq!(
        solve_max_moves(&cube, 1, &g1, &g2),
        Some(vec![SingleMove { axis: MoveAxis::R, dir: MoveDirection::CCw }])
    );
    // Within two moves, the first phase-one path (U) is finished by one more U.
    let sol = solve_max_moves(&cube, 2, &g1, &g2).unwrap();
    assert_eq!(sol, vec![move_list()[0], move_list()[0]]);
    assert_eq!(solve_max_moves(&Cube::new(), 0, &g1, &g2), Some(vec![]));
}

#[test]
fn bounded_solution_fails_only_without_room() {
    let g1 = funnel_g1();
    let g2 = funnel_g2();
    // Phase one needs one move, so nothing fits in zero moves.
    assert_eq!(solve_max_moves(&turned("R"), 0, &g1, &g2), None);
    // A cube already in the phase-one goal but one phase-two move away: phase one's
    // empty solution leaves phase two nothing within zero moves.
    assert_eq!(solve_max_moves(&turned("R2"), 0, &g1, &g2), None);
    assert_eq!(
        solve_max_moves(&turned("R2"), 1, &g1, &g2),
        Some(vec![SingleMove { axis: MoveAxis::U, dir: MoveDirection::Clk }])
    );
}

#[test]
fn table_bytes_hold_each_entry_in_one_byte_order() {
    let bytes = table_bytes_u16(&vec![0x0102, 0x0a0b]);
    assert!(bytes == vec![2, 1, 0x0b, 0x0a] || bytes == vec![1, 2, 0x0a, 0x0b]);
    let bytes32 = table_bytes_u32(&vec![0x01020304]);
    assert!(bytes32 == vec![4, 3, 2, 1] || bytes32 == vec![1, 2, 3, 4]);
}
