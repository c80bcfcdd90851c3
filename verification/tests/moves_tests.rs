use rustbik_cube::moves::{move_list, MoveAxis, MoveDirection, Scramble, SingleMove, AxisGroup};

#[test]
fn test_move_parsing() {
    let moves = Scramble::new("R U L' D2 B F'");
    assert_eq!(moves.move_list.len(), 6);

    assert_eq!(moves.move_list[0], SingleMove { axis: MoveAxis::R, dir: MoveDirection::Clk });
    assert_eq!(moves.move_list[1], SingleMove { axis: MoveAxis::U, dir: MoveDirection::Clk });
    assert_eq!(moves.move_list[2], SingleMove { axis: MoveAxis::L, dir: MoveDirection::CCw });
    assert_eq!(moves.move_list[3], SingleMove { axis: MoveAxis::D, dir: MoveDirection::Dbl });
    assert_eq!(moves.move_list[4], SingleMove { axis: MoveAxis::B, dir: MoveDirection::Clk });
    assert_eq!(moves.move_list[5], SingleMove { axis: MoveAxis::F, dir: MoveDirection::CCw });
}

#[test]
fn test_empty_parsing() {
    let moves = Scramble::new("");
    assert_eq!(moves.move_list.len(), 0);

    let moves = Scramble::new("   ");
    assert_eq!(moves.move_list.len(), 0);
}

#[test]
fn test_invalid_parsing() {
    let moves = Scramble::new("X Y Z");
    assert_eq!(moves.move_list.len(), 0);
}

#[test]
fn test_single_move_invert() {
    let m1 = SingleMove::new("U").unwrap();
    assert_eq!(m1.invert().dir, MoveDirection::CCw);

    let m2 = SingleMove::new("R'").unwrap();
    assert_eq!(m2.invert().dir, MoveDirection::Clk);

    let m3 = SingleMove::new("F2").unwrap();
    assert_eq!(m3.invert().dir, MoveDirection::Dbl);
}

#[test]
fn test_single_move_combine() {
    let m1 = SingleMove::new("R").unwrap();
    let m2 = SingleMove::new("R").unwrap();
    let combined = SingleMove::combine(m1, m2).unwrap();
    assert_eq!(combined.dir, MoveDirection::Dbl);

    let m3 = SingleMove::new("R2").unwrap();
    let m4 = SingleMove::new("R").unwrap();
    let combined2 = SingleMove::combine(m3, m4).unwrap();
    assert_eq!(combined2.dir, MoveDirection::CCw);
}

#[test]
fn notation_round_trips_for_every_move() {
    for mv in move_list() {
        let text = mv.to_string();
        assert_eq!(SingleMove::new(&text), Some(mv));
    }
}

#[test]
fn move_list_order() {
    let list = move_list();
    assert_eq!(list.len(), 18);
    assert_eq!(list[0].to_string(), "U");
    assert_eq!(list[1].to_string(), "U'");
    assert_eq!(list[2].to_string(), "U2");
    assert_eq!(list[3].to_string(), "F");
    assert_eq!(list[17].to_string(), "D2");
}

#[test]
fn parse_rejects_malformed_moves() {
    assert_eq!(SingleMove::new(""), None);
    assert_eq!(SingleMove::new("X"), None);
    assert_eq!(SingleMove::new("R3"), None);
    // Only the first two characters are read.
    assert_eq!(
        SingleMove::new("R''"),
        Some(SingleMove { axis: MoveAxis::R, dir: MoveDirection::CCw })
    );
    assert_eq!(SingleMove::new("r"), None);
}

#[test]
fn combine_cancels_and_rejects_other_faces() {
    let r = SingleMove::new("R").unwrap();
    let r_inv = SingleMove::new("R'").unwrap();
    let u = SingleMove::new("U").unwrap();
    assert_eq!(SingleMove::combine(r, r_inv), None);
    assert_eq!(SingleMove::combine(r, u), None);
    let u2 = SingleMove::new("U2").unwrap();
    assert_eq!(SingleMove::combine(u2, u2), None);
}

#[test]
fn invert_is_an_involution() {
    for mv in move_list() {
        assert_eq!(mv.invert().invert(), mv);
    }
}

#[test]
fn quarter_turns_and_from_turns() {
    let m = SingleMove::new("B'").unwrap();
    assert_eq!(m.quarter_turns(), 3);
    assert_eq!(SingleMove::from_turns(MoveAxis::B, 3), Some(m));
    assert_eq!(SingleMove::from_turns(MoveAxis::B, 4), None);
    assert_eq!(
        SingleMove::from_turns(MoveAxis::L, 6),
        Some(SingleMove { axis: MoveAxis::L, dir: MoveDirection::Dbl })
    );
}

#[test]
fn groups_pair_opposite_faces() {
    assert_eq!(MoveAxis::U.group(), AxisGroup::UD);
    assert_eq!(MoveAxis::D.group(), AxisGroup::UD);
    assert_eq!(MoveAxis::F.group(), AxisGroup::FB);
    assert_eq!(MoveAxis::B.group(), AxisGroup::FB);
    assert_eq!(MoveAxis::R.group(), AxisGroup::RL);
    assert_eq!(MoveAxis::L.group(), AxisGroup::RL);
}

#[test]
fn scramble_text_and_merging() {
    let s = Scramble::new("R U L' D2 B F'");
    assert_eq!(s.to_str(), "R U L' D2 B F' ");
    assert_eq!(s.len(), 6);
    let merged = Scramble::from_moves(Scramble::new("R R U U' F").move_list);
    assert_eq!(merged.to_str(), "R2 F ");
    let cancelled = Scramble::from_moves(Scramble::new("R U U' R'").move_list);
    assert_eq!(cancelled.len(), 0);
    let skipped = Scramble::new("R  Q  U");
    assert_eq!(skipped.to_str(), "R U ");
    assert_eq!(s.iter().count(), 6);
}

#[test]
fn random_scramble_has_no_redundant_neighbours() {
    let s = Scramble::random(30);
    assert!(s.len() <= 30);
    for w in s.move_list.windows(2) {
        assert_ne!(w[0].axis, w[1].axis);
    }
    for w in s.move_list.windows(3) {
        assert!(!(w[0].axis == w[2].axis && w[1].axis.group() == w[0].axis.group()));
    }
}

#[test]
fn random_scrambles_have_exactly_the_size_asked() {
    for size in [0usize, 1, 2, 7, 25, 40] {
        let s = Scramble::random(size);
        assert_eq!(s.move_list.len(), size);
        for w in s.move_list.windows(2) {
            assert_ne!(w[0].axis, w[1].axis);
        }
        for w in s.move_list.windows(3) {
            assert!(!(w[0].axis == w[2].axis && w[0].axis.group() == w[1].axis.group()));
        }
    }
}

#[test]
fn from_moves_is_clean_and_no_longer() {
    let input = vec![
        SingleMove { axis: MoveAxis::U, dir: MoveDirection::Clk },
        SingleMove { axis: MoveAxis::D, dir: MoveDirection::Clk },
        SingleMove { axis: MoveAxis::U, dir: MoveDirection::CCw },
        SingleMove { axis: MoveAxis::R, dir: MoveDirection::Clk },
        SingleMove { axis: MoveAxis::R, dir: MoveDirection::Clk },
    ];
    let s = Scramble::from_moves(input.clone());
    assert!(s.move_list.len() <= input.len());
    assert_eq!(
        s.move_list,
        vec![
            SingleMove { axis: MoveAxis::D, dir: MoveDirection::Clk },
            SingleMove { axis: MoveAxis::R, dir: MoveDirection::Dbl },
        ]
    );
}

#[test]
fn scramble_text_reads_back() {
    let s = Scramble::new("R U' F2 D B' L2 U");
    let again = Scramble::new(&s.to_str());
    assert_eq!(again.move_list, s.move_list);
    let r = Scramble::random(25);
    assert_eq!(Scramble::new(&r.to_str()).move_list, r.move_list);
}

#[test]
fn from_turns_counts_negative_turns_backwards() {
    assert_eq!(
        SingleMove::from_turns(MoveAxis::B, -1),
        Some(SingleMove { axis: MoveAxis::B, dir: MoveDirection::CCw })
    );
    assert_eq!(
        SingleMove::from_turns(MoveAxis::R, -2),
        Some(SingleMove { axis: MoveAxis::R, dir: MoveDirection::Dbl })
    );
    assert_eq!(
        SingleMove::from_turns(MoveAxis::U, -3),
        Some(SingleMove { axis: MoveAxis::U, dir: MoveDirection::Clk })
    );
    assert_eq!(SingleMove::from_turns(MoveAxis::D, -4), None);
    assert_eq!(SingleMove::from_turns(MoveAxis::D, -128), None);
}
