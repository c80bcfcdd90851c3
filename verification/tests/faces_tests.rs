use rustbik_cube::cube::Cube;
use rustbik_cube::moves::Scramble;

#[test]
fn solved_net_has_one_colour_per_face() {
    let cube = Cube::new();
    let expected = format!(
        "{}{}{}{}{}{}",
        "W".repeat(9),
        "O".repeat(9),
        "G".repeat(9),
        "R".repeat(9),
        "B".repeat(9),
        "Y".repeat(9)
    );
    assert_eq!(cube.net_map(), expected);
}

#[test]
fn each_colour_shows_nine_times_after_moves() {
    let mut cube = Cube::new();
    cube.apply(&Scramble::new("R U F' L2 D B' U2"));
    let net = cube.net_map();
    assert_eq!(net.chars().count(), 54);
    for color in ['W', 'G', 'R', 'B', 'O', 'Y'] {
        assert_eq!(net.chars().filter(|&c| c == color).count(), 9);
    }
    // Centres never move.
    let chars: Vec<char> = net.chars().collect();
    assert_eq!(chars[4], 'W');
    assert_eq!(chars[13], 'O');
    assert_eq!(chars[22], 'G');
    assert_eq!(chars[31], 'R');
    assert_eq!(chars[40], 'B');
    assert_eq!(chars[49], 'Y');
}

#[test]
fn format_sticker_wraps_the_letter_in_its_colour() {
    let cube = Cube::new();
    assert_eq!(cube.format_sticker('W'), "\x1b[48;2;255;255;255;38;2;0;0;0m W \x1b[0m");
    assert_eq!(cube.format_sticker('G'), "\x1b[48;2;0;155;72;38;2;255;255;255m G \x1b[0m");
    assert_eq!(cube.format_sticker('Y'), "\x1b[48;2;255;213;0;38;2;0;0;0m Y \x1b[0m");
}

#[test]
fn format_sticker_leaves_other_characters_uncoloured() {
    let cube = Cube::new();
    assert_eq!(cube.format_sticker('X'), "\x1b[0m X \x1b[0m");
    assert_eq!(cube.format_sticker(' '), "\x1b[0m   \x1b[0m");
}

#[test]
fn display_layout_of_the_solved_cube() {
    let cube = Cube::new();
    let text = cube.to_display();
    let lines: Vec<&str> = text.lines().collect();
    assert_eq!(lines.len(), 9);
    let w = cube.format_sticker('W');
    assert_eq!(lines[0], format!("         {}{}{}", w, w, w));
    let o = cube.format_sticker('O');
    let g = cube.format_sticker('G');
    let r = cube.format_sticker('R');
    let b = cube.format_sticker('B');
    assert_eq!(
        lines[3],
        format!("{o}{o}{o}{g}{g}{g}{r}{r}{r}{b}{b}{b}", o = o, g = g, r = r, b = b)
    );
    let y = cube.format_sticker('Y');
    assert_eq!(lines[8], format!("         {}{}{}", y, y, y));
    assert!(text.ends_with('\n'));
}
