//! Move notation: faces, directions, single moves and move sequences.

use vstd::prelude::*;
use vstd::std_specs::iter::IteratorSpec;

verus! {

/// The three pairs of opposite faces.
#[derive(Debug, Clone, Copy, PartialEq, Eq, Structural)]
pub enum AxisGroup {
    UD,
    FB,
    RL,
}

/// The face a move turns.
#[derive(Debug, Clone, Copy, PartialEq, Eq, Structural)]
pub enum MoveAxis {
    U,
    F,
    R,
    B,
    L,
    D,
}

/// How far a move turns its face.
#[derive(Debug, Clone, Copy, PartialEq, Eq, Structural)]
pub enum MoveDirection {
    Clk,
    CCw,
    Dbl,
}

/// A single face turn.
#[derive(Debug, Clone, Copy, PartialEq, Eq, Structural)]
pub struct SingleMove {
    pub axis: MoveAxis,
    pub dir: MoveDirection,
}

pub open spec fn spec_group(axis: MoveAxis) -> AxisGroup {
    match axis {
        MoveAxis::U | MoveAxis::D => AxisGroup::UD,
        MoveAxis::F | MoveAxis::B => AxisGroup::FB,
        MoveAxis::R | MoveAxis::L => AxisGroup::RL,
    }
}

impl MoveAxis {
    /// The pair of opposite faces this face belongs to.
    pub fn group(&self) -> (g: AxisGroup)
        ensures
            g == spec_group(*self),
    {
        match self {
            MoveAxis::U | MoveAxis::D => AxisGroup::UD,
            MoveAxis::F | MoveAxis::B => AxisGroup::FB,
            MoveAxis::R | MoveAxis::L => AxisGroup::RL,
        }
    }
}

/// Position of a face in the standard move order U, F, R, B, L, D.
pub open spec fn axis_index(axis: MoveAxis) -> int {
    match axis {
        MoveAxis::U => 0,
        MoveAxis::F => 1,
        MoveAxis::R => 2,
        MoveAxis::B => 3,
        MoveAxis::L => 4,
        MoveAxis::D => 5,
    }
}

/// Position of a direction in the order clockwise, counter-clockwise, double.
pub open spec fn dir_index(dir: MoveDirection) -> int {
    match dir {
        MoveDirection::Clk => 0,
        MoveDirection::CCw => 1,
        MoveDirection::Dbl => 2,
    }
}

pub open spec fn axis_at(i: int) -> MoveAxis {
    if i == 0 {
        MoveAxis::U
    } else if i == 1 {
        MoveAxis::F
    } else if i == 2 {
        MoveAxis::R
    } else if i == 3 {
        MoveAxis::B
    } else if i == 4 {
        MoveAxis::L
    } else {
        MoveAxis::D
    }
}

pub open spec fn dir_at(i: int) -> MoveDirection {
    if i == 0 {
        MoveDirection::Clk
    } else if i == 1 {
        MoveDirection::CCw
    } else {
        MoveDirection::Dbl
    }
}

/// Move number `i` (0..18) of the standard list: face `i / 3`, direction `i % 3`.
pub open spec fn spec_move_at(i: int) -> SingleMove {
    SingleMove { axis: axis_at(i / 3), dir: dir_at(i % 3) }
}

/// The index of a move in the standard list.
pub open spec fn move_index(mv: SingleMove) -> int {
    axis_index(mv.axis) * 3 + dir_index(mv.dir)
}

/// The number of clockwise quarter turns a direction stands for.
pub open spec fn spec_quarters(dir: MoveDirection) -> int {
    match dir {
        MoveDirection::Clk => 1,
        MoveDirection::Dbl => 2,
        MoveDirection::CCw => 3,
    }
}

pub open spec fn spec_invert(mv: SingleMove) -> SingleMove {
    SingleMove {
        axis: mv.axis,
        dir: match mv.dir {
            MoveDirection::Clk => MoveDirection::CCw,
            MoveDirection::CCw => MoveDirection::Clk,
            MoveDirection::Dbl => MoveDirection::Dbl,
        },
    }
}

/// The move that turns `axis` by `turns` quarter turns, if that is not a full turn.
pub open spec fn spec_from_turns(axis: MoveAxis, turns: int) -> Option<SingleMove> {
    let r = turns % 4;
    if r == 1 {
        Some(SingleMove { axis, dir: MoveDirection::Clk })
    } else if r == 2 {
        Some(SingleMove { axis, dir: MoveDirection::Dbl })
    } else if r == 3 {
        Some(SingleMove { axis, dir: MoveDirection::CCw })
    } else {
        None
    }
}

pub open spec fn spec_combine(a: SingleMove, b: SingleMove) -> Option<SingleMove> {
    if a.axis != b.axis {
        None
    } else {
        spec_from_turns(a.axis, spec_quarters(a.dir) + spec_quarters(b.dir))
    }
}

pub open spec fn axis_char(axis: MoveAxis) -> char {
    match axis {
        MoveAxis::U => 'U',
        MoveAxis::F => 'F',
        MoveAxis::R => 'R',
        MoveAxis::B => 'B',
        MoveAxis::L => 'L',
        MoveAxis::D => 'D',
    }
}

pub open spec fn axis_of_char(c: char) -> Option<MoveAxis> {
    if c == 'U' {
        Some(MoveAxis::U)
    } else if c == 'F' {
        Some(MoveAxis::F)
    } else if c == 'R' {
        Some(MoveAxis::R)
    } else if c == 'B' {
        Some(MoveAxis::B)
    } else if c == 'L' {
        Some(MoveAxis::L)
    } else if c == 'D' {
        Some(MoveAxis::D)
    } else {
        None
    }
}

/// The suffix that writes a direction: nothing, `'` or `2`.
pub open spec fn dir_suffix(dir: MoveDirection) -> Seq<char> {
    match dir {
        MoveDirection::Clk => seq![],
        MoveDirection::CCw => seq!['\''],
        MoveDirection::Dbl => seq!['2'],
    }
}

/// Standard notation of a move, such as `R`, `U'` or `F2`.
pub open spec fn notation(mv: SingleMove) -> Seq<char> {
    seq![axis_char(mv.axis)] + dir_suffix(mv.dir)
}

/// What the move parser makes of a word: a face letter, then nothing, `'` or `2`;
/// whatever follows the second character is not looked at.
pub open spec fn parse_move(s: Seq<char>) -> Option<SingleMove> {
    if s.len() == 0 {
        None
    } else {
        match axis_of_char(s[0]) {
            None => None,
            Some(axis) => if s.len() == 1 {
                Some(SingleMove { axis, dir: MoveDirection::Clk })
            } else if s[1] == '\'' {
                Some(SingleMove { axis, dir: MoveDirection::CCw })
            } else if s[1] == '2' {
                Some(SingleMove { axis, dir: MoveDirection::Dbl })
            } else {
                None
            },
        }
    }
}

/// Reading a move's notation gives the move back.
pub proof fn lemma_parse_notation(mv: SingleMove)
    ensures
        parse_move(notation(mv)) == Some(mv),
{
}

/// Inverting a move twice gives the move back.
pub proof fn lemma_invert_involution(mv: SingleMove)
    ensures
        spec_invert(spec_invert(mv)) == mv,
{
}

/// A move and its inverse together make a whole number of full turns.
pub proof fn lemma_invert_quarters(mv: SingleMove)
    ensures
        (spec_quarters(mv.dir) + spec_quarters(spec_invert(mv).dir)) % 4 == 0,
{
}

/// Parses the move written in `chars[start..end]`.
pub fn parse_move_chars(chars: &Vec<char>, start: usize, end: usize) -> (r: Option<SingleMove>)
    requires
        start <= end <= chars@.len(),
    ensures
        r == parse_move(chars@.subrange(start as int, end as int)),
{
    if start == end {
        return None;
    }
    let c0 = chars[start];
    let axis = if c0 == 'U' {
        MoveAxis::U
    } else if c0 == 'F' {
        MoveAxis::F
    } else if c0 == 'R' {
        MoveAxis::R
    } else if c0 == 'B' {
        MoveAxis::B
    } else if c0 == 'L' {
        MoveAxis::L
    } else if c0 == 'D' {
        MoveAxis::D
    } else {
        return None;
    };
    if end - start == 1 {
        return Some(SingleMove { axis, dir: MoveDirection::Clk });
    }
    let c1 = chars[start + 1];
    if c1 == '\'' {
        Some(SingleMove { axis, dir: MoveDirection::CCw })
    } else if c1 == '2' {
        Some(SingleMove { axis, dir: MoveDirection::Dbl })
    } else {
        None
    }
}

/// The characters of a string.
pub fn str_chars(s: &str) -> (v: Vec<char>)
    ensures
        v@ == s@,
{
    let n = s.unicode_len();
    let mut v: Vec<char> = Vec::new();
    let mut i: usize = 0;
    while i < n
        invariant
            n == s@.len(),
            i <= n,
            v@ == s@.subrange(0, i as int),
        decreases n - i,
    {
        v.push(s.get_char(i));
        i = i + 1;
    }
    assert(v@ =~= s@);
    v
}

impl SingleMove {
    /// Parses a move written as `U`, `R'`, `F2` and so on.
    pub fn new(move_str: &str) -> (r: Option<SingleMove>)
        ensures
            r == parse_move(move_str@),
    {
        let chars = str_chars(move_str);
        proof {
            assert(chars@.subrange(0, chars@.len() as int) =~= chars@);
        }
        parse_move_chars(&chars, 0, chars.len())
    }

    /// The move that undoes this one.
    pub fn invert(&self) -> (r: SingleMove)
        ensures
            r == spec_invert(*self),
    {
        let new_dir = match self.dir {
            MoveDirection::Clk => MoveDirection::CCw,
            MoveDirection::CCw => MoveDirection::Clk,
            MoveDirection::Dbl => MoveDirection::Dbl,
        };
        SingleMove { axis: self.axis, dir: new_dir }
    }

    /// The number of clockwise quarter turns (1 to 3).
    pub fn quarter_turns(&self) -> (q: i8)
        ensures
            q == spec_quarters(self.dir),
    {
        match self.dir {
            MoveDirection::Clk => 1,
            MoveDirection::Dbl => 2,
            MoveDirection::CCw => 3,
        }
    }

    /// The move of `turns` quarter turns on `axis` (clockwise for positive counts,
    /// counter-clockwise for negative ones); `None` for a whole number of full turns.
    pub fn from_turns(axis: MoveAxis, turns: i8) -> (r: Option<SingleMove>)
        ensures
            r == spec_from_turns(axis, turns as int),
    {
        let shifted: u16 = (turns as i16 + 128) as u16;
        let r = shifted % 4;
        proof {
            assert(shifted as int == turns as int + 128);
            assert((turns as int + 128) % 4 == (turns as int) % 4) by (nonlinear_arith);
        }
        if r == 0 {
            None
        } else if r == 1 {
            Some(SingleMove { axis, dir: MoveDirection::Clk })
        } else if r == 2 {
            Some(SingleMove { axis, dir: MoveDirection::Dbl })
        } else {
            Some(SingleMove { axis, dir: MoveDirection::CCw })
        }
    }

    /// Merges two moves of the same face into one (R + R = R2); `None` when the faces
    /// differ or the two cancel out.
    pub fn combine(a: SingleMove, b: SingleMove) -> (r: Option<SingleMove>)
        ensures
            r == spec_combine(a, b),
    {
        if a.axis != b.axis {
            return None;
        }
        let total = a.quarter_turns() + b.quarter_turns();
        Self::from_turns(a.axis, total)
    }

    /// Standard notation of the move.
    pub fn to_string(&self) -> (s: String)
        ensures
            s@ == notation(*self),
    {
        let mut s = String::from_str(axis_str(self.axis));
        s.append(dir_str(self.dir));
        proof {
            assert(s@ =~= notation(*self));
        }
        s
    }
}

/// The letter of a face, as a string.
pub fn axis_str(axis: MoveAxis) -> (s: &'static str)
    ensures
        s@ == seq![axis_char(axis)],
{
    match axis {
        MoveAxis::U => {
            proof {
                reveal_strlit("U");
            }
            "U"
        },
        MoveAxis::F => {
            proof {
                reveal_strlit("F");
            }
            "F"
        },
        MoveAxis::R => {
            proof {
                reveal_strlit("R");
            }
            "R"
        },
        MoveAxis::B => {
            proof {
                reveal_strlit("B");
            }
            "B"
        },
        MoveAxis::L => {
            proof {
                reveal_strlit("L");
            }
            "L"
        },
        MoveAxis::D => {
            proof {
                reveal_strlit("D");
            }
            "D"
        },
    }
}

/// The suffix of a direction, as a string.
pub fn dir_str(dir: MoveDirection) -> (s: &'static str)
    ensures
        s@ == dir_suffix(dir),
{
    match dir {
        MoveDirection::Clk => {
            proof {
                reveal_strlit("");
            }
            ""
        },
        MoveDirection::CCw => {
            proof {
                reveal_strlit("'");
            }
            "'"
        },
        MoveDirection::Dbl => {
            proof {
                reveal_strlit("2");
            }
            "2"
        },
    }
}

/// Move number `i` of the standard list of all eighteen moves
/// (U, U', U2, F, F', F2, R, ..., D2).
pub fn move_at(i: usize) -> (mv: SingleMove)
    requires
        i < 18,
    ensures
        mv == spec_move_at(i as int),
        move_index(mv) == i,
{
    let axis = if i < 3 {
        MoveAxis::U
    } else if i < 6 {
        MoveAxis::F
    } else if i < 9 {
        MoveAxis::R
    } else if i < 12 {
        MoveAxis::B
    } else if i < 15 {
        MoveAxis::L
    } else {
        MoveAxis::D
    };
    let r = i % 3;
    let dir = if r == 0 {
        MoveDirection::Clk
    } else if r == 1 {
        MoveDirection::CCw
    } else {
        MoveDirection::Dbl
    };
    SingleMove { axis, dir }
}

/// The standard list of all eighteen moves, face by face in the order U, F, R, B, L, D,
/// each clockwise, counter-clockwise, then double.
pub fn move_list() -> (v: Vec<SingleMove>)
    ensures
        v@.len() == 18,
        forall|i: int| 0 <= i < 18 ==> #[trigger] v@[i] == spec_move_at(i),
{
    let mut v: Vec<SingleMove> = Vec::new();
    let mut i: usize = 0;
    while i < 18
        invariant
            i <= 18,
            v@.len() == i,
            forall|j: int| 0 <= j < i ==> #[trigger] v@[j] == spec_move_at(j),
        decreases 18 - i,
    {
        v.push(move_at(i));
        i = i + 1;
    }
    v
}

} // verus!

verus! {

/// Unicode white space, the separators between the words of a scramble.
pub open spec fn is_white_space(c: char) -> bool {
    ||| ('\u{9}' <= c && c <= '\u{d}')
    ||| c == ' '
    ||| c == '\u{85}'
    ||| c == '\u{a0}'
    ||| c == '\u{1680}'
    ||| ('\u{2000}' <= c && c <= '\u{200a}')
    ||| c == '\u{2028}'
    ||| c == '\u{2029}'
    ||| c == '\u{202f}'
    ||| c == '\u{205f}'
    ||| c == '\u{3000}'
}

pub fn white_space(c: char) -> (b: bool)
    ensures
        b == is_white_space(c),
{
    ('\u{9}' <= c && c <= '\u{d}') || c == ' ' || c == '\u{85}' || c == '\u{a0}' || c
        == '\u{1680}' || ('\u{2000}' <= c && c <= '\u{200a}') || c == '\u{2028}' || c
        == '\u{2029}' || c == '\u{202f}' || c == '\u{205f}' || c == '\u{3000}'
}

/// The end of the word that starts at `i`: the first white space at or after `i`.
pub open spec fn word_end(s: Seq<char>, i: int) -> int
    decreases s.len() - i,
{
    if i >= s.len() || i < 0 {
        s.len() as int
    } else if is_white_space(s[i]) {
        i
    } else {
        word_end(s, i + 1)
    }
}

pub proof fn lemma_word_end(s: Seq<char>, i: int)
    requires
        0 <= i <= s.len(),
    ensures
        i <= word_end(s, i) <= s.len(),
        i < s.len() && !is_white_space(s[i]) ==> i < word_end(s, i),
    decreases s.len() - i,
{
    if i < s.len() && !is_white_space(s[i]) {
        lemma_word_end(s, i + 1);
    }
}

/// The moves written in `s` from position `i` on: the words between white space,
/// each read by `parse_move`, the words that are no move left out.
pub open spec fn parse_words_from(s: Seq<char>, i: int) -> Seq<SingleMove>
    decreases s.len() - i,
{
    if i >= s.len() || i < 0 {
        seq![]
    } else if is_white_space(s[i]) {
        parse_words_from(s, i + 1)
    } else {
        let j = word_end(s, i);
        proof {
            lemma_word_end(s, i);
        }
        let w = s.subrange(i, j);
        (match parse_move(w) {
            Some(m) => seq![m],
            None => seq![],
        }) + parse_words_from(s, j)
    }
}

/// The moves of a scramble string.
pub open spec fn parse_scramble(s: Seq<char>) -> Seq<SingleMove> {
    parse_words_from(s, 0)
}

/// The text of a move list: each move's notation followed by a space.
pub open spec fn scramble_text(moves: Seq<SingleMove>) -> Seq<char>
    decreases moves.len(),
{
    if moves.len() == 0 {
        seq![]
    } else {
        notation(moves[0]) + seq![' '] + scramble_text(moves.drop_first())
    }
}

proof fn lemma_parse_text_from(p: Seq<char>, ms: Seq<SingleMove>)
    ensures
        parse_words_from(p + scramble_text(ms), p.len() as int) == ms,
    decreases ms.len(),
{
    let s = p + scramble_text(ms);
    let i = p.len() as int;
    if ms.len() == 0 {
        assert(s.len() == p.len());
    } else {
        let m = ms[0];
        let rest = ms.drop_first();
        let w = notation(m);
        let p2 = p + w + seq![' '];
        assert(s =~= p2 + scramble_text(rest));
        let j = i + w.len();
        assert(s[i] == axis_char(m.axis));
        assert(!is_white_space(s[i]));
        assert(s[j] == ' ');
        assert(is_white_space(s[j]));
        assert(j < s.len());
        assert(word_end(s, j) == j);
        if w.len() == 2 {
            assert(s[i + 1] == w[1]);
            assert(!is_white_space(s[i + 1]));
            assert(word_end(s, i + 1) == word_end(s, i + 2));
        }
        assert(word_end(s, i) == j);
        assert(s.subrange(i, j) =~= w);
        lemma_parse_notation(m);
        lemma_word_end(s, i);
        lemma_parse_text_from(p2, rest);
        assert(p2.len() == j + 1);
        assert(parse_words_from(s, j) == parse_words_from(s, j + 1));
        assert(seq![m] + rest =~= ms);
    }
}

/// Reading the text of a move list gives the list back.
pub proof fn lemma_scramble_text_roundtrip(ms: Seq<SingleMove>)
    ensures
        parse_scramble(scramble_text(ms)) == ms,
{
    lemma_parse_text_from(Seq::empty(), ms);
    assert(Seq::<char>::empty() + scramble_text(ms) =~= scramble_text(ms));
}

/// The characters of the Unicode White_Space property, which `char::is_whitespace`
/// and `str::split_whitespace` go by: tab, line feed, vertical tab, form feed,
/// carriage return, space, next line, no-break space, ogham space mark, the en quad
/// to hair space block, line separator, paragraph separator, narrow no-break space,
/// medium mathematical space and ideographic space.
pub open spec fn unicode_white_space_chars() -> Seq<char> {
    seq![
        '\u{9}', '\u{a}', '\u{b}', '\u{c}', '\u{d}', '\u{20}', '\u{85}', '\u{a0}', '\u{1680}',
        '\u{2000}', '\u{2001}', '\u{2002}', '\u{2003}', '\u{2004}', '\u{2005}', '\u{2006}',
        '\u{2007}', '\u{2008}', '\u{2009}', '\u{200a}', '\u{2028}', '\u{2029}', '\u{202f}',
        '\u{205f}', '\u{3000}',
    ]
}

/// Two texts that agree except at white space, where each has white space.
spec fn same_words(s1: Seq<char>, s2: Seq<char>) -> bool {
    &&& s1.len() == s2.len()
    &&& forall|t: int|
        0 <= t < s1.len() ==> (is_white_space(#[trigger] s1[t]) <==> is_white_space(s2[t]))
    &&& forall|t: int| 0 <= t < s1.len() && !is_white_space(#[trigger] s1[t]) ==> s1[t] == s2[t]
}

proof fn lemma_same_word_end(s1: Seq<char>, s2: Seq<char>, i: int)
    requires
        same_words(s1, s2),
        0 <= i <= s1.len(),
    ensures
        word_end(s1, i) == word_end(s2, i),
        forall|t: int| i <= t < word_end(s1, i) ==> !is_white_space(#[trigger] s1[t]),
    decreases s1.len() - i,
{
    if i < s1.len() && !is_white_space(s1[i]) {
        assert(!is_white_space(s2[i]));
        lemma_same_word_end(s1, s2, i + 1);
    }
}

proof fn lemma_same_words_parse(s1: Seq<char>, s2: Seq<char>, i: int)
    requires
        same_words(s1, s2),
        0 <= i <= s1.len(),
    ensures
        parse_words_from(s1, i) == parse_words_from(s2, i),
    decreases s1.len() - i,
{
    if i < s1.len() {
        if is_white_space(s1[i]) {
            assert(is_white_space(s2[i]));
            lemma_same_words_parse(s1, s2, i + 1);
        } else {
            assert(!is_white_space(s2[i]));
            lemma_same_word_end(s1, s2, i);
            lemma_word_end(s1, i);
            let j = word_end(s1, i);
            assert(s1.subrange(i, j) =~= s2.subrange(i, j)) by {
                assert forall|t: int| 0 <= t < j - i implies s1.subrange(i, j)[t] == s2.subrange(i, j)[t] by {
                    assert(!is_white_space(s1[i + t]));
                }
            }
            lemma_same_words_parse(s1, s2, j);
        }
    }
}

proof fn lemma_white_space_chars(k: int)
    requires
        0 <= k < 25,
    ensures
        is_white_space(unicode_white_space_chars()[k]),
{
}

/// Each Unicode white space character separates the words of a scramble as a space
/// does: writing it in place of a space anywhere does not change what
/// `Scramble::new` reads.
pub proof fn lemma_white_space_separates(a: Seq<char>, b: Seq<char>, k: int)
    requires
        0 <= k < 25,
    ensures
        parse_scramble(a + seq![unicode_white_space_chars()[k]] + b) == parse_scramble(a + seq![' ']
            + b),
{
    let c = unicode_white_space_chars()[k];
    lemma_white_space_chars(k);
    let s1 = a + seq![c] + b;
    let s2 = a + seq![' '] + b;
    assert forall|t: int| 0 <= t < s1.len() implies (is_white_space(#[trigger] s1[t]) <==> is_white_space(
        s2[t],
    )) by {
        if t != a.len() {
            assert(s1[t] == s2[t]);
        }
    }
    assert forall|t: int| 0 <= t < s1.len() && !is_white_space(#[trigger] s1[t]) implies s1[t]
        == s2[t] by {
        if t == a.len() {
            assert(s1[t] == c);
        }
    }
    lemma_same_words_parse(s1, s2, 0);
}

/// Any other character belongs to the word it stands in: between two faces' letters it
/// joins them into one word, which is no move unless the character is a turn mark.
pub proof fn lemma_other_chars_join(c: char)
    requires
        forall|k: int| 0 <= k < 25 ==> unicode_white_space_chars()[k] != c,
        c != '\'',
        c != '2',
    ensures
        parse_scramble(seq!['R', c, 'U']) == Seq::<SingleMove>::empty(),
{
    let w = unicode_white_space_chars();
    assert(!is_white_space(c)) by {
        assert(w[0] != c && w[1] != c && w[2] != c && w[3] != c && w[4] != c && w[5] != c);
        assert(w[6] != c && w[7] != c && w[8] != c && w[9] != c && w[10] != c && w[11] != c);
        assert(w[12] != c && w[13] != c && w[14] != c && w[15] != c && w[16] != c && w[17] != c);
        assert(w[18] != c && w[19] != c && w[20] != c && w[21] != c && w[22] != c && w[23] != c);
        assert(w[24] != c);
    }
    let s = seq!['R', c, 'U'];
    reveal_with_fuel(word_end, 4);
    reveal_with_fuel(parse_words_from, 3);
    assert(word_end(s, 0) == 3);
    assert(s.subrange(0, 3) =~= s);
    assert(parse_move(s) is None);
    assert(parse_words_from(s, 3) =~= Seq::<SingleMove>::empty());
}

/// A list of moves.
pub struct Scramble {
    pub move_list: Vec<SingleMove>,
}

impl Scramble {
    /// Reads a scramble written as words separated by white space; words that are
    /// not a move are left out.
    pub fn new(move_string: &str) -> (s: Scramble)
        ensures
            s.move_list@ == parse_scramble(move_string@),
    {
        let chars = str_chars(move_string);
        let n = chars.len();
        let ghost text = chars@;
        let mut list: Vec<SingleMove> = Vec::new();
        let mut i: usize = 0;
        while i < n
            invariant
                n == text.len(),
                text == chars@,
                i <= n,
                list@ + parse_words_from(text, i as int) == parse_words_from(text, 0),
            decreases n - i,
        {
            if white_space(chars[i]) {
                i = i + 1;
            } else {
                let mut j = i + 1;
                proof {
                    assert(word_end(text, i as int) == word_end(text, i + 1));
                }
                while j < n && !white_space(chars[j])
                    invariant
                        n == text.len(),
                        text == chars@,
                        i < j <= n,
                        word_end(text, i as int) == word_end(text, j as int),
                    decreases n - j,
                {
                    j = j + 1;
                }
                proof {
                    lemma_word_end(text, i as int);
                    assert(word_end(text, i as int) == j);
                }
                let parsed = parse_move_chars(&chars, i, j);
                let ghost before = list@;
                match parsed {
                    Some(m) => {
                        list.push(m);
                        proof {
                            assert(list@ + parse_words_from(text, j as int) =~= before + (seq![m]
                                + parse_words_from(text, j as int)));
                        }
                    },
                    None => {
                        proof {
                            assert(seq![] + parse_words_from(text, j as int) =~= parse_words_from(
                                text,
                                j as int,
                            ));
                        }
                    },
                }
                i = j;
            }
        }
        proof {
            assert(list@ + seq![] =~= list@);
        }
        Scramble { move_list: list }
    }

    /// The number of moves.
    pub fn len(&self) -> (n: usize)
        ensures
            n == self.move_list@.len(),
    {
        self.move_list.len()
    }

    /// The moves, in order.
    pub fn iter(&self) -> (it: std::slice::Iter<'_, SingleMove>)
        ensures
            it.remaining().unref() == self.move_list@,
    {
        let it = self.move_list.as_slice().iter();
        proof {
            assert(it.remaining() == self.move_list@.as_ref());
            assert(self.move_list@.as_ref().unref() =~= self.move_list@);
        }
        it
    }

    /// The scramble in standard notation, each move followed by a space.
    pub fn to_str(&self) -> (s: String)
        ensures
            s@ == scramble_text(self.move_list@),
    {
        let mut text = String::new();
        let n = self.move_list.len();
        let mut i: usize = 0;
        proof {
            assert(self.move_list@.skip(0) =~= self.move_list@);
            assert(text@ + scramble_text(self.move_list@) =~= scramble_text(self.move_list@));
        }
        while i < n
            invariant
                n == self.move_list@.len(),
                i <= n,
                text@ + scramble_text(self.move_list@.skip(i as int)) == scramble_text(
                    self.move_list@,
                ),
            decreases n - i,
        {
            let mv = self.move_list[i];
            let ghost before = text@;
            text.append(axis_str(mv.axis));
            text.append(dir_space_str(mv.dir));
            proof {
                let rest = self.move_list@.skip(i as int);
                assert(rest.drop_first() =~= self.move_list@.skip(i + 1));
                assert(rest[0] == mv);
                assert(text@ =~= before + (notation(mv) + seq![' ']));
                assert(text@ + scramble_text(self.move_list@.skip(i + 1)) =~= before + (notation(mv)
                    + seq![' '] + scramble_text(rest.drop_first())));
            }
            i = i + 1;
        }
        proof {
            assert(self.move_list@.skip(n as int) =~= Seq::<SingleMove>::empty());
            assert(text@ + seq![] =~= text@);
        }
        text
    }
}

/// The suffix of a direction followed by a space, as a string.
pub fn dir_space_str(dir: MoveDirection) -> (s: &'static str)
    ensures
        s@ == dir_suffix(dir) + seq![' '],
{
    match dir {
        MoveDirection::Clk => {
            proof {
                reveal_strlit(" ");
                assert(dir_suffix(dir) + seq![' '] =~= seq![' ']);
            }
            " "
        },
        MoveDirection::CCw => {
            proof {
                reveal_strlit("' ");
                assert(dir_suffix(dir) + seq![' '] =~= seq!['\'', ' ']);
            }
            "' "
        },
        MoveDirection::Dbl => {
            proof {
                reveal_strlit("2 ");
                assert(dir_suffix(dir) + seq![' '] =~= seq!['2', ' ']);
            }
            "2 "
        },
    }
}

} // verus!

verus! {

/// One step of stitching a move onto a list: a move on the same face as the last
/// one is merged with it (and both vanish when they cancel); a move on the face of
/// the last-but-one move, with only its opposite face in between, is merged with
/// that earlier move; any other move is appended.
pub open spec fn stitch(list: Seq<SingleMove>, m: SingleMove) -> Seq<SingleMove> {
    let n = list.len();
    if n == 0 {
        seq![m]
    } else if list[n - 1].axis == m.axis {
        match spec_combine(list[n - 1], m) {
            Some(c) => list.drop_last().push(c),
            None => list.drop_last(),
        }
    } else if n >= 2 && list[n - 2].axis == m.axis && spec_group(list[n - 2].axis) == spec_group(
        list[n - 1].axis,
    ) {
        match spec_combine(list[n - 2], m) {
            Some(c) => list.take(n - 2).push(c).push(list[n - 1]),
            None => list.take(n - 2).push(list[n - 1]),
        }
    } else {
        list.push(m)
    }
}

/// Stitching every move of `moves`, in order, onto an empty list.
pub open spec fn stitch_all(moves: Seq<SingleMove>) -> Seq<SingleMove>
    decreases moves.len(),
{
    if moves.len() == 0 {
        seq![]
    } else {
        stitch(stitch_all(moves.drop_last()), moves.last())
    }
}

/// Stitching a move onto a clean list keeps it clean and makes it at most one longer.
#[verifier::spinoff_prover]
#[verifier::rlimit(60)]
pub proof fn lemma_stitch_clean(list: Seq<SingleMove>, m: SingleMove)
    requires
        is_clean(list),
    ensures
        is_clean(stitch(list, m)),
        stitch(list, m).len() <= list.len() + 1,
{
    let n = list.len();
    let r = stitch(list, m);
    if n > 0 && list[n - 1].axis == m.axis {
        assert forall|i: int, j: int|
            #![trigger r[i], r[j]]
            0 <= i && j == i + 1 && j < r.len() implies r[i].axis != r[j].axis by {
            assert(list[i] == r[i]);
            if j < n - 1 {
                assert(list[j] == r[j]);
            } else {
                assert(list[i].axis != list[j].axis);
            }
        }
        assert forall|i: int, j: int, k: int|
            #![trigger r[i], r[j], r[k]]
            0 <= i && j == i + 1 && k == i + 2 && k < r.len() implies !(r[i].axis == r[k].axis
            && spec_group(r[i].axis) == spec_group(r[j].axis)) by {
            assert(list[i] == r[i] && list[j] == r[j]);
            if k < n - 1 {
                assert(list[k] == r[k]);
                assert(!(list[i].axis == list[k].axis && spec_group(list[i].axis) == spec_group(
                    list[j].axis,
                )));
            } else {
                assert(!(list[i].axis == list[k].axis && spec_group(list[i].axis) == spec_group(
                    list[j].axis,
                )));
            }
        }
    } else if n >= 2 && list[n - 2].axis == m.axis && spec_group(list[n - 2].axis) == spec_group(
        list[n - 1].axis,
    ) {
        let x = list[n - 2];
        let y = list[n - 1];
        assert(x.axis != y.axis);
        if n >= 3 {
            assert(list[n - 3].axis != x.axis);
            assert(!(list[n - 3].axis == y.axis && spec_group(list[n - 3].axis) == spec_group(x.axis)));
        }
        if n >= 4 {
            assert(list[n - 4].axis != list[n - 3].axis);
            assert(!(list[n - 4].axis == x.axis && spec_group(list[n - 4].axis) == spec_group(
                list[n - 3].axis,
            )));
        }
        match spec_combine(x, m) {
            Some(c) => {
                assert(c.axis == x.axis);
                assert forall|i: int, j: int|
                    #![trigger r[i], r[j]]
                    0 <= i && j == i + 1 && j < r.len() implies r[i].axis != r[j].axis by {
                    if j < n - 2 {
                        assert(list[i] == r[i] && list[j] == r[j]);
                    } else if j == n - 2 {
                        assert(list[i] == r[i]);
                    }
                }
                assert forall|i: int, j: int, k: int|
                    #![trigger r[i], r[j], r[k]]
                    0 <= i && j == i + 1 && k == i + 2 && k < r.len() implies !(r[i].axis
                    == r[k].axis && spec_group(r[i].axis) == spec_group(r[j].axis)) by {
                    if k < n - 2 {
                        assert(list[i] == r[i] && list[j] == r[j] && list[k] == r[k]);
                        assert(!(list[i].axis == list[k].axis && spec_group(list[i].axis)
                            == spec_group(list[j].axis)));
                    } else if k == n - 2 {
                        assert(list[i] == r[i] && list[j] == r[j]);
                        assert(!(list[i].axis == list[k].axis && spec_group(list[i].axis)
                            == spec_group(list[j].axis)));
                    } else {
                        assert(list[i] == r[i]);
                        assert(!(list[i].axis == list[k].axis && spec_group(list[i].axis)
                            == spec_group(list[j].axis)));
                    }
                }
            },
            None => {
                assert forall|i: int, j: int|
                    #![trigger r[i], r[j]]
                    0 <= i && j == i + 1 && j < r.len() implies r[i].axis != r[j].axis by {
                    if j < n - 2 {
                        assert(list[i] == r[i] && list[j] == r[j]);
                    } else {
                        assert(list[i] == r[i]);
                    }
                }
                assert forall|i: int, j: int, k: int|
                    #![trigger r[i], r[j], r[k]]
                    0 <= i && j == i + 1 && k == i + 2 && k < r.len() implies !(r[i].axis
                    == r[k].axis && spec_group(r[i].axis) == spec_group(r[j].axis)) by {
                    assert(list[i] == r[i] && list[j] == r[j]);
                    if k < n - 2 {
                        assert(list[k] == r[k]);
                        assert(!(list[i].axis == list[k].axis && spec_group(list[i].axis)
                            == spec_group(list[j].axis)));
                    }
                }
            },
        }
    } else {
        assert forall|i: int, j: int|
            #![trigger r[i], r[j]]
            0 <= i && j == i + 1 && j < r.len() implies r[i].axis != r[j].axis by {
            if j < n {
                assert(list[i] == r[i] && list[j] == r[j]);
            } else {
                assert(list[i] == r[i]);
            }
        }
        assert forall|i: int, j: int, k: int|
            #![trigger r[i], r[j], r[k]]
            0 <= i && j == i + 1 && k == i + 2 && k < r.len() implies !(r[i].axis == r[k].axis
            && spec_group(r[i].axis) == spec_group(r[j].axis)) by {
            assert(list[i] == r[i] && list[j] == r[j]);
            if k < n {
                assert(list[k] == r[k]);
                assert(!(list[i].axis == list[k].axis && spec_group(list[i].axis) == spec_group(
                    list[j].axis,
                )));
            }
        }
    }
}

/// Stitching a sequence of moves gives a clean list no longer than the sequence.
pub proof fn lemma_stitch_all_clean(moves: Seq<SingleMove>)
    ensures
        is_clean(stitch_all(moves)),
        stitch_all(moves).len() <= moves.len(),
    decreases moves.len(),
{
    if moves.len() > 0 {
        lemma_stitch_all_clean(moves.drop_last());
        lemma_stitch_clean(stitch_all(moves.drop_last()), moves.last());
    }
}

impl Scramble {
    /// A scramble made from `moves`, merging consecutive moves on the same face
    /// (R R becomes R2, R R' disappears) and moves on one face separated only by its
    /// opposite face (U D U becomes U2 D).
    pub fn from_moves(moves: Vec<SingleMove>) -> (s: Scramble)
        ensures
            s.move_list@ == stitch_all(moves@),
            is_clean(s.move_list@),
            s.move_list@.len() <= moves@.len(),
    {
        proof {
            lemma_stitch_all_clean(moves@);
        }
        let mut list: Vec<SingleMove> = Vec::new();
        let n = moves.len();
        let mut i: usize = 0;
        while i < n
            invariant
                n == moves@.len(),
                i <= n,
                list@ == stitch_all(moves@.take(i as int)),
            decreases n - i,
        {
            let new_move = moves[i];
            proof {
                assert(moves@.take(i + 1).drop_last() =~= moves@.take(i as int));
                assert(moves@.take(i + 1).last() == new_move);
            }
            let ghost before = list@;
            if list.len() == 0 {
                list.push(new_move);
                proof {
                    assert(list@ =~= seq![new_move]);
                }
            } else {
                let last = list[list.len() - 1];
                if last.axis == new_move.axis {
                    list.pop();
                    proof {
                        assert(list@ =~= before.drop_last());
                    }
                    match SingleMove::combine(last, new_move) {
                        Some(combined) => list.push(combined),
                        None => {},
                    }
                } else if list.len() >= 2 && list[list.len() - 2].axis == new_move.axis
                    && list[list.len() - 2].axis.group() == last.axis.group() {
                    let a = list[list.len() - 2];
                    let b = last;
                    let len = list.len();
                    list.remove(len - 2);
                    proof {
                        assert(list@ =~= before.take(len - 2).push(b));
                    }
                    match SingleMove::combine(a, new_move) {
                        Some(combined) => {
                            let len1 = list.len();
                            list.insert(len1 - 1, combined);
                            proof {
                                assert(list@ =~= before.take(len - 2).push(combined).push(b));
                            }
                        },
                        None => {},
                    }
                } else {
                    list.push(new_move);
                }
            }
            i = i + 1;
        }
        proof {
            assert(moves@.take(n as int) =~= moves@);
        }
        Scramble { move_list: list }
    }
}

} // verus!

verus! {

/// No two neighbouring moves turn the same face, and no move is followed by its
/// opposite face and then its own face again.
pub open spec fn is_clean(list: Seq<SingleMove>) -> bool {
    &&& forall|i: int, j: int|
        #![trigger list[i], list[j]]
        0 <= i && j == i + 1 && j < list.len() ==> list[i].axis != list[j].axis
    &&& forall|i: int, j: int, k: int|
        #![trigger list[i], list[j], list[k]]
        0 <= i && j == i + 1 && k == i + 2 && k < list.len() ==> !(list[i].axis == list[k].axis
            && spec_group(list[i].axis) == spec_group(list[j].axis))
}

/// One drawing step of a random scramble: a move on the face of the last move is
/// merged with it (both vanish when they cancel); a move on the face of the
/// last-but-one move with only the opposite face in between is dropped; any other
/// move is appended.
pub open spec fn random_step(list: Seq<SingleMove>, m: SingleMove) -> Seq<SingleMove> {
    let n = list.len();
    if n > 0 && list[n - 1].axis == m.axis {
        match spec_combine(list[n - 1], m) {
            Some(c) => list.drop_last().push(c),
            None => list.drop_last(),
        }
    } else if n >= 2 && list[n - 2].axis == m.axis && spec_group(list[n - 2].axis) == spec_group(
        list[n - 1].axis,
    ) {
        list
    } else {
        list.push(m)
    }
}

proof fn lemma_random_step_clean(list: Seq<SingleMove>, m: SingleMove)
    requires
        is_clean(list),
    ensures
        is_clean(random_step(list, m)),
        random_step(list, m).len() <= list.len() + 1,
{
    let n = list.len();
    let r = random_step(list, m);
    assert forall|i: int, j: int|
        #![trigger r[i], r[j]]
        0 <= i && j == i + 1 && j < r.len() implies r[i].axis != r[j].axis by {
        if j < n - 1 || (j == n - 1 && r[j] == list[j]) {
            assert(list[i] == r[i] && list[j] == r[j]);
        } else if j < n {
            assert(list[i] == r[i]);
            assert(list[i].axis != list[j].axis);
        } else {
            assert(list[i] == r[i]);
        }
    }
    assert forall|i: int, j: int, k: int|
        #![trigger r[i], r[j], r[k]]
        0 <= i && j == i + 1 && k == i + 2 && k < r.len() implies !(r[i].axis == r[k].axis
        && spec_group(r[i].axis) == spec_group(r[j].axis)) by {
        assert(list[i] == r[i] && list[j] == r[j]);
        if k < n {
            assert(!(list[i].axis == list[k].axis && spec_group(list[i].axis) == spec_group(
                list[j].axis,
            )));
        }
    }
}

/// Adds a drawn move to a random scramble in the making.
pub fn push_random_move(list: &mut Vec<SingleMove>, new_move: SingleMove)
    ensures
        final(list)@ == random_step(old(list)@, new_move),
{
    let n = list.len();
    let ghost before = list@;
    if n > 0 && list[n - 1].axis == new_move.axis {
        let last = list[n - 1];
        list.pop();
        proof {
            assert(list@ =~= before.drop_last());
        }
        match SingleMove::combine(last, new_move) {
            Some(combined) => list.push(combined),
            None => {},
        }
    } else if n >= 2 && list[n - 2].axis == new_move.axis && list[n - 2].axis.group() == list[n
        - 1].axis.group() {
    } else {
        list.push(new_move);
    }
}

/// Whether a move on `axis` is appended to `list` as it is by a drawing step: it does
/// not share the face of the last move, nor follow an opposite-face pair that starts
/// on its face.
pub open spec fn may_append(list: Seq<SingleMove>, axis: MoveAxis) -> bool {
    let n = list.len();
    &&& !(n > 0 && list[n - 1].axis == axis)
    &&& !(n >= 2 && list[n - 2].axis == axis && spec_group(list[n - 2].axis) == spec_group(
        list[n - 1].axis,
    ))
}

/// The move drawn as face number `a` (0 to 5, in the order U, F, R, B, L, D) and
/// direction number `d` (0 to 2: clockwise, counter-clockwise, half turn).
pub open spec fn drawn(a: int, d: int) -> SingleMove {
    SingleMove { axis: axis_at(a), dir: dir_at(d) }
}

/// Every draw is a face number below 6 and a direction number below 3.
pub open spec fn draws_ok(draws: Seq<(int, int)>) -> bool {
    forall|i: int| 0 <= i < draws.len() ==> 0 <= #[trigger] draws[i].0 < 6 && 0 <= draws[i].1 < 3
}

/// The list that the drawing steps build from the draws, in order.
pub open spec fn built_from_draws(draws: Seq<(int, int)>) -> Seq<SingleMove>
    decreases draws.len(),
{
    if draws.len() == 0 {
        Seq::empty()
    } else {
        random_step(built_from_draws(draws.drop_last()), drawn(draws.last().0, draws.last().1))
    }
}

/// The number of a face in the order U, F, R, B, L, D.
pub open spec fn axis_number_of(axis: MoveAxis) -> int {
    match axis {
        MoveAxis::U => 0,
        MoveAxis::F => 1,
        MoveAxis::R => 2,
        MoveAxis::B => 3,
        MoveAxis::L => 4,
        MoveAxis::D => 5,
    }
}

/// The move made of drawn face number `a` and direction number `d`.
fn drawn_move(a: u32, d: u32) -> (m: SingleMove)
    requires
        a < 6,
        d < 3,
    ensures
        m == drawn(a as int, d as int),
{
    SingleMove { axis: axis_number(a), dir: direction_number(d) }
}

fn axis_number(a: u32) -> (axis: MoveAxis)
    ensures
        axis == axis_at(a as int),
{
    if a == 0 {
        MoveAxis::U
    } else if a == 1 {
        MoveAxis::F
    } else if a == 2 {
        MoveAxis::R
    } else if a == 3 {
        MoveAxis::B
    } else if a == 4 {
        MoveAxis::L
    } else {
        MoveAxis::D
    }
}

fn direction_number(d: u32) -> (dir: MoveDirection)
    ensures
        dir == dir_at(d as int),
{
    if d == 0 {
        MoveDirection::Clk
    } else if d == 1 {
        MoveDirection::CCw
    } else {
        MoveDirection::Dbl
    }
}

/// The faces on which a drawn move is appended to `list` as it is; there is always at
/// least one, since at most two faces are ruled out.
fn appendable_axes(list: &Vec<SingleMove>) -> (v: Vec<MoveAxis>)
    ensures
        1 <= v@.len() <= 6,
        forall|i: int| 0 <= i < v@.len() ==> #[trigger] may_append(list@, v@[i]),
{
    let n = list.len();
    let mut v: Vec<MoveAxis> = Vec::new();
    let mut a: u32 = 0;
    while a < 6
        invariant
            a <= 6,
            n == list@.len(),
            v@.len() <= a,
            forall|i: int| 0 <= i < v@.len() ==> #[trigger] may_append(list@, v@[i]),
            v@.len() == 0 ==> forall|b: int| 0 <= b < a ==> !#[trigger] may_append(list@, axis_at(b)),
        decreases 6 - a,
    {
        let axis = axis_number(a);
        let mut ok = true;
        if n > 0 && list[n - 1].axis == axis {
            ok = false;
        }
        if n >= 2 && list[n - 2].axis == axis && list[n - 2].axis.group() == list[n - 1].axis.group() {
            ok = false;
        }
        if ok {
            v.push(axis);
        }
        a = a + 1;
    }
    proof {
        if v@.len() == 0 {
            assert(!may_append(list@, axis_at(0)));
            assert(!may_append(list@, axis_at(1)));
            assert(!may_append(list@, axis_at(2)));
            assert(!may_append(list@, axis_at(3)));
            assert(!may_append(list@, axis_at(4)));
            assert(!may_append(list@, axis_at(5)));
        }
    }
    v
}

impl Scramble {
    /// A random scramble of `size` moves. Moves are drawn uniformly (a face number below
    /// 6 and a direction number below 3) and added by `push_random_move`, which merges
    /// or drops moves that would make the list unclean; should that ever take 2^64 - 1
    /// draws, the remaining moves are drawn among those that are appended as they are.
    /// Either way the list ends with exactly `size` moves, built by the drawing steps
    /// from the draws made.
    pub fn random(size: usize) -> (s: Scramble)
        ensures
            s.move_list@.len() == size,
            is_clean(s.move_list@),
            exists|draws: Seq<(int, int)>|
                #![trigger built_from_draws(draws)]
                draws_ok(draws) && s.move_list@ == built_from_draws(draws),
    {
        let mut rng = crate::random::thread_rng();
        let mut list: Vec<SingleMove> = Vec::with_capacity(size);
        let mut budget: u64 = u64::MAX;
        let ghost mut draws: Seq<(int, int)> = Seq::empty();
        while list.len() < size && budget > 0
            invariant
                list@.len() <= size,
                is_clean(list@),
                draws_ok(draws),
                list@ == built_from_draws(draws),
            decreases budget,
        {
            budget = budget - 1;
            let a = crate::random::random_below(&mut rng, 6);
            let d = crate::random::random_below(&mut rng, 3);
            let new_move = drawn_move(a, d);
            proof {
                lemma_random_step_clean(list@, new_move);
            }
            push_random_move(&mut list, new_move);
            proof {
                let before = draws;
                draws = draws.push((a as int, d as int));
                assert(draws.drop_last() =~= before);
                assert forall|i: int| 0 <= i < draws.len() implies 0 <= #[trigger] draws[i].0 < 6
                    && 0 <= draws[i].1 < 3 by {
                    if i < before.len() {
                        assert(draws[i] == before[i]);
                    }
                }
            }
        }
        while list.len() < size
            invariant
                list@.len() <= size,
                is_clean(list@),
                draws_ok(draws),
                list@ == built_from_draws(draws),
            decreases size - list@.len(),
        {
            let axes = appendable_axes(&list);
            let k = crate::random::random_below(&mut rng, axes.len() as u32);
            let d = crate::random::random_below(&mut rng, 3);
            let new_move = SingleMove { axis: axes[k as usize], dir: direction_number(d) };
            proof {
                assert(may_append(list@, axes@[k as int]));
                lemma_random_step_clean(list@, new_move);
                assert(random_step(list@, new_move) == list@.push(new_move));
                assert(new_move == drawn(axis_number_of(new_move.axis), d as int));
            }
            push_random_move(&mut list, new_move);
            proof {
                let before = draws;
                draws = draws.push((axis_number_of(new_move.axis), d as int));
                assert(draws.drop_last() =~= before);
                assert forall|i: int| 0 <= i < draws.len() implies 0 <= #[trigger] draws[i].0 < 6
                    && 0 <= draws[i].1 < 3 by {
                    if i < before.len() {
                        assert(draws[i] == before[i]);
                    }
                }
            }
        }
        Scramble { move_list: list }
    }
}

} // verus!
