//! The speed-cubing timer: how times are written, when the timer window fits, and the
//! timer's states (idle, holding the space bar, running) with the transitions between
//! them. Times are milliseconds of a monotonic clock that the caller reads.

use vstd::prelude::*;
use crate::cube::{Cube, CubeState, apply_moves, solved_state};
use crate::moves::{Scramble, SingleMove, is_clean, scramble_text, built_from_draws, draws_ok};
use vstd::string::StringSliceAdditionalSpecFns;

verus! {

/// The character of decimal digit `d`.
pub open spec fn digit_char(d: int) -> char {
    if d == 0 {
        '0'
    } else if d == 1 {
        '1'
    } else if d == 2 {
        '2'
    } else if d == 3 {
        '3'
    } else if d == 4 {
        '4'
    } else if d == 5 {
        '5'
    } else if d == 6 {
        '6'
    } else if d == 7 {
        '7'
    } else if d == 8 {
        '8'
    } else {
        '9'
    }
}

/// `n` in decimal, without leading zeros.
pub open spec fn dec(n: nat) -> Seq<char>
    decreases n,
{
    if n < 10 {
        seq![digit_char(n as int)]
    } else {
        dec(n / 10).push(digit_char((n % 10) as int))
    }
}

/// `n` in decimal, padded with a zero to at least two digits.
pub open spec fn dec2(n: nat) -> Seq<char> {
    if n < 10 {
        seq!['0'] + dec(n)
    } else {
        dec(n)
    }
}

/// The decimal digit `d` as a string.
fn digit_str(d: u64) -> (s: &'static str)
    requires
        d < 10,
    ensures
        s@ == seq![digit_char(d as int)],
{
    if d == 0 {
        proof {
            reveal_strlit("0");
        }
        "0"
    } else if d == 1 {
        proof {
            reveal_strlit("1");
        }
        "1"
    } else if d == 2 {
        proof {
            reveal_strlit("2");
        }
        "2"
    } else if d == 3 {
        proof {
            reveal_strlit("3");
        }
        "3"
    } else if d == 4 {
        proof {
            reveal_strlit("4");
        }
        "4"
    } else if d == 5 {
        proof {
            reveal_strlit("5");
        }
        "5"
    } else if d == 6 {
        proof {
            reveal_strlit("6");
        }
        "6"
    } else if d == 7 {
        proof {
            reveal_strlit("7");
        }
        "7"
    } else if d == 8 {
        proof {
            reveal_strlit("8");
        }
        "8"
    } else {
        proof {
            reveal_strlit("9");
        }
        "9"
    }
}

/// Writes `n` in decimal.
pub fn decimal(n: u64) -> (s: String)
    ensures
        s@ == dec(n as nat),
    decreases n,
{
    if n < 10 {
        String::from_str(digit_str(n))
    } else {
        let mut s = decimal(n / 10);
        s.append(digit_str(n % 10));
        s
    }
}

/// Writes `n` in decimal with at least two digits.
pub fn decimal2(n: u64) -> (s: String)
    ensures
        s@ == dec2(n as nat),
{
    if n < 10 {
        let mut s = String::from_str("0");
        proof {
            reveal_strlit("0");
        }
        s.append(digit_str(n));
        s
    } else {
        decimal(n)
    }
}

/// The whole part of a time: `minutes:ss` from a minute on, else the seconds.
pub open spec fn main_text(secs: nat) -> Seq<char> {
    let minutes = secs / 60;
    let seconds = secs % 60;
    if minutes > 0 {
        dec(minutes) + seq![':'] + dec2(seconds)
    } else {
        dec(seconds)
    }
}

/// The fraction of a time: hundredths with precision 2, tenths otherwise.
pub open spec fn cents_text(millis: nat, precision: int) -> Seq<char> {
    if precision == 2 {
        seq!['.'] + dec2((millis / 10) % 100)
    } else {
        seq!['.'] + dec(millis / 100)
    }
}

/// Splits a time of `secs` seconds and `millis` milliseconds into its whole part
/// (minutes and seconds) and its fraction (hundredths or tenths).
pub fn split_duration(secs: u64, millis: u32, precision: usize) -> (r: (String, String))
    ensures
        r.0@ == main_text(secs as nat),
        r.1@ == cents_text(millis as nat, precision as int),
{
    let minutes = secs / 60;
    let seconds = secs % 60;
    let main = if minutes > 0 {
        let mut m = decimal(minutes);
        proof {
            reveal_strlit(":");
        }
        m.append(":");
        let s2 = decimal2(seconds);
        m.append(s2.as_str());
        m
    } else {
        decimal(seconds)
    };
    let mut cents = String::from_str(".");
    proof {
        reveal_strlit(".");
    }
    if precision == 2 {
        let c = decimal2(((millis / 10) % 100) as u64);
        cents.append(c.as_str());
    } else {
        let c = decimal((millis / 100) as u64);
        cents.append(c.as_str());
    }
    proof {
        assert(main@ =~= main_text(secs as nat));
        assert(cents@ =~= cents_text(millis as nat, precision as int));
    }
    (main, cents)
}

/// Whether the timer can be drawn full size in an area of `height` rows and `width`
/// columns, for a time written with `text_len` characters of eight columns each.
pub fn can_fit_full_size(height: u16, width: u16, text_len: usize) -> (b: bool)
    requires
        (text_len as u16) * 8 <= u16::MAX,
    ensures
        b == (height >= 12 && width >= (text_len as u16) * 8 && width >= 50),
{
    height >= 12 && width >= (text_len as u16) * 8 && width >= 50
}

/// The width in columns of a text drawn with eight columns per byte.
pub fn estimate_text_width(text: &str) -> (w: u16)
    requires
        ((text.spec_bytes().len() as usize) as u16) * 8 <= u16::MAX,
    ensures
        w == ((text.spec_bytes().len() as usize) as u16) * 8,
{
    let n = text.len();
    (n as u16) * 8
}

/// `10` to the power `k`.
pub open spec fn pow10(k: nat) -> nat
    decreases k,
{
    if k == 0 {
        1
    } else {
        10 * pow10((k - 1) as nat)
    }
}

/// A number below `10^k` has at most `k` digits.
pub proof fn lemma_dec_len(n: nat, k: nat)
    requires
        n < pow10(k),
        k >= 1,
    ensures
        dec(n).len() <= k,
    decreases n,
{
    if n >= 10 {
        let p = pow10((k - 1) as nat);
        if k == 1 {
            assert(pow10(1) == 10);
        }
        assert(n / 10 < p) by (nonlinear_arith)
            requires
                n < 10 * p,
        ;
        lemma_dec_len(n / 10, (k - 1) as nat);
    }
}

/// Any `u64` has at most twenty digits.
pub proof fn lemma_dec_len_u64(n: u64)
    ensures
        dec(n as nat).len() <= 20,
{
    assert(pow10(20) == 100000000000000000000) by {
        reveal_with_fuel(pow10, 21);
    }
    lemma_dec_len(n as nat, 20);
}

/// Milliseconds from `start` to `now`, 0 if `now` comes first.
pub open spec fn elapsed(start: u64, now: u64) -> u64 {
    if now >= start {
        (now - start) as u64
    } else {
        0
    }
}

fn elapsed_since(start: u64, now: u64) -> (r: u64)
    ensures
        r == elapsed(start, now),
{
    if now >= start {
        now - start
    } else {
        0
    }
}

/// The space bar has been held long enough (300 ms) to start the timer on release.
pub open spec fn held_long(hold: Option<u64>, now: u64) -> bool {
    match hold {
        Some(s) => elapsed(s, now) >= 300,
        None => false,
    }
}

fn held_long_exec(hold: Option<u64>, now: u64) -> (b: bool)
    ensures
        b == held_long(hold, now),
{
    match hold {
        Some(s) => elapsed_since(s, now) >= 300,
        None => false,
    }
}

/// The colour of the time on screen.
#[derive(Clone, Copy, PartialEq, Eq, Structural, Debug)]
pub enum TimerColor {
    /// Space bar held, not yet long enough.
    Holding,
    /// Space bar held long enough: releasing starts the timer.
    Ready,
    /// Anything else.
    Idle,
}

/// What a key did.
#[derive(Clone, Copy, PartialEq, Eq, Structural, Debug)]
pub enum KeyKind {
    Press,
    Release,
    Repeat,
}

/// Which key.
#[derive(Clone, Copy, PartialEq, Eq, Structural, Debug)]
pub enum KeyCode {
    Char(char),
    Esc,
    Up,
    Down,
    Enter,
    Other,
}

/// A keyboard event.
#[derive(Clone, Copy, PartialEq, Eq, Structural, Debug)]
pub struct KeyInput {
    pub code: KeyCode,
    pub kind: KeyKind,
}

/// What the timer screen asks of the application after a key.
#[derive(Clone, Copy, PartialEq, Eq, Structural, Debug)]
pub enum TimerAction {
    /// Stay on the timer screen.
    Stay,
    /// Go back to the main menu.
    BackToMenu,
}

/// A cube scrambled from solved by a scramble of 25 moves without redundant
/// neighbours, and that scramble's text.
pub open spec fn fresh_scramble(cube: CubeState, text: Seq<char>) -> bool {
    exists|ms: Seq<SingleMove>|
        #![trigger scramble_text(ms)]
        is_clean(ms) && ms.len() == 25 && cube == apply_moves(solved_state(), ms) && text
            == scramble_text(ms) && exists|draws: Seq<(int, int)>|
            #![trigger built_from_draws(draws)]
            draws_ok(draws) && ms == built_from_draws(draws)
}

/// The timer screen: whether and since when the space bar is held, whether and since
/// when the timer runs, the last time taken, and the scrambled cube with its scramble.
pub struct TimerScreen {
    pub start_hold_time: Option<u64>,
    pub running_since: Option<u64>,
    pub last_duration: u64,
    pub is_running: bool,
    pub cube: Cube,
    pub scramble_str: String,
}

/// The time to show at `now`: the running time, or the last time taken.
pub open spec fn current_duration(t: TimerScreen, now: u64) -> u64 {
    if t.is_running {
        match t.running_since {
            Some(s) => elapsed(s, now),
            None => 0,
        }
    } else {
        t.last_duration
    }
}

/// The colour of the time at `now`.
pub open spec fn timer_color(t: TimerScreen, now: u64) -> TimerColor {
    if !t.is_running && t.start_hold_time is Some {
        if held_long(t.start_hold_time, now) {
            TimerColor::Ready
        } else {
            TimerColor::Holding
        }
    } else {
        TimerColor::Idle
    }
}

/// What the screen shows at one moment.
pub struct TimerView {
    /// The window is large enough for the timer; when it is not, only a warning shows.
    pub fits: bool,
    pub main_str: String,
    pub cents_str: String,
    /// The scramble and the cube are shown (the timer is idle and not ready to start).
    pub show_scramble: bool,
    pub color: TimerColor,
    pub footer: &'static str,
}

/// A new scramble of 25 moves, its text, and the cube it leads to.
fn new_scramble() -> (r: (Cube, String))
    ensures
        fresh_scramble(r.0@, r.1@),
{
    let scramble = Scramble::random(25);
    let scramble_str = scramble.to_str();
    let cube = Cube::new_with(&scramble);
    proof {
        let ms = scramble.move_list@;
        assert(is_clean(ms) && ms.len() <= 25 && cube@ == apply_moves(solved_state(), ms)
            && scramble_str@ == scramble_text(ms));
    }
    (cube, scramble_str)
}

impl TimerScreen {
    /// An idle timer with a fresh scramble.
    pub fn new() -> (t: TimerScreen)
        ensures
            t.start_hold_time is None,
            t.running_since is None,
            t.last_duration == 0,
            !t.is_running,
            fresh_scramble(t.cube@, t.scramble_str@),
    {
        let (cube, scramble_str) = new_scramble();
        TimerScreen {
            start_hold_time: None,
            running_since: None,
            last_duration: 0,
            is_running: false,
            cube,
            scramble_str,
        }
    }

    /// The time to show at `now`.
    pub fn get_current_duration(&self, now: u64) -> (d: u64)
        ensures
            d == current_duration(*self, now),
    {
        if self.is_running {
            match self.running_since {
                Some(s) => elapsed_since(s, now),
                None => 0,
            }
        } else {
            self.last_duration
        }
    }

    /// The colour of the time at `now`.
    pub fn get_timer_color(&self, now: u64) -> (c: TimerColor)
        ensures
            c == timer_color(*self, now),
    {
        if !self.is_running {
            if let Some(start) = self.start_hold_time {
                return if elapsed_since(start, now) >= 300 {
                    TimerColor::Ready
                } else {
                    TimerColor::Holding
                };
            }
        }
        TimerColor::Idle
    }

    /// Stops the timer at `now`, keeps the time, and scrambles a new cube.
    fn stop(&mut self, now: u64)
        ensures
            final(self).last_duration == current_duration(*old(self), now),
            !final(self).is_running,
            final(self).running_since is None,
            final(self).start_hold_time == old(self).start_hold_time,
            fresh_scramble(final(self).cube@, final(self).scramble_str@),
    {
        self.last_duration = self.get_current_duration(now);
        self.is_running = false;
        self.running_since = None;
        let (cube, scramble_str) = new_scramble();
        self.cube = cube;
        self.scramble_str = scramble_str;
    }

    /// Handles a key at `now`. While the timer runs, any press stops it (and scrambles
    /// a new cube). Otherwise pressing the space bar starts holding, releasing it starts
    /// the timer if it was held 300 ms, and Esc goes back to the menu. Key repeats do
    /// nothing.
    pub fn handle_event(&mut self, key: KeyInput, now: u64) -> (a: TimerAction)
        ensures
            key.kind == KeyKind::Repeat ==> a == TimerAction::Stay && *final(self) == *old(self),
            key.kind != KeyKind::Repeat && old(self).is_running ==> a == TimerAction::Stay && (if key.kind
                == KeyKind::Press {
                &&& final(self).last_duration == current_duration(*old(self), now)
                &&& !final(self).is_running
                &&& final(self).running_since is None
                &&& final(self).start_hold_time == old(self).start_hold_time
                &&& fresh_scramble(final(self).cube@, final(self).scramble_str@)
            } else {
                *final(self) == *old(self)
            }),
            key.kind != KeyKind::Repeat && !old(self).is_running ==> (match key.code {
                KeyCode::Char(' ') => a == TimerAction::Stay && (if key.kind == KeyKind::Press {
                    *final(self) == (TimerScreen {
                        start_hold_time: if old(self).start_hold_time is None {
                            Some(now)
                        } else {
                            old(self).start_hold_time
                        },
                        ..*old(self)
                    })
                } else if held_long(old(self).start_hold_time, now) {
                    *final(self) == (TimerScreen {
                        start_hold_time: None,
                        is_running: true,
                        running_since: Some(now),
                        last_duration: 0,
                        ..*old(self)
                    })
                } else {
                    *final(self) == (TimerScreen { start_hold_time: None, ..*old(self) })
                }),
                KeyCode::Esc => a == TimerAction::BackToMenu && *final(self) == *old(self),
                _ => a == TimerAction::Stay && *final(self) == *old(self),
            }),
    {
        if key.kind != KeyKind::Press && key.kind != KeyKind::Release {
            return TimerAction::Stay;
        }
        if self.is_running {
            if key.kind == KeyKind::Press {
                self.stop(now);
            }
            return TimerAction::Stay;
        }
        match key.code {
            KeyCode::Char(' ') => {
                if key.kind == KeyKind::Press {
                    if self.start_hold_time.is_none() {
                        self.start_hold_time = Some(now);
                    }
                } else {
                    if held_long_exec(self.start_hold_time, now) {
                        self.is_running = true;
                        self.running_since = Some(now);
                        self.last_duration = 0;
                    }
                    self.start_hold_time = None;
                }
            },
            KeyCode::Esc => {
                return TimerAction::BackToMenu;
            },
            _ => {},
        }
        TimerAction::Stay
    }

    /// What to draw at `now` in a window of `height` rows and `width` columns. When the
    /// time does not fit, a running timer stops (with a new scramble) and only a warning
    /// shows. The time shows in tenths while running, in hundredths otherwise.
    pub fn screen_view(&mut self, height: u16, width: u16, now: u64) -> (v: TimerView)
        ensures
            ({
                let d = current_duration(*old(self), now);
                let main = main_text((d / 1000) as nat);
                let cents = cents_text(
                    (d % 1000) as nat,
                    if old(self).is_running {
                        1
                    } else {
                        2
                    },
                );
                let len = main.len() + cents.len();
                &&& v.main_str@ == main
                &&& v.cents_str@ == cents
                &&& v.fits == (height >= 12 && width >= len * 8 && width >= 50)
                &&& !v.fits && old(self).is_running ==> {
                    &&& final(self).last_duration == d
                    &&& !final(self).is_running
                    &&& final(self).running_since is None
                    &&& final(self).start_hold_time == old(self).start_hold_time
                    &&& fresh_scramble(final(self).cube@, final(self).scramble_str@)
                }
                &&& !(!v.fits && old(self).is_running) ==> *final(self) == *old(self)
                &&& v.fits ==> v.show_scramble == (!old(self).is_running && !held_long(
                    old(self).start_hold_time,
                    now,
                ))
                &&& v.fits ==> v.color == timer_color(*old(self), now)
                &&& v.fits ==> v.footer@ == (if old(self).is_running {
                    "Press any key to stop"@
                } else if old(self).start_hold_time is Some {
                    if held_long(old(self).start_hold_time, now) {
                        "RELEASE TO START!"@
                    } else {
                        "HOLDING..."@
                    }
                } else {
                    "Hold 'Space' to prepare | 'Esc' to go back"@
                })
            }),
    {
        let d = self.get_current_duration(now);
        let precision: usize = if self.is_running {
            1
        } else {
            2
        };
        let (main_str, cents_str) = split_duration(d / 1000, (d % 1000) as u32, precision);
        let main_len = main_str.as_str().unicode_len();
        let cents_len = cents_str.as_str().unicode_len();
        proof {
            lemma_dec_len_u64(d / 1000 / 60);
            lemma_dec_len_u64(d / 1000 % 60);
            lemma_dec_len_u64((d % 1000) / 100);
            lemma_dec_len_u64(((d % 1000) / 10) % 100);
            assert(main_len <= 45);
            assert(cents_len <= 25);
        }
        let len = main_len + cents_len;
        if !can_fit_full_size(height, width, len) {
            if self.is_running {
                self.stop(now);
            }
            return TimerView {
                fits: false,
                main_str,
                cents_str,
                show_scramble: false,
                color: TimerColor::Idle,
                footer: "",
            };
        }
        let ready = held_long_exec(self.start_hold_time, now);
        let footer = if self.is_running {
            "Press any key to stop"
        } else if self.start_hold_time.is_some() {
            if ready {
                "RELEASE TO START!"
            } else {
                "HOLDING..."
            }
        } else {
            "Hold 'Space' to prepare | 'Esc' to go back"
        };
        TimerView {
            fits: true,
            main_str,
            cents_str,
            show_scramble: !self.is_running && !ready,
            color: self.get_timer_color(now),
            footer,
        }
    }
}

/// The two characters drawn for a sticker cell at position (`r`, `c`) of its 3 × 3
/// face: box corners, edges and an empty middle.
pub open spec fn border_text(r: int, c: int) -> Seq<char> {
    if r == 0 && c == 0 {
        "╔═"@
    } else if r == 0 && c == 1 {
        "══"@
    } else if r == 2 && c == 1 {
        "══"@
    } else if r == 0 && c == 2 {
        "═╗"@
    } else if r == 1 && c == 0 {
        "║ "@
    } else if r == 1 && c == 2 {
        " ║"@
    } else if r == 2 && c == 0 {
        "╚═"@
    } else if r == 2 && c == 2 {
        "═╝"@
    } else {
        "  "@
    }
}

/// The two characters drawn for the cell at `row`, `col` of the net grid.
pub fn sticker_border(row: usize, col: usize) -> (s: &'static str)
    ensures
        s@ == border_text((row % 3) as int, (col % 3) as int),
{
    let r = row % 3;
    let c = col % 3;
    if r == 0 && c == 0 {
        "╔═"
    } else if r == 0 && c == 1 {
        "══"
    } else if r == 2 && c == 1 {
        "══"
    } else if r == 0 && c == 2 {
        "═╗"
    } else if r == 1 && c == 0 {
        "║ "
    } else if r == 1 && c == 2 {
        " ║"
    } else if r == 2 && c == 0 {
        "╚═"
    } else if r == 2 && c == 2 {
        "═╝"
    } else {
        "  "
    }
}

/// The net index of the sticker at row `row`, column `col` of the 9 × 12 grid of the
/// drawn net (U above F; L, F, R, B in the middle rows; D below F), if one shows there.
pub open spec fn net_cell_at(row: int, col: int) -> Option<int> {
    if 0 <= row < 3 && 3 <= col < 6 {
        Some(row * 3 + (col - 3))
    } else if 3 <= row < 6 && 0 <= col < 3 {
        Some(9 + (row - 3) * 3 + col)
    } else if 3 <= row < 6 && 3 <= col < 6 {
        Some(18 + (row - 3) * 3 + (col - 3))
    } else if 3 <= row < 6 && 6 <= col < 9 {
        Some(27 + (row - 3) * 3 + (col - 6))
    } else if 3 <= row < 6 && 9 <= col < 12 {
        Some(36 + (row - 3) * 3 + (col - 9))
    } else if 6 <= row < 9 && 3 <= col < 6 {
        Some(45 + (row - 6) * 3 + (col - 3))
    } else {
        None
    }
}

/// The net index of the sticker shown at `row`, `col` of the drawn net, if any.
pub fn net_cell(row: usize, col: usize) -> (r: Option<usize>)
    ensures
        match r {
            Some(i) => net_cell_at(row as int, col as int) == Some(i as int) && i < 54,
            None => net_cell_at(row as int, col as int) is None,
        },
{
    if row < 3 && 3 <= col && col < 6 {
        Some(row * 3 + (col - 3))
    } else if 3 <= row && row < 6 && col < 3 {
        Some(9 + (row - 3) * 3 + col)
    } else if 3 <= row && row < 6 && 3 <= col && col < 6 {
        Some(18 + (row - 3) * 3 + (col - 3))
    } else if 3 <= row && row < 6 && 6 <= col && col < 9 {
        Some(27 + (row - 3) * 3 + (col - 6))
    } else if 3 <= row && row < 6 && 9 <= col && col < 12 {
        Some(36 + (row - 3) * 3 + (col - 9))
    } else if 6 <= row && row < 9 && 3 <= col && col < 6 {
        Some(45 + (row - 6) * 3 + (col - 3))
    } else {
        None
    }
}

/// Where the big time goes in an area at `x`, `y` of `width` × `height`: the row of
/// the eight-row band centred vertically, the total width of the two parts, and the
/// column where the centred time starts.
pub fn timer_layout(x: u16, y: u16, width: u16, height: u16, main_width: u16, cents_width: u16) -> (r: (
    u16,
    u16,
    u16,
))
    requires
        y + (if height >= 8 { height - 8 } else { 0 }) / 2 <= u16::MAX,
        main_width + cents_width <= u16::MAX,
        x + (if width >= main_width + cents_width { width - main_width - cents_width } else { 0 })
            / 2 <= u16::MAX,
    ensures
        r.0 == y + (if height >= 8 { height - 8 } else { 0 }) / 2,
        r.1 == main_width + cents_width,
        r.2 == x + (if width >= main_width + cents_width { width - main_width - cents_width } else {
            0
        }) / 2,
{
    let y_offset = height.saturating_sub(8) / 2;
    let total_width = main_width + cents_width;
    let x_offset = x + (width.saturating_sub(total_width)) / 2;
    (y + y_offset, total_width, x_offset)
}

/// What the main menu asks of the application after a key.
#[derive(Clone, Copy, PartialEq, Eq, Structural, Debug)]
pub enum MenuAction {
    /// Stay on the menu.
    Stay,
    /// Open the timer screen.
    OpenTimer,
    /// Leave the application.
    Quit,
}

/// The main menu: its entries and the selected one.
pub struct MainMenuScreen {
    pub items: Vec<String>,
    pub selected: Option<usize>,
}

impl MainMenuScreen {
    /// The menu has its two entries, and a selection, if any, is one of them.
    pub open spec fn wf(&self) -> bool {
        &&& self.items@.len() == 2
        &&& match self.selected {
            Some(i) => i < self.items@.len(),
            None => true,
        }
    }

    /// The menu with "Timer" and "Quit (q)", the first selected.
    pub fn new() -> (m: MainMenuScreen)
        ensures
            m.wf(),
            m.items@.len() == 2,
            m.items@[0]@ == "Timer"@,
            m.items@[1]@ == "Quit (q)"@,
            m.selected == Some(0usize),
    {
        let mut items: Vec<String> = Vec::new();
        items.push(String::from_str("Timer"));
        items.push(String::from_str("Quit (q)"));
        MainMenuScreen { items, selected: Some(0) }
    }

    /// Selects the next entry, wrapping around after the last; the first when none
    /// is selected.
    pub fn next(&mut self)
        requires
            old(self).wf(),
        ensures
            final(self).wf(),
            final(self).items == old(self).items,
            final(self).selected == Some(
                match old(self).selected {
                    Some(i) => ((i + 1) % old(self).items@.len() as int) as usize,
                    None => 0usize,
                },
            ),
    {
        let n = self.items.len();
        let i = match self.selected {
            Some(i) => (i + 1) % n,
            None => 0,
        };
        self.selected = Some(i);
    }

    /// Selects the previous entry, wrapping around before the first; the first when
    /// none is selected.
    pub fn previous(&mut self)
        requires
            old(self).wf(),
        ensures
            final(self).wf(),
            final(self).items == old(self).items,
            final(self).selected == Some(
                match old(self).selected {
                    Some(i) => ((i + old(self).items@.len() - 1) % old(self).items@.len() as int) as usize,
                    None => 0usize,
                },
            ),
    {
        let n = self.items.len();
        let i = match self.selected {
            Some(i) => (i + n - 1) % n,
            None => 0,
        };
        self.selected = Some(i);
    }

    /// Handles a key press: `q` quits, Down or `j` and Up or `k` move the selection,
    /// Enter opens the timer (first entry) or quits (second entry). Other keys and key
    /// releases do nothing.
    pub fn handle_event(&mut self, key: KeyInput) -> (a: MenuAction)
        requires
            old(self).wf(),
        ensures
            final(self).wf(),
            final(self).items == old(self).items,
            key.kind != KeyKind::Press ==> a == MenuAction::Stay && final(self).selected == old(
                self,
            ).selected,
            key.kind == KeyKind::Press ==> match key.code {
                KeyCode::Char('q') => a == MenuAction::Quit && final(self).selected == old(
                    self,
                ).selected,
                KeyCode::Down | KeyCode::Char('j') => a == MenuAction::Stay && final(self).selected
                    == Some(
                    match old(self).selected {
                        Some(i) => ((i + 1) % old(self).items@.len() as int) as usize,
                        None => 0usize,
                    },
                ),
                KeyCode::Up | KeyCode::Char('k') => a == MenuAction::Stay && final(self).selected
                    == Some(
                    match old(self).selected {
                        Some(i) => ((i + old(self).items@.len() - 1) % old(
                            self,
                        ).items@.len() as int) as usize,
                        None => 0usize,
                    },
                ),
                KeyCode::Enter => final(self).selected == old(self).selected && a == match old(
                    self,
                ).selected {
                    Some(0usize) => MenuAction::OpenTimer,
                    Some(1usize) => MenuAction::Quit,
                    _ => MenuAction::Stay,
                },
                _ => a == MenuAction::Stay && final(self).selected == old(self).selected,
            },
    {
        if key.kind != KeyKind::Press {
            return MenuAction::Stay;
        }
        match key.code {
            KeyCode::Char('q') => MenuAction::Quit,
            KeyCode::Down | KeyCode::Char('j') => {
                self.next();
                MenuAction::Stay
            },
            KeyCode::Up | KeyCode::Char('k') => {
                self.previous();
                MenuAction::Stay
            },
            KeyCode::Enter => {
                if let Some(selected) = self.selected {
                    if selected == 0 {
                        MenuAction::OpenTimer
                    } else if selected == 1 {
                        MenuAction::Quit
                    } else {
                        MenuAction::Stay
                    }
                } else {
                    MenuAction::Stay
                }
            },
            _ => MenuAction::Stay,
        }
    }
}

} // verus!
