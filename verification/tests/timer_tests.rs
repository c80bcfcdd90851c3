use rustbik_cube::timer::{
    can_fit_full_size, decimal, estimate_text_width, net_cell, split_duration, sticker_border,
    timer_layout, KeyCode, KeyInput, KeyKind, MainMenuScreen, MenuAction, TimerAction,
    TimerColor, TimerScreen,
};

fn key(code: KeyCode, kind: KeyKind) -> KeyInput {
    KeyInput { code, kind }
}

#[test]
fn durations_are_written_like_a_stopwatch() {
    assert_eq!(split_duration(65, 432, 2), ("1:05".to_string(), ".43".to_string()));
    assert_eq!(split_duration(5, 432, 1), ("5".to_string(), ".4".to_string()));
    assert_eq!(split_duration(0, 7, 2), ("0".to_string(), ".00".to_string()));
    assert_eq!(split_duration(3600, 999, 2), ("60:00".to_string(), ".99".to_string()));
    assert_eq!(split_duration(59, 990, 2), ("59".to_string(), ".99".to_string()));
    assert_eq!(decimal(0), "0");
    assert_eq!(decimal(18446744073709551615), "18446744073709551615");
}

#[test]
fn fitting_and_widths() {
    assert!(can_fit_full_size(12, 50, 6));
    assert!(!can_fit_full_size(11, 100, 6));
    assert!(!can_fit_full_size(20, 49, 6));
    assert!(!can_fit_full_size(20, 60, 8));
    assert!(can_fit_full_size(20, 64, 8));
    assert_eq!(estimate_text_width("1:05"), 32);
    assert_eq!(estimate_text_width(""), 0);
}

#[test]
fn net_grid_cells() {
    assert_eq!(net_cell(0, 3), Some(0));
    assert_eq!(net_cell(2, 5), Some(8));
    assert_eq!(net_cell(3, 0), Some(9));
    assert_eq!(net_cell(4, 10), Some(40));
    assert_eq!(net_cell(8, 5), Some(53));
    assert_eq!(net_cell(0, 0), None);
    assert_eq!(net_cell(7, 9), None);
    assert_eq!(sticker_border(0, 0), "╔═");
    assert_eq!(sticker_border(2, 4), "══");
    assert_eq!(sticker_border(4, 5), " ║");
    assert_eq!(sticker_border(4, 4), "  ");
    assert_eq!(timer_layout(0, 0, 100, 20, 32, 24), (6, 56, 22));
    assert_eq!(timer_layout(3, 2, 10, 4, 32, 24), (2, 56, 3));
}

#[test]
fn timer_hold_start_stop_cycle() {
    let mut t = TimerScreen::new();
    assert!(!t.is_running);
    assert_eq!(t.get_current_duration(0), 0);
    // A short hold does not start the timer.
    assert_eq!(t.handle_event(key(KeyCode::Char(' '), KeyKind::Press), 1000), TimerAction::Stay);
    assert_eq!(t.start_hold_time, Some(1000));
    assert_eq!(t.get_timer_color(1100), TimerColor::Holding);
    t.handle_event(key(KeyCode::Char(' '), KeyKind::Release), 1200);
    assert!(!t.is_running);
    assert_eq!(t.start_hold_time, None);
    // A long hold starts it on release.
    t.handle_event(key(KeyCode::Char(' '), KeyKind::Press), 2000);
    t.handle_event(key(KeyCode::Char(' '), KeyKind::Repeat), 2100);
    assert_eq!(t.start_hold_time, Some(2000));
    assert_eq!(t.get_timer_color(2300), TimerColor::Ready);
    t.handle_event(key(KeyCode::Char(' '), KeyKind::Release), 2400);
    assert!(t.is_running);
    assert_eq!(t.running_since, Some(2400));
    assert_eq!(t.get_timer_color(2500), TimerColor::Idle);
    let v = t.screen_view(30, 100, 3400);
    assert!(v.fits);
    assert_eq!(v.main_str, "1");
    assert_eq!(v.cents_str, ".0");
    assert_eq!(v.footer, "Press any key to stop");
    assert!(!v.show_scramble);
    // Any key stops it and keeps the time.
    let old_scramble = t.scramble_str.clone();
    assert_eq!(t.handle_event(key(KeyCode::Other, KeyKind::Press), 5000), TimerAction::Stay);
    assert!(!t.is_running);
    assert_eq!(t.last_duration, 2600);
    assert_eq!(t.get_current_duration(9999), 2600);
    let v = t.screen_view(30, 100, 6000);
    assert_eq!(v.main_str, "2");
    assert_eq!(v.cents_str, ".60");
    assert_eq!(v.footer, "Hold 'Space' to prepare | 'Esc' to go back");
    assert!(v.show_scramble);
    let _ = old_scramble;
    assert_eq!(t.handle_event(key(KeyCode::Esc, KeyKind::Press), 7000), TimerAction::BackToMenu);
}

#[test]
fn small_window_stops_a_running_timer() {
    let mut t = TimerScreen::new();
    t.handle_event(key(KeyCode::Char(' '), KeyKind::Press), 0);
    t.handle_event(key(KeyCode::Char(' '), KeyKind::Release), 500);
    assert!(t.is_running);
    let v = t.screen_view(5, 100, 1500);
    assert!(!v.fits);
    assert!(!t.is_running);
    assert_eq!(t.last_duration, 1000);
}

#[test]
fn menu_navigation() {
    let mut m = MainMenuScreen::new();
    assert_eq!(m.items, vec!["Timer".to_string(), "Quit (q)".to_string()]);
    assert_eq!(m.selected, Some(0));
    assert_eq!(m.handle_event(key(KeyCode::Down, KeyKind::Press)), MenuAction::Stay);
    assert_eq!(m.selected, Some(1));
    m.handle_event(key(KeyCode::Char('j'), KeyKind::Press));
    assert_eq!(m.selected, Some(0));
    m.handle_event(key(KeyCode::Up, KeyKind::Press));
    assert_eq!(m.selected, Some(1));
    assert_eq!(m.handle_event(key(KeyCode::Enter, KeyKind::Press)), MenuAction::Quit);
    m.handle_event(key(KeyCode::Char('k'), KeyKind::Press));
    assert_eq!(m.selected, Some(0));
    assert_eq!(m.handle_event(key(KeyCode::Enter, KeyKind::Press)), MenuAction::OpenTimer);
    assert_eq!(m.handle_event(key(KeyCode::Enter, KeyKind::Release)), MenuAction::Stay);
    assert_eq!(m.handle_event(key(KeyCode::Char('q'), KeyKind::Press)), MenuAction::Quit);
    assert_eq!(m.handle_event(key(KeyCode::Char('x'), KeyKind::Press)), MenuAction::Stay);
    m.selected = None;
    m.next();
    assert_eq!(m.selected, Some(0));
    m.selected = None;
    m.previous();
    assert_eq!(m.selected, Some(0));
}
