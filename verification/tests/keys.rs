use broski::keys::{
    map_key, map_launcher_key, map_mouse_to_log_scroll, Action, KeyCode, KeyEvent, KeyEventKind,
    MouseEventKind,
};
use broski::launcher::LauncherAction;

const CONTROL: (bool, bool) = (true, false);
const SHIFT: (bool, bool) = (false, true);

fn key(code: KeyCode) -> KeyEvent {
    KeyEvent { code, ctrl: false, shift: false, kind: KeyEventKind::Press }
}

fn key_with_mods(code: KeyCode, (ctrl, shift): (bool, bool)) -> KeyEvent {
    KeyEvent { code, ctrl, shift, kind: KeyEventKind::Press }
}

fn ctrl(c: char) -> KeyEvent {
    key_with_mods(KeyCode::Char(c), CONTROL)
}

#[test]
fn quit_keys() {
    assert_eq!(map_key(key(KeyCode::Char('q'))), Action::Quit);
    assert_eq!(map_key(key(KeyCode::Char('Q'))), Action::Quit);
    assert_eq!(map_key(key(KeyCode::Esc)), Action::Quit);
}

#[test]
fn ctrl_c_is_interrupt_not_quit() {
    // The app loop interprets Interrupt as soft cancel on first press,
    // hard cancel on second. Plain `q` still terminates without
    // touching the executor.
    assert_eq!(
        map_key(key_with_mods(KeyCode::Char('c'), CONTROL)),
        Action::Interrupt
    );
}

#[test]
fn clear_vs_quit_disambiguates_by_ctrl() {
    // Lowercase 'c' alone is "clear logs", not quit.
    assert_eq!(map_key(key(KeyCode::Char('c'))), Action::ClearLogs);
}

#[test]
fn navigation_keys() {
    assert_eq!(map_key(key(KeyCode::Down)), Action::SelectNext);
    assert_eq!(map_key(key(KeyCode::Up)), Action::SelectPrev);
    assert_eq!(map_key(key(KeyCode::Char('j'))), Action::SelectNext);
    assert_eq!(map_key(key(KeyCode::Char('k'))), Action::SelectPrev);
    assert_eq!(map_key(key(KeyCode::Home)), Action::SelectFirst);
    assert_eq!(map_key(key(KeyCode::End)), Action::SelectLast);
}

#[test]
fn unknown_keys_are_ignored() {
    assert_eq!(map_key(key(KeyCode::Other)), Action::Ignore);
    assert_eq!(map_key(key(KeyCode::Char('z'))), Action::Ignore);
}

#[test]
fn x_maps_to_force_rerun_selected() {
    assert_eq!(map_key(key(KeyCode::Char('x'))), Action::ForceRerunSelected);
}

#[test]
fn shift_x_maps_to_force_rerun_all() {
    assert_eq!(map_key(key(KeyCode::Char('X'))), Action::ForceRerunAll);
}

#[test]
fn pageup_pagedown_scroll_logs_by_page() {
    match map_key(key(KeyCode::PageUp)) {
        Action::LogScrollUp(n) => assert!(n > 1),
        other => panic!("PageUp should map to LogScrollUp(>1), got {:?}", other),
    }
    match map_key(key(KeyCode::PageDown)) {
        Action::LogScrollDown(n) => assert!(n > 1),
        other => panic!("PageDown should map to LogScrollDown(>1), got {:?}", other),
    }
}

#[test]
fn shift_arrow_scrolls_logs_by_one_line() {
    assert_eq!(
        map_key(key_with_mods(KeyCode::Up, SHIFT)),
        Action::LogScrollUp(1)
    );
    assert_eq!(
        map_key(key_with_mods(KeyCode::Down, SHIFT)),
        Action::LogScrollDown(1)
    );
}

#[test]
fn shift_home_end_jump_to_top_and_tail() {
    assert_eq!(
        map_key(key_with_mods(KeyCode::Home, SHIFT)),
        Action::LogScrollHome
    );
    assert_eq!(map_key(key_with_mods(KeyCode::End, SHIFT)), Action::LogScrollEnd);
}

#[test]
fn unshifted_arrows_still_navigate_tasks() {
    // Make sure adding shift-arrow handling didn't break the
    // status-quo task-cursor behavior on plain arrows.
    assert_eq!(map_key(key(KeyCode::Up)), Action::SelectPrev);
    assert_eq!(map_key(key(KeyCode::Down)), Action::SelectNext);
    assert_eq!(map_key(key(KeyCode::Home)), Action::SelectFirst);
    assert_eq!(map_key(key(KeyCode::End)), Action::SelectLast);
}

#[test]
fn launcher_plain_letter_inserts_char() {
    assert_eq!(map_launcher_key(key(KeyCode::Char('f'))), LauncherAction::InsertChar('f'));
}

#[test]
fn launcher_ctrl_c_is_quit_not_insert() {
    assert_eq!(map_launcher_key(ctrl('c')), LauncherAction::Quit);
}

#[test]
fn launcher_ctrl_u_clears_input() {
    assert_eq!(map_launcher_key(ctrl('u')), LauncherAction::ClearInput);
}

#[test]
fn launcher_esc_clears_input() {
    assert_eq!(map_launcher_key(key(KeyCode::Esc)), LauncherAction::ClearInput);
}

#[test]
fn launcher_arrows_and_tab_route_correctly() {
    assert_eq!(map_launcher_key(key(KeyCode::Up)), LauncherAction::Up);
    assert_eq!(map_launcher_key(key(KeyCode::Down)), LauncherAction::Down);
    assert_eq!(map_launcher_key(key(KeyCode::Home)), LauncherAction::Home);
    assert_eq!(map_launcher_key(key(KeyCode::End)), LauncherAction::End);
    assert_eq!(map_launcher_key(key(KeyCode::Tab)), LauncherAction::Complete);
    assert_eq!(map_launcher_key(key(KeyCode::Backspace)), LauncherAction::Backspace);
    assert_eq!(map_launcher_key(key(KeyCode::Enter)), LauncherAction::Enter);
}

#[test]
fn launcher_unknown_keys_are_ignored() {
    assert_eq!(map_launcher_key(key(KeyCode::Other)), LauncherAction::Ignore);
    assert_eq!(map_launcher_key(key(KeyCode::Other)), LauncherAction::Ignore);
}

#[test]
fn mouse_wheel_up_scrolls_logs_up() {
    match map_mouse_to_log_scroll(MouseEventKind::ScrollUp) {
        Some(Action::LogScrollUp(n)) => assert!(n > 0),
        other => panic!("ScrollUp should yield LogScrollUp, got {:?}", other),
    }
}

#[test]
fn mouse_wheel_down_scrolls_logs_down() {
    match map_mouse_to_log_scroll(MouseEventKind::ScrollDown) {
        Some(Action::LogScrollDown(n)) => assert!(n > 0),
        other => panic!("ScrollDown should yield LogScrollDown, got {:?}", other),
    }
}

#[test]
fn mouse_clicks_and_drags_are_ignored() {
    assert!(map_mouse_to_log_scroll(MouseEventKind::Other).is_none());
}

#[test]
fn launcher_keys_count_only_when_they_go_down() {
    for kind in [KeyEventKind::Repeat, KeyEventKind::Release] {
        let event = KeyEvent { code: KeyCode::Char('f'), ctrl: false, shift: false, kind };
        assert_eq!(map_launcher_key(event), LauncherAction::Ignore);
    }
    assert_eq!(map_launcher_key(ctrl('x')), LauncherAction::Ignore);
}

#[test]
fn page_keys_and_wheel_move_by_fixed_steps() {
    assert_eq!(map_key(key(KeyCode::PageUp)), Action::LogScrollUp(10));
    assert_eq!(map_key(key(KeyCode::PageDown)), Action::LogScrollDown(10));
    assert_eq!(
        map_mouse_to_log_scroll(MouseEventKind::ScrollUp),
        Some(Action::LogScrollUp(3))
    );
    assert_eq!(map_key(key(KeyCode::Char('r'))), Action::Redraw);
    assert_eq!(map_key(key(KeyCode::Char('g'))), Action::SelectFirst);
    assert_eq!(map_key(key(KeyCode::Char('G'))), Action::SelectLast);
}
