//! Widgets and popups: input editing, target selection, list wrap-around,
//! centered placement, reader policy.

use serialtui::config::{Color, LineEnding, PortConfig};
use serialtui::event::{reader_step, PortEvent, ReadOutcome, ReaderAction, Timestamp};
use serialtui::input::{InputBar, InputBarAction};
use serialtui::keys::{Key, KeyInput};
use serialtui::notify::NotifyLevel;
use serialtui::popup::{
    select_next, select_prev, HelpPopup, PortListPopup, Rect, SendGroupPopup,
};

fn cfg(path: &str) -> PortConfig {
    PortConfig {
        path: path.to_string(),
        baud_rate: 115200,
        line_ending: LineEnding::LF,
        color: Color::Reset,
    }
}

fn ports_ab() -> Vec<(String, PortConfig)> {
    vec![("A".to_string(), cfg("/dev/a")), ("B".to_string(), cfg("/dev/b"))]
}

#[test]
fn input_bar_edits_and_sends() {
    let mut bar = InputBar::new();
    assert!(bar.handle_key(KeyInput::plain(Key::Enter)).is_none());
    for c in "hey".chars() {
        assert!(bar.handle_key(KeyInput::plain(Key::Char(c))).is_none());
    }
    assert_eq!(bar.text(), "hey");
    assert!(bar.handle_key(KeyInput::plain(Key::Backspace)).is_none());
    assert_eq!(bar.text(), "he");
    match bar.handle_key(KeyInput::plain(Key::Enter)) {
        Some(InputBarAction::Send(t)) => assert_eq!(t, "he"),
        _ => panic!("expected a send"),
    }
    assert_eq!(bar.text(), "");
    match bar.handle_key(KeyInput::with_ctrl(Key::Char(' '))) {
        Some(InputBarAction::OpenSendGroup) => {}
        _ => panic!("expected the selector"),
    }
}

#[test]
fn select_helpers_wrap() {
    let mut i: usize = 0;
    select_next(&mut i, 3);
    assert_eq!(i, 1);
    select_next(&mut i, 3);
    select_next(&mut i, 3);
    assert_eq!(i, 0);
    select_prev(&mut i, 3);
    assert_eq!(i, 2);
    select_prev(&mut i, 3);
    assert_eq!(i, 1);
    let before = i;
    select_next(&mut i, 0);
    assert_eq!(i, before);
}

#[test]
fn send_group_selection_persists_and_sorts() {
    let ports = ports_ab();
    let mut sg = SendGroupPopup::new();
    sg.toggle();
    assert!(sg.visible);
    // Space on the highlighted port toggles membership.
    let _ = sg.handle_key(KeyInput::plain(Key::Char(' ')), &ports);
    assert!(sg.is_selected("A"));
    let _ = sg.handle_key(KeyInput::plain(Key::Esc), &ports);
    assert!(!sg.visible);
    // The selection survives close and reopen.
    assert!(sg.is_selected("A"));
    sg.toggle_name("B");
    sg.toggle_name("0");
    assert_eq!(
        sg.get_selected(),
        vec!["0".to_string(), "A".to_string(), "B".to_string()]
    );
    sg.toggle_name("A");
    assert!(!sg.is_selected("A"));
    assert_eq!(sg.get_selected(), vec!["0".to_string(), "B".to_string()]);
}

#[test]
fn select_all_selects_every_port() {
    let ports = ports_ab();
    let mut sg = SendGroupPopup::new();
    sg.select_all(&ports);
    assert!(sg.is_selected("A"));
    assert!(sg.is_selected("B"));
}

#[test]
fn port_list_selects_by_cursor() {
    let ports = ports_ab();
    let mut pl = PortListPopup::new();
    pl.toggle();
    let _ = pl.handle_key(KeyInput::plain(Key::Down), &ports);
    match pl.handle_key(KeyInput::plain(Key::Enter), &ports) {
        Some(serialtui::popup::PortListAction::Select(n)) => assert_eq!(n, "B"),
        _ => panic!("expected a selection"),
    }
    match pl.handle_key(KeyInput::plain(Key::Esc), &ports) {
        Some(serialtui::popup::PortListAction::Close) => {}
        _ => panic!("expected a close"),
    }
    assert!(!pl.visible);
}

#[test]
fn help_popup_scrolls_and_closes() {
    let mut h = HelpPopup::new();
    h.toggle();
    assert!(h.visible);
    h.handle_key(KeyInput::plain(Key::Char('j')));
    h.handle_key(KeyInput::plain(Key::Down));
    assert_eq!(h.scroll, 2);
    h.handle_key(KeyInput::plain(Key::Char('k')));
    assert_eq!(h.scroll, 1);
    h.handle_key(KeyInput::plain(Key::Char('?')));
    assert!(!h.visible);
}

#[test]
fn popup_area_is_centered() {
    let p = serialtui::popup::Popup::new(40, 50);
    let frame = Rect { x: 0, y: 0, width: 100, height: 40 };
    let area = p.area(frame);
    assert_eq!(area.width, 40);
    assert_eq!(area.height, 20);
    assert_eq!(area.x, 30);
    assert_eq!(area.y, 10);
}

#[test]
fn reader_policy() {
    let ts = Timestamp::from_millis_of_day(0);
    match reader_step("A", ts, ReadOutcome::TimedOut) {
        ReaderAction::Continue => {}
        _ => panic!("a timeout loops"),
    }
    match reader_step("A", ts, ReadOutcome::Data(b"chunk".to_vec())) {
        ReaderAction::Emit(PortEvent::Data { port, data, .. }) => {
            assert_eq!(port, "A");
            assert_eq!(data, b"chunk".to_vec());
        }
        _ => panic!("data is emitted"),
    }
    match reader_step("A", ts, ReadOutcome::Failed("gone".to_string())) {
        ReaderAction::EmitAndStop(PortEvent::Notification { port, level, message }) => {
            assert_eq!(port, "A");
            assert_eq!(level, NotifyLevel::Error);
            assert_eq!(message, "read error: gone");
        }
        _ => panic!("a failure stops the reader"),
    }
}
