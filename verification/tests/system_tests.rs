//! Hub, logger and controller working together: fan-out, backpressure,
//! interleaved reads, purge.

use serialtui::config::{Color, LineEnding, PortConfig};
use serialtui::event::Timestamp;
use serialtui::hub::{SendError, SerialHub, WRITER_QUEUE_CAPACITY};
use serialtui::keys::{Key, KeyInput};
use serialtui::logger::Logger;
use serialtui::ui::{Focus, Ui, UiOutcome};

fn cfg(path: &str, ending: LineEnding, color: Color) -> PortConfig {
    PortConfig { path: path.to_string(), baud_rate: 115200, line_ending: ending, color }
}

fn ts() -> Timestamp {
    Timestamp::from_millis_of_day(((12 * 3600 + 34 * 60 + 56) * 1000 + 789) as u64)
}

#[test]
fn timestamp_formats_padded() {
    assert_eq!(ts().format(), "12:34:56.789");
    assert_eq!(Timestamp::from_millis_of_day(3_723_004).format(), "01:02:03.004");
    assert_eq!(Timestamp::from_millis_of_day(0).format(), "00:00:00.000");
}

#[test]
fn hub_registry_is_sorted_and_replaces() {
    let mut hub = SerialHub::new();
    hub.open("b".to_string(), cfg("/dev/b", LineEnding::LF, Color::Reset));
    hub.open("a".to_string(), cfg("/dev/a", LineEnding::LF, Color::Reset));
    hub.open("c".to_string(), cfg("/dev/c", LineEnding::LF, Color::Reset));
    let names: Vec<String> = hub.port_names();
    assert_eq!(names, vec!["a".to_string(), "b".to_string(), "c".to_string()]);
    // Replace keeps the position and swaps the configuration.
    hub.open("b".to_string(), cfg("/dev/b2", LineEnding::CRLF, Color::Red));
    assert_eq!(hub.port_names().len(), 3);
    let got = hub.get_config("b").unwrap();
    assert_eq!(got.path, "/dev/b2");
    assert_eq!(got.line_ending, LineEnding::CRLF);
    hub.close("b");
    assert!(!hub.has_port("b"));
    assert!(hub.get_config("b").is_none());
    hub.close("b");
    assert_eq!(hub.port_names().len(), 2);
}

#[test]
fn send_fans_out_with_per_port_endings() {
    let mut hub = SerialHub::new();
    hub.open("A".to_string(), cfg("/dev/a", LineEnding::LF, Color::Green));
    hub.open("B".to_string(), cfg("/dev/b", LineEnding::CRLF, Color::Red));
    let targets = vec!["A".to_string(), "B".to_string()];
    let payload = b"on".to_vec();
    assert_eq!(hub.send(&targets, &payload), Ok(()));
    assert_eq!(hub.pop_write("A"), Some(b"on\n".to_vec()));
    assert_eq!(hub.pop_write("B"), Some(b"on\r\n".to_vec()));
    assert_eq!(hub.pop_write("A"), None);
    assert_eq!(hub.pop_write("B"), None);
}

#[test]
fn send_error_names_the_target() {
    let hub = SerialHub::new();
    let mut ui = Ui::new();
    ui.report_send_error(SendError::PortNotFound("B".to_string()), 0);
    assert_eq!(
        ui.notification_popup.message.as_deref(),
        Some("Send failed: PortNotFound: B")
    );
    drop(hub);
}

#[test]
fn send_to_unknown_port_fails() {
    let mut hub = SerialHub::new();
    hub.open("A".to_string(), cfg("/dev/a", LineEnding::LF, Color::Reset));
    let targets = vec!["A".to_string(), "Z".to_string()];
    assert_eq!(
        hub.send(&targets, &b"x".to_vec()),
        Err(SendError::PortNotFound("Z".to_string()))
    );
    // The first target was served before the walk stopped.
    assert_eq!(hub.pop_write("A"), Some(b"x\n".to_vec()));
}

#[test]
fn backpressure_on_full_queue() {
    let mut hub = SerialHub::new();
    hub.open("A".to_string(), cfg("/dev/a", LineEnding::LF, Color::Reset));
    hub.open("B".to_string(), cfg("/dev/b", LineEnding::LF, Color::Reset));
    // Saturate B's queue; nobody drains it.
    let to_b = vec!["B".to_string()];
    for _ in 0..WRITER_QUEUE_CAPACITY {
        assert_eq!(hub.send(&to_b, &b"spam".to_vec()), Ok(()));
    }
    assert_eq!(hub.send(&to_b, &b"one more".to_vec()), Err(SendError::Backpressure));
    // Sends to A keep succeeding.
    assert_eq!(hub.send(&vec!["A".to_string()], &b"fine".to_vec()), Ok(()));
    // The operator sees the failure by name.
    let mut ui = Ui::new();
    ui.report_send_error(SendError::Backpressure, 0);
    assert_eq!(ui.notification_popup.message.as_deref(), Some("Send failed: Backpressure"));
}

#[test]
fn logger_records_match_in_both_logs() {
    let mut logger = Logger::new();
    let rec = logger.handle_data("A", ts(), &b"hi\n".to_vec());
    assert_eq!(rec.port_record, "[12:34:56.789] hi\n");
    assert_eq!(rec.super_record, "[12:34:56.789] [A] hi\n");
    assert_eq!(logger.super_log.len(), 1);
    assert_eq!(logger.port_logs.len(), 1);
    assert_eq!(logger.port_logs[0].0, "A");
    assert_eq!(logger.port_logs[0].1, vec!["[12:34:56.789] hi\n".to_string()]);
}

#[test]
fn logger_decodes_lossily_and_trims() {
    let mut logger = Logger::new();
    let rec = logger.handle_data("A", ts(), &vec![0xFF, b'h', b'i', b'\r', b'\n']);
    assert_eq!(rec.port_record, "[12:34:56.789] \u{FFFD}hi\n");
}

#[test]
fn two_ports_interleaved_reads() {
    let mut ui = Ui::new();
    let mut logger = Logger::new();
    ui.on_port_data("A", ts(), &b"hi".to_vec(), Color::Green);
    ui.on_port_data("B", ts(), &b"bye".to_vec(), Color::Red);
    logger.handle_data("A", ts(), &b"hi".to_vec());
    logger.handle_data("B", ts(), &b"bye".to_vec());

    // Two display lines, one per event, carrying each port's color.
    assert_eq!(ui.display.lines.len(), 2);
    assert_eq!(ui.display.lines[0].text(), "[12:34:56.789] [A] hi");
    assert_eq!(ui.display.lines[0].spans[1].color, Color::Green);
    assert_eq!(ui.display.lines[1].text(), "[12:34:56.789] [B] bye");
    assert_eq!(ui.display.lines[1].spans[1].color, Color::Red);

    // The combined log holds both, tagged; each port log holds its own.
    assert_eq!(logger.super_log.len(), 2);
    assert_eq!(logger.super_log[0], "[12:34:56.789] [A] hi\n");
    assert_eq!(logger.super_log[1], "[12:34:56.789] [B] bye\n");
    assert_eq!(logger.port_logs.len(), 2);
    assert_eq!(logger.port_logs[0].1.len(), 1);
    assert_eq!(logger.port_logs[1].1.len(), 1);
}

#[test]
fn purge_truncates_every_log() {
    let mut logger = Logger::new();
    logger.handle_data("A", ts(), &b"one".to_vec());
    logger.handle_data("B", ts(), &b"two".to_vec());
    logger.purge();
    assert_eq!(logger.super_log.len(), 0);
    assert_eq!(logger.port_logs.len(), 2);
    assert!(logger.port_logs.iter().all(|(_, recs)| recs.is_empty()));
    // Data after a purge appends from the start again.
    logger.handle_data("A", ts(), &b"three".to_vec());
    assert_eq!(logger.super_log.len(), 1);
    assert_eq!(logger.port_logs[0].1.len(), 1);
}

fn type_text(ui: &mut Ui, text: &str, ports: &Vec<(String, PortConfig)>) {
    for c in text.chars() {
        let _ = ui.handle_key(KeyInput::plain(Key::Char(c)), 0, ports);
    }
}

#[test]
fn send_command_resolves_targets() {
    let mut hub = SerialHub::new();
    hub.open("A".to_string(), cfg("/dev/a", LineEnding::LF, Color::Reset));
    hub.open("B".to_string(), cfg("/dev/b", LineEnding::CRLF, Color::Reset));
    let ports = hub.list_ports();
    let mut ui = Ui::new();
    ui.send_group_popup.toggle_name("A");
    ui.send_group_popup.toggle_name("B");
    assert_eq!(ui.focus, Focus::InputBar);
    type_text(&mut ui, "on", &ports);
    let outcome = ui.handle_key(KeyInput::plain(Key::Enter), 0, &ports);
    match outcome {
        UiOutcome::SendTo { targets, payload } => {
            assert_eq!(targets, vec!["A".to_string(), "B".to_string()]);
            assert_eq!(payload, b"on".to_vec());
            assert_eq!(hub.send(&targets, &payload), Ok(()));
        }
        _ => panic!("expected a send"),
    }
    // The buffer was cleared by the send.
    assert_eq!(ui.input_bar.text(), "");
    assert_eq!(hub.pop_write("A"), Some(b"on\n".to_vec()));
    assert_eq!(hub.pop_write("B"), Some(b"on\r\n".to_vec()));
}

#[test]
fn send_with_no_targets_complains() {
    let ports = vec![];
    let mut ui = Ui::new();
    type_text(&mut ui, "hello", &ports);
    match ui.handle_key(KeyInput::plain(Key::Enter), 0, &ports) {
        UiOutcome::Idle => {}
        _ => panic!("expected no outward work"),
    }
    assert_eq!(ui.notification_popup.message.as_deref(), Some("No ports selected"));
}

#[test]
fn local_commands_act_locally() {
    let ports = vec![];
    let mut ui = Ui::new();
    ui.on_port_data("A", ts(), &b"x".to_vec(), Color::Reset);
    type_text(&mut ui, "/clear", &ports);
    match ui.handle_key(KeyInput::plain(Key::Enter), 0, &ports) {
        UiOutcome::Idle => {}
        _ => panic!(),
    }
    assert_eq!(ui.display.lines.len(), 0);

    type_text(&mut ui, "/help", &ports);
    let _ = ui.handle_key(KeyInput::plain(Key::Enter), 0, &ports);
    assert!(ui.help_popup.visible);

    // The help popup now captures keys; close it again.
    let _ = ui.handle_key(KeyInput::plain(Key::Esc), 0, &ports);
    assert!(!ui.help_popup.visible);
    assert!(!ui.exit);

    type_text(&mut ui, "/purge", &ports);
    match ui.handle_key(KeyInput::plain(Key::Enter), 0, &ports) {
        UiOutcome::PurgeLogs => {}
        _ => panic!("expected a purge"),
    }
}

#[test]
fn focus_cycles_and_esc_exits() {
    let ports = vec![];
    let mut ui = Ui::new();
    assert_eq!(ui.focus, Focus::InputBar);
    let _ = ui.handle_key(KeyInput::plain(Key::Tab), 0, &ports);
    assert_eq!(ui.focus, Focus::ConfigBar);
    let _ = ui.handle_key(KeyInput::plain(Key::Tab), 0, &ports);
    assert_eq!(ui.focus, Focus::Display);
    let _ = ui.handle_key(KeyInput::plain(Key::Tab), 0, &ports);
    assert_eq!(ui.focus, Focus::InputBar);
    assert!(!ui.exit);
    let _ = ui.handle_key(KeyInput::plain(Key::Esc), 0, &ports);
    assert!(ui.exit);
}

#[test]
fn search_capture_shields_global_keys() {
    let ports = vec![];
    let mut ui = Ui::new();
    ui.on_port_data("A", ts(), &b"alpha".to_vec(), Color::Reset);
    let _ = ui.handle_key(KeyInput::plain(Key::Tab), 0, &ports);
    let _ = ui.handle_key(KeyInput::plain(Key::Tab), 0, &ports);
    assert_eq!(ui.focus, Focus::Display);
    let _ = ui.handle_key(KeyInput::plain(Key::Char('/')), 0, &ports);
    assert!(ui.display.search_mode);
    // Escape cancels the search instead of quitting.
    let _ = ui.handle_key(KeyInput::plain(Key::Esc), 0, &ports);
    assert!(!ui.display.search_mode);
    assert!(!ui.exit);
}

#[test]
fn question_mark_toggles_help() {
    let ports = vec![];
    let mut ui = Ui::new();
    let _ = ui.handle_key(KeyInput::plain(Key::Char('?')), 0, &ports);
    assert!(ui.help_popup.visible);
    let _ = ui.handle_key(KeyInput::plain(Key::Char('?')), 0, &ports);
    assert!(!ui.help_popup.visible);
}

#[test]
fn notification_times_out_by_length() {
    let mut ui = Ui::new();
    ui.on_notification("hi".to_string(), 1000);
    assert!(ui.notification_popup.is_visible());
    // Base 1500 ms plus 50 ms for each of the two characters.
    ui.notification_popup.tick(1000 + 1599);
    assert!(ui.notification_popup.is_visible());
    ui.notification_popup.tick(1000 + 1600);
    assert!(!ui.notification_popup.is_visible());
}
