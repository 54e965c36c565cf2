//! The controller: owns the widgets and popups, routes each key press by
//! focus and popup visibility, consumes port events into the display, and
//! hands outward work (sending, purging) back to the caller as outcomes.

use vstd::prelude::*;

use crate::config::{Color, PortConfig};
use crate::display::{DisplayAction, DisplayBuffer, DisplayLine, Span};
use crate::event::Timestamp;
use crate::hub::SendError;
use crate::input::{InputBar, InputBarAction};
use crate::keys::{Key, KeyInput};
use crate::popup::{HelpPopup, Notification, PortListPopup, SendGroupPopup};
use crate::text::{lossy_of, str_eq, utf8_lossy};
use vstd::string::StrSliceExecFns;

verus! {

/// Which widget keyboard input goes to.
#[derive(Clone, Copy, Debug, PartialEq, Eq, Structural)]
pub enum Focus {
    ConfigBar,
    Display,
    InputBar,
}

/// What the configuration bar asks of its owner.
#[derive(Debug)]
pub enum ConfigAction {
    /// Show this message to the operator.
    Notify(String),
    /// Open the port list popup.
    OpenPorts,
    /// Open the add-port dialog.
    AddPort,
}

/// The top bar with port-control shortcuts.
#[derive(Debug)]
pub struct ConfigBar {
}

impl ConfigBar {
    /// Creates a new configuration bar.
    pub fn new() -> (r: ConfigBar) {
        ConfigBar {  }
    }

    /// Handles one key press while focused: `p` opens the port list, `a`
    /// asks for the add-port dialog.
    pub fn handle_key(&mut self, key: KeyInput) -> (r: Option<ConfigAction>)
        ensures
            key.key == Key::Char('p') ==> r matches Some(ConfigAction::OpenPorts),
            key.key == Key::Char('a') ==> r matches Some(ConfigAction::AddPort),
            !(key.key == Key::Char('p') || key.key == Key::Char('a')) ==> r is None,
    {
        match key.key {
            Key::Char('p') => Some(ConfigAction::OpenPorts),
            Key::Char('a') => Some(ConfigAction::AddPort),
            _ => None,
        }
    }
}

/// Control held alone: the chord that opens the target selector.
pub open spec fn ctrl_space(k: KeyInput) -> bool {
    k.ctrl && !k.shift && k.key == Key::Char(' ')
}

/// Work the controller hands back to its caller after a key press.
#[derive(Debug)]
pub enum UiOutcome {
    /// Nothing outward to do.
    Idle,
    /// Send `payload` to each named target, in order.
    SendTo { targets: Vec<String>, payload: Vec<u8> },
    /// Truncate all log files.
    PurgeLogs,
}

/// The controller's state: the three widgets, the popups, the focus, the
/// cached display height, and the exit flag.
pub struct Ui {
    pub config_bar: ConfigBar,
    pub display: DisplayBuffer,
    pub input_bar: InputBar,
    pub port_list_popup: PortListPopup,
    pub send_group_popup: SendGroupPopup,
    pub notification_popup: Notification,
    pub help_popup: HelpPopup,
    pub focus: Focus,
    pub display_height: usize,
    pub exit: bool,
}

impl Ui {
    /// The display and the target set hold their invariants.
    pub open spec fn wf(&self) -> bool {
        &&& self.display.wf()
        &&& self.send_group_popup.wf()
    }

    /// Creates the controller with empty widgets; the input bar has focus.
    pub fn new() -> (r: Ui)
        ensures
            r.wf(),
            r.focus == Focus::InputBar,
            !r.exit,
            r.display.lines_spec().len() == 0,
            r.input_bar.input@.len() == 0,
            r.send_group_popup.selected@.len() == 0,
            !r.help_popup.visible,
            !r.port_list_popup.visible,
            !r.send_group_popup.visible,
            r.notification_popup.message is None,
    {
        Ui {
            config_bar: ConfigBar::new(),
            display: DisplayBuffer::new(),
            input_bar: InputBar::new(),
            port_list_popup: PortListPopup::new(),
            send_group_popup: SendGroupPopup::new(),
            notification_popup: Notification::new(),
            help_popup: HelpPopup::new(),
            focus: Focus::InputBar,
            display_height: 0,
            exit: false,
        }
    }

    /// The focus after one Tab press.
    pub open spec fn next_focus(f: Focus) -> Focus {
        match f {
            Focus::ConfigBar => Focus::Display,
            Focus::Display => Focus::InputBar,
            Focus::InputBar => Focus::ConfigBar,
        }
    }

    /// Moves focus to the next widget in order.
    pub fn cycle_focus(&mut self)
        ensures
            final(self).focus == Self::next_focus(old(self).focus),
            *final(self) == (Ui { focus: final(self).focus, ..*old(self) }),
    {
        self.focus = match self.focus {
            Focus::ConfigBar => Focus::Display,
            Focus::Display => Focus::InputBar,
            Focus::InputBar => Focus::ConfigBar,
        };
    }

    /// Records the display's content height for key handling; the caller
    /// measures it when drawing.
    pub fn set_display_height(&mut self, height: usize)
        ensures
            *final(self) == (Ui { display_height: height, ..*old(self) }),
    {
        self.display_height = height;
    }

    /// Consumes one data event: builds the styled line — the bracketed
    /// timestamp, the port name in the port's color, then the text, decoded
    /// lossily — and pushes it into the display.
    pub fn on_port_data(&mut self, port: &str, timestamp: Timestamp, data: &Vec<u8>, color: Color)
        requires
            old(self).wf(),
            timestamp.wf(),
        ensures
            final(self).wf(),
            ({
                let lines = final(self).display.lines_spec();
                let line = lines.last();
                &&& lines == DisplayBuffer::spec_push_lines(
                    old(self).display.lines_spec(),
                    lines.last(),
                )
                &&& line.spans@.len() == 3
                &&& line.spans@[0].text@ == seq!['['] + timestamp.text_spec() + "] "@
                &&& line.spans@[0].color == Color::Reset
                &&& line.spans@[1].text@ == seq!['['] + port@ + seq![']']
                &&& line.spans@[1].color == color
                &&& line.spans@[2].text@ == seq![' '] + lossy_of(data@)
                &&& line.spans@[2].color == Color::Reset
                &&& final(self).display.cursor_spec() == lines.len() - 1
            }),
            *final(self) == (Ui { display: final(self).display, ..*old(self) }),
    {
        proof {
            reveal_strlit("[");
            reveal_strlit("] ");
            reveal_strlit("]");
            reveal_strlit(" ");
        }
        let mut head = "[".to_owned();
        head.append(timestamp.format().as_str());
        head.append("] ");
        let mut tag = "[".to_owned();
        tag.append(port);
        tag.append("]");
        let mut body = " ".to_owned();
        body.append(utf8_lossy(data).as_str());
        proof {
            assert(head@ =~= seq!['['] + timestamp.text_spec() + "] "@);
            assert(tag@ =~= seq!['['] + port@ + seq![']']);
            assert(body@ =~= seq![' '] + lossy_of(data@));
        }
        let mut spans: Vec<Span> = Vec::new();
        spans.push(Span::new(head, Color::Reset));
        spans.push(Span::new(tag, color));
        spans.push(Span::new(body, Color::Reset));
        let line = DisplayLine::new(spans);
        self.display.push_line(line);
    }

    /// Shows an out-of-band message to the operator.
    pub fn on_notification(&mut self, msg: String, now_ms: u64)
        requires
            old(self).wf(),
        ensures
            final(self).wf(),
            final(self).notification_popup.message matches Some(m) && m@ == msg@,
            *final(self) == (Ui {
                notification_popup: final(self).notification_popup,
                ..*old(self)
            }),
    {
        self.notification_popup.show(msg, now_ms);
    }

    /// Shows the failure of a send the caller performed, in the operator's
    /// terms.
    pub fn report_send_error(&mut self, err: SendError, now_ms: u64)
        requires
            old(self).wf(),
        ensures
            final(self).wf(),
            final(self).notification_popup.message matches Some(m) && m@ == "Send failed: "@
                + err.message_spec(),
            *final(self) == (Ui {
                notification_popup: final(self).notification_popup,
                ..*old(self)
            }),
    {
        proof {
            reveal_strlit("Send failed: ");
        }
        let mut m = "Send failed: ".to_owned();
        m.append(err.message().as_str());
        self.notification_popup.show(m, now_ms);
    }

    /// Routes one key press: a search capture goes to the display whole; a
    /// visible popup consumes the key; then the global keys (Escape exits,
    /// Tab cycles focus, `?` toggles help); then the focused widget, whose
    /// returned action is carried out here. The send command resolves the
    /// target set, complains when it is empty, and hands the payload out;
    /// the `/clear`, `/help` and `/purge` commands are handled locally.
    pub fn handle_key(&mut self, key: KeyInput, now_ms: u64, ports: &Vec<(String, PortConfig)>)
        -> (r: UiOutcome)
        requires
            old(self).wf(),
        ensures
            final(self).wf(),
            ({
                let capture = old(self).focus == Focus::Display && old(self).display.search_mode_spec();
                let popup_tier = !capture && (old(self).help_popup.visible || old(self).port_list_popup.visible || old(self).send_group_popup.visible);
                let global = !capture && !popup_tier;
                let h = old(self).display_height as int;
                let widget_tier = global && key.key != Key::Esc && key.key != Key::Tab && key.key
                    != Key::Char('?');
                &&& final(self).exit == (old(self).exit || (global && key.key == Key::Esc))
                &&& (capture ==> (r is Idle) && DisplayBuffer::key_step(
                    old(self).display,
                    final(self).display,
                    key,
                    h,
                    None,
                ) && final(self).focus == old(self).focus && final(self).input_bar.input@ == old(self).input_bar.input@)
                &&& (popup_tier ==> (r is Idle) && final(self).display == old(self).display
                    && final(self).focus == old(self).focus && final(self).input_bar.input@
                    == old(self).input_bar.input@)
                &&& (global && key.key == Key::Tab ==> (r is Idle) && final(self).focus
                    == Self::next_focus(old(self).focus) && final(self).display == old(self).display)
                &&& (global && key.key == Key::Char('?') ==> (r is Idle) && final(self).help_popup.visible == !old(self).help_popup.visible && final(self).display
                    == old(self).display)
                &&& (widget_tier && old(self).focus == Focus::ConfigBar ==> (r is Idle) && final(self).display == old(self).display && final(self).input_bar.input@ == old(self).input_bar.input@ && final(self).focus == old(self).focus && final(self).help_popup == old(self).help_popup && final(self).send_group_popup.selected@
                    == old(self).send_group_popup.selected@ && final(self).notification_popup.message == old(self).notification_popup.message && (key.key
                    == Key::Char('p') ==> final(self).port_list_popup.visible == !old(self).port_list_popup.visible) && (key.key != Key::Char('p') ==> final(self).port_list_popup == old(self).port_list_popup))
                &&& (widget_tier && old(self).focus == Focus::Display ==> exists|
                    a: Option<DisplayAction>,
                |
                    {
                        &&& #[trigger] DisplayBuffer::key_step(
                            old(self).display,
                            final(self).display,
                            key,
                            h,
                            a,
                        )
                        &&& match a {
                            None => final(self).focus == old(self).focus && (r is Idle),
                            Some(DisplayAction::FocusInput) => final(self).focus
                                == Focus::InputBar && (r is Idle),
                            Some(DisplayAction::Notify(m)) => (final(self).notification_popup.message matches Some(mm) && mm@ == m@) && (
                            r is Idle),
                        }
                    })
                &&& (widget_tier && old(self).focus == Focus::InputBar ==> {
                    let text = old(self).input_bar.input@;
                    &&& (ctrl_space(key) ==> (r is Idle) && final(self).send_group_popup.visible
                        == !old(self).send_group_popup.visible && final(self).input_bar.input@
                        == text)
                    &&& (!ctrl_space(key) && key.key == Key::Enter && text.len() > 0 ==> {
                        &&& final(self).input_bar.input@.len() == 0
                        &&& (text == "/clear"@ ==> final(self).display.lines_spec().len() == 0
                            && (r is Idle))
                        &&& (text == "/help"@ ==> final(self).help_popup.visible == !old(self).help_popup.visible && (r is Idle))
                        &&& (text == "/purge"@ ==> (r is PurgeLogs))
                        &&& (!(text == "/clear"@ || text == "/help"@ || text == "/purge"@) ==> {
                            if old(self).send_group_popup.selected@.len() == 0 {
                                (r is Idle) && (final(self).notification_popup.message matches
                                Some(m) && m@ == "No ports selected"@)
                            } else {
                                r matches UiOutcome::SendTo { targets, payload } && payload@
                                    == vstd::utf8::encode_utf8(text) && targets@.len() == old(self).send_group_popup.selected@.len() && (forall|i: int|
                                    0 <= i < targets@.len() ==> (#[trigger] targets@[i])@ == old(self).send_group_popup.selected@[i]@)
                            }
                        })
                    })
                    &&& (!ctrl_space(key) && key.key == Key::Enter && text.len() == 0 ==> (
                    r is Idle) && final(self).input_bar.input@ == text)
                    &&& (forall|c: char|
                        !ctrl_space(key) && key.key == Key::Char(c) ==> (r is Idle) && final(self).input_bar.input@ == text.push(c))
                    &&& (key.key == Key::Backspace ==> (r is Idle) && final(self).input_bar.input@ == (if text.len() > 0 {
                        text.drop_last()
                    } else {
                        text
                    }))
                })
            }),
    {
        let height = if self.display_height > 0 {
            self.display_height
        } else {
            0
        };
        // Search capture: while the display is reading the query, it sees
        // every key, the global keys included.
        if self.focus == Focus::Display && self.display.in_search_mode() {
            let _ = self.display.handle_key(key, height);
            return UiOutcome::Idle;
        }
        // Popups capture all input while visible.
        if self.help_popup.visible {
            self.help_popup.handle_key(key);
            return UiOutcome::Idle;
        }
        if self.port_list_popup.visible {
            let _ = self.port_list_popup.handle_key(key, ports);
            return UiOutcome::Idle;
        }
        if self.send_group_popup.visible {
            let _ = self.send_group_popup.handle_key(key, ports);
            return UiOutcome::Idle;
        }
        // Global keys.
        if key.key == Key::Esc {
            self.exit = true;
            return UiOutcome::Idle;
        }
        if key.key == Key::Tab {
            self.cycle_focus();
            return UiOutcome::Idle;
        }
        if key.key == Key::Char('?') {
            self.help_popup.toggle();
            return UiOutcome::Idle;
        }
        // The focused widget.
        match self.focus {
            Focus::ConfigBar => {
                match self.config_bar.handle_key(key) {
                    Some(ConfigAction::OpenPorts) => {
                        self.port_list_popup.toggle();
                    },
                    Some(ConfigAction::Notify(msg)) => {
                        self.notification_popup.show(msg, now_ms);
                    },
                    Some(ConfigAction::AddPort) => {},
                    None => {},
                }
                UiOutcome::Idle
            },
            Focus::Display => {
                match self.display.handle_key(key, height) {
                    Some(DisplayAction::FocusInput) => {
                        self.focus = Focus::InputBar;
                    },
                    Some(DisplayAction::Notify(msg)) => {
                        self.notification_popup.show(msg, now_ms);
                    },
                    None => {},
                }
                UiOutcome::Idle
            },
            Focus::InputBar => {
                match self.input_bar.handle_key(key) {
                    Some(InputBarAction::OpenSendGroup) => {
                        self.send_group_popup.toggle();
                        UiOutcome::Idle
                    },
                    Some(InputBarAction::Send(text)) => self.dispatch_send(text, now_ms),
                    None => UiOutcome::Idle,
                }
            },
        }
    }

    /// Carries out a committed input line: the local commands `/clear`,
    /// `/help` and `/purge` act here; anything else goes to the selected
    /// ports, or draws a complaint when none are selected.
    fn dispatch_send(&mut self, text: String, now_ms: u64) -> (r: UiOutcome)
        requires
            old(self).wf(),
        ensures
            final(self).wf(),
            final(self).exit == old(self).exit,
            final(self).input_bar.input@ == old(self).input_bar.input@,
            final(self).focus == old(self).focus,
            text@ == "/clear"@ ==> final(self).display.lines_spec().len() == 0 && (r is Idle),
            text@ == "/help"@ ==> final(self).help_popup.visible == !old(self).help_popup.visible
                && (r is Idle),
            text@ == "/purge"@ ==> (r is PurgeLogs),
            !(text@ == "/clear"@ || text@ == "/help"@ || text@ == "/purge"@) ==> {
                if old(self).send_group_popup.selected@.len() == 0 {
                    (r is Idle) && (final(self).notification_popup.message matches Some(m) && m@
                        == "No ports selected"@)
                } else {
                    r matches UiOutcome::SendTo { targets, payload } && payload@
                        == vstd::utf8::encode_utf8(text@) && targets@.len() == old(self).send_group_popup.selected@.len() && (forall|i: int|
                        0 <= i < targets@.len() ==> (#[trigger] targets@[i])@ == old(self).send_group_popup.selected@[i]@)
                }
            },
    {
        proof {
            reveal_strlit("/clear");
            reveal_strlit("/help");
            reveal_strlit("/purge");
            assert("/clear"@.len() == 6 && "/help"@.len() == 5 && "/purge"@.len() == 6);
            assert("/clear"@ != "/help"@ && "/purge"@ != "/help"@);
            assert("/clear"@ != "/purge"@) by {
                assert("/clear"@[1] == 'c' && "/purge"@[1] == 'p');
            }
        }
        if str_eq(text.as_str(), "/clear") {
            self.display.clear();
            return UiOutcome::Idle;
        }
        if str_eq(text.as_str(), "/help") {
            self.help_popup.toggle();
            return UiOutcome::Idle;
        }
        if str_eq(text.as_str(), "/purge") {
            return UiOutcome::PurgeLogs;
        }
        let targets = self.send_group_popup.get_selected();
        if targets.len() == 0 {
            proof {
                reveal_strlit("No ports selected");
            }
            self.notification_popup.show("No ports selected".to_owned(), now_ms);
            return UiOutcome::Idle;
        }
        let payload = text.as_str().as_bytes_vec();
        UiOutcome::SendTo { targets, payload }
    }
}

} // verus!
