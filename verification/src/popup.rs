//! Modal popups and the toast notification: centered placement, list
//! navigation with wrap-around, the persistent send-target set, and the
//! timed notification overlay. Drawing belongs to the caller; these types
//! hold the state and the arithmetic.

use vstd::prelude::*;

use crate::config::PortConfig;
use crate::keys::{Key, KeyInput};
use crate::text::{lex_lt, lemma_lex_lt_trichotomy, str_eq, str_lt};

verus! {

/// A rectangle of terminal cells.
#[derive(Clone, Copy, Debug, PartialEq, Eq, Structural)]
pub struct Rect {
    pub x: u16,
    pub y: u16,
    pub width: u16,
    pub height: u16,
}

/// Centered placement of a popup, as percentages of the screen.
#[derive(Clone, Copy, Debug, PartialEq, Eq, Structural)]
pub struct Popup {
    pub width_percent: u16,
    pub height_percent: u16,
}

impl Popup {
    /// Creates a popup with the given screen-percentage dimensions.
    pub fn new(width_percent: u16, height_percent: u16) -> (r: Popup)
        requires
            width_percent <= 100,
            height_percent <= 100,
        ensures
            r.width_percent == width_percent,
            r.height_percent == height_percent,
    {
        Popup { width_percent, height_percent }
    }

    /// The centered rectangle this popup occupies within `frame`.
    pub fn area(&self, frame: Rect) -> (r: Rect)
        requires
            self.width_percent <= 100,
            self.height_percent <= 100,
            frame.x + frame.width <= u16::MAX,
            frame.y + frame.height <= u16::MAX,
        ensures
            r.width == frame.width * self.width_percent / 100,
            r.height == frame.height * self.height_percent / 100,
            r.x == frame.x + (frame.width - r.width) / 2,
            r.y == frame.y + (frame.height - r.height) / 2,
    {
        proof {
            assert((frame.width as int) * (self.width_percent as int) <= 65535 * 100
                && (frame.width as int) * (self.width_percent as int) / 100 <= frame.width as int
                && (frame.width as int) * (self.width_percent as int) >= 0) by (nonlinear_arith)
                requires
                    frame.width <= 65535,
                    self.width_percent <= 100,
            ;
            assert((frame.height as int) * (self.height_percent as int) <= 65535 * 100
                && (frame.height as int) * (self.height_percent as int) / 100
                <= frame.height as int && (frame.height as int) * (self.height_percent as int)
                >= 0) by (nonlinear_arith)
                requires
                    frame.height <= 65535,
                    self.height_percent <= 100,
            ;
        }
        let w = ((frame.width as u32) * (self.width_percent as u32) / 100) as u16;
        let h = ((frame.height as u32) * (self.height_percent as u32) / 100) as u16;
        let x = frame.x + (frame.width - w) / 2;
        let y = frame.y + (frame.height - h) / 2;
        Rect { x, y, width: w, height: h }
    }
}

/// Where a wrapping step forward moves a list cursor.
pub open spec fn spec_select_next(selected: int, len: int) -> int {
    if len == 0 {
        selected
    } else if selected + 1 < len {
        selected + 1
    } else {
        0
    }
}

/// Where a wrapping step backward moves a list cursor.
pub open spec fn spec_select_prev(selected: int, len: int) -> int {
    if len == 0 {
        selected
    } else if selected == 0 || selected >= len {
        len - 1
    } else {
        selected - 1
    }
}

/// Moves a list cursor to the next item, wrapping past the end; an empty
/// list leaves it alone.
pub fn select_next(selected: &mut usize, len: usize)
    ensures
        *final(selected) == spec_select_next(*old(selected) as int, len as int),
{
    if len == 0 {
        return ;
    }
    if *selected < len - 1 {
        *selected = *selected + 1;
    } else {
        *selected = 0;
    }
}

/// Moves a list cursor to the previous item, wrapping past the start; an
/// empty list leaves it alone.
pub fn select_prev(selected: &mut usize, len: usize)
    ensures
        *final(selected) == spec_select_prev(*old(selected) as int, len as int),
{
    if len == 0 {
        return ;
    }
    if *selected == 0 || *selected >= len {
        *selected = len - 1;
    } else {
        *selected = *selected - 1;
    }
}

/// What the port-list popup asks of its owner.
#[derive(Debug)]
pub enum PortListAction {
    /// The highlighted port was chosen.
    Select(String),
    /// The popup was closed.
    Close,
}

/// The read-only list of configured ports.
#[derive(Debug)]
pub struct PortListPopup {
    pub popup: Popup,
    pub selected: usize,
    pub visible: bool,
}

impl PortListPopup {
    /// Creates a new hidden port list.
    pub fn new() -> (r: PortListPopup)
        ensures
            r.selected == 0,
            !r.visible,
            r.popup.width_percent <= 100,
            r.popup.height_percent <= 100,
    {
        PortListPopup { popup: Popup::new(40, 50), selected: 0, visible: false }
    }

    /// Toggles visibility, resetting the cursor on open.
    pub fn toggle(&mut self)
        ensures
            final(self).visible == !old(self).visible,
            final(self).visible ==> final(self).selected == 0,
            !final(self).visible ==> final(self).selected == old(self).selected,
            final(self).popup == old(self).popup,
    {
        self.visible = !self.visible;
        if self.visible {
            self.selected = 0;
        }
    }

    /// Handles one key press while visible: Escape closes, j/k and the
    /// arrows move the cursor with wrap-around, Enter picks the highlighted
    /// port.
    pub fn handle_key(&mut self, key: KeyInput, ports: &Vec<(String, PortConfig)>) -> (r: Option<
        PortListAction,
    >)
        ensures
            key.key == Key::Esc ==> !final(self).visible && final(self).selected == old(self).selected && final(self).popup == old(self).popup && (r matches Some(
                PortListAction::Close,
            )),
            !(key.key == Key::Esc || key.key == Key::Up || key.key == Key::Down || key.key
                == Key::Char('k') || key.key == Key::Char('j') || key.key == Key::Enter) ==> (
            r is None) && *final(self) == *old(self),
            (key.key == Key::Up || key.key == Key::Char('k')) ==> (r is None) && final(self).visible == old(self).visible && final(self).selected == spec_select_prev(
                old(self).selected as int,
                ports@.len() as int,
            ),
            (key.key == Key::Down || key.key == Key::Char('j')) ==> (r is None) && final(self).visible == old(self).visible && final(self).selected == spec_select_next(
                old(self).selected as int,
                ports@.len() as int,
            ),
            key.key == Key::Enter ==> *final(self) == *old(self) && (if old(self).selected
                < ports@.len() {
                r matches Some(PortListAction::Select(n)) && n@ == ports@[
                    old(self).selected as int].0@
            } else {
                r is None
            }),
    {
        match key.key {
            Key::Esc => {
                self.visible = false;
                Some(PortListAction::Close)
            },
            Key::Up => {
                select_prev(&mut self.selected, ports.len());
                None
            },
            Key::Char('k') => {
                select_prev(&mut self.selected, ports.len());
                None
            },
            Key::Down => {
                select_next(&mut self.selected, ports.len());
                None
            },
            Key::Char('j') => {
                select_next(&mut self.selected, ports.len());
                None
            },
            Key::Enter => {
                if self.selected < ports.len() {
                    Some(PortListAction::Select(ports[self.selected].0.clone()))
                } else {
                    None
                }
            },
            _ => None,
        }
    }
}

/// What the send-group popup asks of its owner.
#[derive(Debug)]
pub enum SendGroupAction {
    /// The popup was closed; the selection persists.
    Close,
}

/// The target-set selector: which ports the next send goes to. The set
/// persists across popup open and close.
#[derive(Debug)]
pub struct SendGroupPopup {
    pub popup: Popup,
    pub cursor: usize,
    /// The selected port names, strictly ascending.
    pub selected: Vec<String>,
    pub visible: bool,
}

impl SendGroupPopup {
    /// The selection is sorted strictly ascending, so membership is unique
    /// and the send order is deterministic.
    pub open spec fn wf(&self) -> bool {
        forall|i: int, j: int|
            0 <= i < j < self.selected@.len() ==> lex_lt(
                (#[trigger] self.selected@[i])@,
                (#[trigger] self.selected@[j])@,
            )
    }

    /// The name `n` is in the target set.
    pub open spec fn has_spec(&self, n: Seq<char>) -> bool {
        exists|i: int| 0 <= i < self.selected@.len() && (#[trigger] self.selected@[i])@ == n
    }

    /// Creates a new hidden selector with an empty target set.
    pub fn new() -> (r: SendGroupPopup)
        ensures
            r.wf(),
            r.selected@.len() == 0,
            r.cursor == 0,
            !r.visible,
    {
        SendGroupPopup { popup: Popup::new(35, 50), cursor: 0, selected: Vec::new(), visible: false }
    }

    /// Toggles visibility, resetting the cursor on open; the target set is
    /// kept.
    pub fn toggle(&mut self)
        ensures
            final(self).visible == !old(self).visible,
            final(self).selected@ == old(self).selected@,
            final(self).visible ==> final(self).cursor == 0,
    {
        self.visible = !self.visible;
        if self.visible {
            self.cursor = 0;
        }
    }

    /// The selected port names, ascending.
    pub fn get_selected(&self) -> (r: Vec<String>)
        ensures
            r@.len() == self.selected@.len(),
            forall|i: int| 0 <= i < r@.len() ==> (#[trigger] r@[i])@ == self.selected@[i]@,
    {
        let n = self.selected.len();
        let mut out: Vec<String> = Vec::new();
        let mut i: usize = 0;
        while i < n
            invariant
                n == self.selected@.len(),
                i <= n,
                out@.len() == i,
                forall|j: int| 0 <= j < i ==> (#[trigger] out@[j])@ == self.selected@[j]@,
            decreases n - i,
        {
            out.push(self.selected[i].clone());
            i = i + 1;
        }
        out
    }

    /// True when the named port is in the target set.
    pub fn is_selected(&self, name: &str) -> (r: bool)
        ensures
            r == self.has_spec(name@),
    {
        let n = self.selected.len();
        let mut i: usize = 0;
        while i < n
            invariant
                n == self.selected@.len(),
                i <= n,
                forall|j: int| 0 <= j < i ==> (#[trigger] self.selected@[j])@ != name@,
            decreases n - i,
        {
            if str_eq(self.selected[i].as_str(), name) {
                return true;
            }
            i = i + 1;
        }
        false
    }

    /// Adds the name to the target set if absent, removes it if present.
    pub fn toggle_name(&mut self, name: &str)
        requires
            old(self).wf(),
        ensures
            final(self).wf(),
            final(self).has_spec(name@) == !old(self).has_spec(name@),
            forall|n: Seq<char>|
                n != name@ ==> #[trigger] final(self).has_spec(n) == old(self).has_spec(n),
            final(self).visible == old(self).visible,
            final(self).cursor == old(self).cursor,
    {
        let len = self.selected.len();
        let mut i: usize = 0;
        while i < len && str_lt(self.selected[i].as_str(), name)
            invariant
                len == self.selected@.len(),
                i <= len,
                forall|j: int| 0 <= j < i ==> lex_lt((#[trigger] self.selected@[j])@, name@),
                self.wf(),
            decreases len - i,
        {
            i = i + 1;
        }
        proof {
            if i < len {
                lemma_lex_lt_trichotomy(self.selected@[i as int]@, name@);
            }
            assert forall|j: int|
                0 <= j < len && (#[trigger] self.selected@[j])@ == name@ implies j == i as int by {
                if j < i {
                    lemma_lex_lt_trichotomy(self.selected@[j]@, name@);
                } else if j > i as int {
                    assert(lex_lt(self.selected@[i as int]@, self.selected@[j]@));
                    lemma_lex_lt_trichotomy(self.selected@[i as int]@, name@);
                }
            }
        }
        if i < len && str_eq(self.selected[i].as_str(), name) {
            self.selected.remove(i);
            proof {
                assert forall|a: int, b: int|
                    0 <= a < b < self.selected@.len() implies lex_lt(
                    (#[trigger] self.selected@[a])@,
                    (#[trigger] self.selected@[b])@,
                ) by {
                    let iv = i as int;
                    if b < iv {
                    } else if a < iv {
                        assert(self.selected@[b] == old(self).selected@[b + 1]);
                    } else {
                        assert(self.selected@[a] == old(self).selected@[a + 1]);
                        assert(self.selected@[b] == old(self).selected@[b + 1]);
                    }
                }
                assert(!self.has_spec(name@)) by {
                    if self.has_spec(name@) {
                        let k = choose|k: int|
                            0 <= k < self.selected@.len() && (self.selected@[k])@ == name@;
                        if k < i as int {
                            assert(old(self).selected@[k]@ == name@);
                        } else {
                            assert(old(self).selected@[k + 1]@ == name@);
                        }
                    }
                }
                assert forall|n: Seq<char>| n != name@ implies #[trigger] self.has_spec(n) == old(self).has_spec(n) by {
                    if old(self).has_spec(n) {
                        let k = choose|k: int|
                            0 <= k < old(self).selected@.len() && (old(self).selected@[k])@ == n;
                        if k < i as int {
                            assert(self.selected@[k]@ == n);
                        } else if k > i as int {
                            assert(self.selected@[k - 1]@ == n);
                        }
                    }
                    if self.has_spec(n) {
                        let k = choose|k: int|
                            0 <= k < self.selected@.len() && (self.selected@[k])@ == n;
                        if k < i as int {
                            assert(old(self).selected@[k]@ == n);
                        } else {
                            assert(old(self).selected@[k + 1]@ == n);
                        }
                    }
                }
            }
        } else {
            self.selected.insert(i, name.to_owned());
            proof {
                assert(!old(self).has_spec(name@)) by {
                    if old(self).has_spec(name@) {
                        let k = choose|k: int|
                            0 <= k < old(self).selected@.len() && (old(self).selected@[k])@
                                == name@;
                    }
                }
                assert(self.selected@[i as int]@ == name@);
                assert(self.has_spec(name@));
                assert forall|a: int, b: int|
                    0 <= a < b < self.selected@.len() implies lex_lt(
                    (#[trigger] self.selected@[a])@,
                    (#[trigger] self.selected@[b])@,
                ) by {
                    let iv = i as int;
                    if a < iv && b == iv {
                        assert(self.selected@[a] == old(self).selected@[a]);
                    } else if a == iv && b > iv {
                        assert(self.selected@[b] == old(self).selected@[b - 1]);
                        assert(old(self).selected@[iv]@ != name@);
                        assert(!lex_lt(old(self).selected@[iv]@, name@));
                        lemma_lex_lt_trichotomy(old(self).selected@[iv]@, name@);
                        if b - 1 > iv {
                            assert(lex_lt(
                                old(self).selected@[iv]@,
                                old(self).selected@[b - 1]@,
                            ));
                            crate::hub::lemma_lex_lt_transitive(
                                name@,
                                old(self).selected@[iv]@,
                                old(self).selected@[b - 1]@,
                            );
                        }
                    } else if a < iv && b > iv {
                        assert(self.selected@[a] == old(self).selected@[a]);
                        assert(self.selected@[b] == old(self).selected@[b - 1]);
                    } else if b < iv {
                        assert(self.selected@[a] == old(self).selected@[a]);
                        assert(self.selected@[b] == old(self).selected@[b]);
                    } else if a > iv {
                        assert(self.selected@[a] == old(self).selected@[a - 1]);
                        assert(self.selected@[b] == old(self).selected@[b - 1]);
                    }
                }
                assert forall|n: Seq<char>| n != name@ implies #[trigger] self.has_spec(n) == old(self).has_spec(n) by {
                    if old(self).has_spec(n) {
                        let k = choose|k: int|
                            0 <= k < old(self).selected@.len() && (old(self).selected@[k])@ == n;
                        if k < i as int {
                            assert(self.selected@[k]@ == n);
                        } else {
                            assert(self.selected@[k + 1]@ == n);
                        }
                    }
                    if self.has_spec(n) {
                        let k = choose|k: int|
                            0 <= k < self.selected@.len() && (self.selected@[k])@ == n;
                        if k < i as int {
                            assert(old(self).selected@[k]@ == n);
                        } else if k > i as int {
                            assert(old(self).selected@[k - 1]@ == n);
                        }
                    }
                }
            }
        }
    }

    /// Selects every listed port.
    pub fn select_all(&mut self, ports: &Vec<(String, PortConfig)>)
        requires
            old(self).wf(),
        ensures
            final(self).wf(),
            forall|i: int|
                0 <= i < ports@.len() ==> final(self).has_spec((#[trigger] ports@[i]).0@),
            final(self).visible == old(self).visible,
    {
        let n = ports.len();
        let mut i: usize = 0;
        while i < n
            invariant
                n == ports@.len(),
                i <= n,
                self.wf(),
                forall|j: int| 0 <= j < i ==> self.has_spec((#[trigger] ports@[j]).0@),
                self.visible == old(self).visible,
            decreases n - i,
        {
            if !self.is_selected(ports[i].0.as_str()) {
                self.toggle_name(ports[i].0.as_str());
            }
            i = i + 1;
        }
    }

    /// Handles one key press while visible: Escape closes (keeping the
    /// selection), j/k and the arrows move the cursor, Space or Enter
    /// toggles the highlighted port's membership.
    pub fn handle_key(&mut self, key: KeyInput, ports: &Vec<(String, PortConfig)>) -> (r: Option<
        SendGroupAction,
    >)
        requires
            old(self).wf(),
        ensures
            final(self).wf(),
            key.key == Key::Esc ==> !final(self).visible && final(self).selected@ == old(self).selected@ && r matches Some(SendGroupAction::Close),
            !(key.key == Key::Esc || key.key == Key::Up || key.key == Key::Down || key.key
                == Key::Char('k') || key.key == Key::Char('j') || key.key == Key::Char(' ')
                || key.key == Key::Enter) ==> (r is None) && *final(self) == *old(self),
            (key.key == Key::Up || key.key == Key::Char('k')) ==> (r is None) && final(self).selected@ == old(self).selected@ && final(self).cursor == spec_select_prev(
                old(self).cursor as int,
                ports@.len() as int,
            ),
            (key.key == Key::Down || key.key == Key::Char('j')) ==> (r is None) && final(self).selected@ == old(self).selected@ && final(self).cursor == spec_select_next(
                old(self).cursor as int,
                ports@.len() as int,
            ),
            (key.key == Key::Char(' ') || key.key == Key::Enter) ==> r is None && (if old(self).cursor < ports@.len() {
                final(self).has_spec(ports@[old(self).cursor as int].0@) == !old(self).has_spec(
                    ports@[old(self).cursor as int].0@,
                )
            } else {
                final(self).selected@ == old(self).selected@
            }),
    {
        match key.key {
            Key::Esc => {
                self.visible = false;
                Some(SendGroupAction::Close)
            },
            Key::Up => {
                select_prev(&mut self.cursor, ports.len());
                None
            },
            Key::Char('k') => {
                select_prev(&mut self.cursor, ports.len());
                None
            },
            Key::Down => {
                select_next(&mut self.cursor, ports.len());
                None
            },
            Key::Char('j') => {
                select_next(&mut self.cursor, ports.len());
                None
            },
            Key::Char(' ') => {
                if self.cursor < ports.len() {
                    self.toggle_name(ports[self.cursor].0.as_str());
                }
                None
            },
            Key::Enter => {
                if self.cursor < ports.len() {
                    self.toggle_name(ports[self.cursor].0.as_str());
                }
                None
            },
            _ => None,
        }
    }
}

/// The keyboard-shortcut overlay.
#[derive(Debug)]
pub struct HelpPopup {
    pub scroll: u16,
    pub visible: bool,
}

impl HelpPopup {
    /// Creates a new hidden help overlay.
    pub fn new() -> (r: HelpPopup)
        ensures
            r.scroll == 0,
            !r.visible,
    {
        HelpPopup { scroll: 0, visible: false }
    }

    /// Toggles visibility, rewinding the scroll on open.
    pub fn toggle(&mut self)
        ensures
            final(self).visible == !old(self).visible,
            final(self).visible ==> final(self).scroll == 0,
            !final(self).visible ==> final(self).scroll == old(self).scroll,
    {
        self.visible = !self.visible;
        if self.visible {
            self.scroll = 0;
        }
    }

    /// Handles one key press while visible: Escape or `?` closes, j/k and
    /// the arrows scroll, saturating at both ends.
    pub fn handle_key(&mut self, key: KeyInput)
        ensures
            (key.key == Key::Esc || key.key == Key::Char('?')) ==> !final(self).visible && final(self).scroll == old(self).scroll,
            (key.key == Key::Down || key.key == Key::Char('j')) ==> final(self).visible == old(self).visible && final(self).scroll == (if old(self).scroll < u16::MAX {
                (old(self).scroll + 1) as u16
            } else {
                old(self).scroll
            }),
            (key.key == Key::Up || key.key == Key::Char('k')) ==> final(self).visible == old(self).visible && final(self).scroll == (if old(self).scroll > 0 {
                (old(self).scroll - 1) as u16
            } else {
                0u16
            }),
            !(key.key == Key::Esc || key.key == Key::Char('?') || key.key == Key::Up || key.key
                == Key::Down || key.key == Key::Char('k') || key.key == Key::Char('j')) ==> *final(self) == *old(self),
    {
        match key.key {
            Key::Esc => {
                self.visible = false;
            },
            Key::Char('?') => {
                self.visible = false;
            },
            Key::Down => {
                if self.scroll < u16::MAX {
                    self.scroll = self.scroll + 1;
                }
            },
            Key::Char('j') => {
                if self.scroll < u16::MAX {
                    self.scroll = self.scroll + 1;
                }
            },
            Key::Up => {
                if self.scroll > 0 {
                    self.scroll = self.scroll - 1;
                }
            },
            Key::Char('k') => {
                if self.scroll > 0 {
                    self.scroll = self.scroll - 1;
                }
            },
            _ => {},
        }
    }
}

/// How long a notification stays, in milliseconds: a base time plus a share
/// per character, saturating.
pub open spec fn notification_duration(len: nat) -> int {
    if 1500 + 50 * len <= u64::MAX {
        1500 + 50 * len as int
    } else {
        u64::MAX as int
    }
}

/// The auto-dismissing toast in the top-right corner.
#[derive(Debug)]
pub struct Notification {
    pub message: Option<String>,
    pub shown_at: u64,
    pub duration: u64,
}

impl Notification {
    /// Creates a new hidden notification.
    pub fn new() -> (r: Notification)
        ensures
            r.message is None,
            r.shown_at == 0,
            r.duration == 0,
    {
        Notification { message: None, shown_at: 0, duration: 0 }
    }

    /// Shows a message from `now_ms` on, replacing any current one. Longer
    /// messages stay longer: a fixed base plus a share per character.
    pub fn show(&mut self, msg: String, now_ms: u64)
        ensures
            final(self).message matches Some(m) && m@ == msg@,
            final(self).shown_at == now_ms,
            final(self).duration == notification_duration(msg@.len()),
    {
        let len = msg.as_str().unicode_len();
        let d: u64 = if len as u64 <= (u64::MAX - 1500) / 50 {
            1500 + (len as u64) * 50
        } else {
            u64::MAX
        };
        proof {
            if len as u64 <= (u64::MAX - 1500) / 50 {
                assert(1500 + 50 * (len as nat) <= u64::MAX);
            } else {
                assert(1500 + 50 * (len as nat) > u64::MAX);
            }
        }
        self.duration = d;
        self.shown_at = now_ms;
        self.message = Some(msg);
    }

    /// Hides the notification at once.
    pub fn dismiss(&mut self)
        ensures
            final(self).message is None,
    {
        self.message = None;
    }

    /// True while a message is on screen.
    pub fn is_visible(&self) -> (r: bool)
        ensures
            r == (self.message is Some),
    {
        self.message.is_some()
    }

    /// Dismisses the message once its time is up. Call each frame with the
    /// current clock.
    pub fn tick(&mut self, now_ms: u64)
        ensures
            final(self).message == (if old(self).message is Some && (if now_ms >= old(self).shown_at {
                now_ms - old(self).shown_at
            } else {
                0
            }) < old(self).duration {
                old(self).message
            } else {
                None::<String>
            }),
            final(self).shown_at == old(self).shown_at,
            final(self).duration == old(self).duration,
    {
        if self.message.is_some() {
            let elapsed: u64 = if now_ms >= self.shown_at {
                now_ms - self.shown_at
            } else {
                0
            };
            if elapsed >= self.duration {
                self.message = None;
            }
        }
    }
}

} // verus!
