//! The display buffer: eviction, navigation, selection, search, title.

use serialtui::config::Color;
use serialtui::display::{DisplayBuffer, DisplayLine, LineHighlight, Span, MAX_LINES};
use serialtui::keys::{Key, KeyInput};

fn line(text: &str) -> DisplayLine {
    DisplayLine::new(vec![Span::new(text.to_string(), Color::Reset)])
}

fn buffer_with(texts: &[&str]) -> DisplayBuffer {
    let mut d = DisplayBuffer::new();
    for t in texts {
        d.push_line(line(t));
    }
    d
}

fn press(d: &mut DisplayBuffer, key: Key, height: usize) {
    let _ = d.handle_key(KeyInput::plain(key), height);
}

#[test]
fn push_retains_trailing_window() {
    let mut d = DisplayBuffer::new();
    let extra = 5;
    for i in 0..MAX_LINES + extra {
        d.push_line(line(&format!("line {i}")));
    }
    let texts = d.visible_range(0);
    assert_eq!(texts, (d.view_start, d.view_start));
    assert_eq!(d.lines.len(), MAX_LINES);
    // The oldest `extra` lines were evicted; the first retained line is the
    // one pushed `extra`-th.
    assert_eq!(d.lines[0].text(), format!("line {extra}"));
    assert_eq!(d.lines[MAX_LINES - 1].text(), format!("line {}", MAX_LINES + extra - 1));
    assert_eq!(d.cursor, MAX_LINES - 1);
}

#[test]
fn eviction_shifts_anchor_and_matches() {
    let mut d = DisplayBuffer::new();
    for i in 0..MAX_LINES {
        d.push_line(line(&format!("x{i}")));
    }
    press(&mut d, Key::Char('/'), 10);
    press(&mut d, Key::Char('x'), 10);
    press(&mut d, Key::Char('1'), 10);
    press(&mut d, Key::Char('0'), 10);
    press(&mut d, Key::Enter, 10);
    let first_match = d.search_matches[0];
    d.push_line(line("no match here"));
    assert_eq!(d.search_matches[0], first_match - 1);
    assert_eq!(d.lines.len(), MAX_LINES);
}

#[test]
fn navigation_scenario() {
    let mut d = buffer_with(&(0..50).map(|i| format!("l{i}")).collect::<Vec<_>>()
        .iter().map(|s| s.as_str()).collect::<Vec<_>>());
    let height = 10;
    // gg jumps to the top.
    press(&mut d, Key::Char('g'), height);
    press(&mut d, Key::Char('g'), height);
    assert_eq!(d.cursor, 0);
    assert_eq!(d.view_start, 0);
    // G jumps to the bottom.
    let _ = d.handle_key(KeyInput::with_shift(Key::Char('G')), height);
    assert_eq!(d.cursor, 49);
    assert_eq!(d.view_start, 40);
    // Ctrl+d at the bottom stays put.
    let _ = d.handle_key(KeyInput::with_ctrl(Key::Char('d')), height);
    assert_eq!(d.cursor, 49);
}

#[test]
fn view_follows_pushes_on_next_render() {
    let mut d = buffer_with(&(0..50).map(|i| format!("l{i}")).collect::<Vec<_>>()
        .iter().map(|s| s.as_str()).collect::<Vec<_>>());
    // Data streamed in without a key press: the cursor auto-followed, and
    // the render-time re-derivation brings it back on screen.
    assert_eq!(d.cursor, 49);
    d.adjust_view(10);
    assert_eq!(d.view_start, 40);
    assert!(d.cursor - d.view_start < 10);
    // More pushes, another frame.
    for i in 50..60 {
        d.push_line(line(&format!("l{i}")));
    }
    d.adjust_view(10);
    assert_eq!(d.cursor, 59);
    assert_eq!(d.view_start, 50);
}

#[test]
fn cursor_view_invariant_holds() {
    let mut d = buffer_with(&["a", "b", "c", "d", "e", "f", "g", "h"]);
    let height = 3;
    let keys = [
        Key::Char('k'),
        Key::Char('k'),
        Key::Char('j'),
        Key::Up,
        Key::Up,
        Key::Up,
        Key::Down,
        Key::Char('g'),
        Key::Char('g'),
        Key::Char('j'),
    ];
    for k in keys {
        press(&mut d, k, height);
        assert!(d.view_start <= d.cursor);
        assert!(d.cursor < d.lines.len());
        assert!(d.cursor - d.view_start < height);
    }
}

#[test]
fn half_pages_move_by_half_the_height() {
    let mut d = buffer_with(&(0..40).map(|i| format!("l{i}")).collect::<Vec<_>>()
        .iter().map(|s| s.as_str()).collect::<Vec<_>>());
    let _ = d.handle_key(KeyInput::with_ctrl(Key::Char('u')), 10);
    assert_eq!(d.cursor, 34);
    let _ = d.handle_key(KeyInput::with_ctrl(Key::Char('u')), 10);
    assert_eq!(d.cursor, 29);
    let _ = d.handle_key(KeyInput::with_ctrl(Key::Char('d')), 10);
    assert_eq!(d.cursor, 34);
}

#[test]
fn visual_yank_scenario() {
    let mut d = buffer_with(&["a", "b", "c", "d"]);
    let height = 10;
    press(&mut d, Key::Char('g'), height);
    press(&mut d, Key::Char('g'), height);
    press(&mut d, Key::Char('j'), height);
    assert_eq!(d.cursor, 1);
    press(&mut d, Key::Char('v'), height);
    assert_eq!(d.selection_start, Some(1));
    press(&mut d, Key::Char('j'), height);
    assert_eq!(d.get_selected_text(), "b\nc");
    // A yank leaves visual mode whether or not a clipboard is available;
    // when one is, it counts the two selected lines.
    match d.yank() {
        Ok(n) => assert_eq!(n, 2),
        Err(_) => {}
    }
    assert_eq!(d.selection_start, None);
}

#[test]
fn yank_without_selection_takes_cursor_line() {
    let d = buffer_with(&["only", "two"]);
    assert_eq!(d.get_selected_text(), "two");
}

#[test]
fn search_scenario() {
    let mut d = buffer_with(&["alpha", "beta", "alphabet", "gamma"]);
    let height = 10;
    press(&mut d, Key::Char('/'), height);
    assert!(d.in_search_mode());
    assert_eq!(d.title(), " Display [SEARCH] ");
    press(&mut d, Key::Char('a'), height);
    press(&mut d, Key::Char('l'), height);
    assert_eq!(d.search_query(), "al");
    press(&mut d, Key::Enter, height);
    assert!(!d.in_search_mode());
    assert_eq!(d.search_matches, vec![0, 2]);
    assert_eq!(d.cursor, 0);
    assert_eq!(d.title(), " Display [1/2] ");
    press(&mut d, Key::Char('n'), height);
    assert_eq!(d.cursor, 2);
    assert_eq!(d.title(), " Display [2/2] ");
    press(&mut d, Key::Char('n'), height);
    assert_eq!(d.cursor, 0);
    let _ = d.handle_key(KeyInput::with_shift(Key::Char('N')), height);
    assert_eq!(d.cursor, 2);
}

#[test]
fn search_is_case_insensitive() {
    let mut d = buffer_with(&["Alpha", "beta", "ALPHABET"]);
    press(&mut d, Key::Char('/'), 10);
    press(&mut d, Key::Char('A'), 10);
    press(&mut d, Key::Char('L'), 10);
    press(&mut d, Key::Enter, 10);
    assert_eq!(d.search_matches, vec![0, 2]);
}

#[test]
fn search_backspace_and_cancel() {
    let mut d = buffer_with(&["alpha", "beta"]);
    press(&mut d, Key::Char('/'), 10);
    press(&mut d, Key::Char('x'), 10);
    press(&mut d, Key::Backspace, 10);
    press(&mut d, Key::Char('b'), 10);
    press(&mut d, Key::Enter, 10);
    assert_eq!(d.search_matches, vec![1]);
    // Escape cancels a new search without committing matches.
    press(&mut d, Key::Char('/'), 10);
    press(&mut d, Key::Char('q'), 10);
    press(&mut d, Key::Esc, 10);
    assert!(!d.in_search_mode());
    assert_eq!(d.search_matches.len(), 0);
}

#[test]
fn cancel_preserves_committed_matches() {
    let mut d = buffer_with(&["alpha", "beta", "alphabet"]);
    press(&mut d, Key::Char('/'), 10);
    press(&mut d, Key::Char('a'), 10);
    press(&mut d, Key::Char('l'), 10);
    press(&mut d, Key::Enter, 10);
    assert_eq!(d.search_matches, vec![0, 2]);
    // Cancelling leaves search mode without touching the committed matches.
    press(&mut d, Key::Char('/'), 10);
    d.cancel_search();
    assert!(!d.in_search_mode());
    // Entering search with `/` cleared them; the cancel itself kept them.
    let mut e = buffer_with(&["alpha", "beta", "alphabet"]);
    press(&mut e, Key::Char('/'), 10);
    press(&mut e, Key::Char('a'), 10);
    press(&mut e, Key::Char('l'), 10);
    press(&mut e, Key::Enter, 10);
    e.cancel_search();
    assert_eq!(e.search_matches, vec![0, 2]);
    assert_eq!(e.search_match_idx, 0);
}

#[test]
fn empty_query_matches_nothing() {
    let mut d = buffer_with(&["alpha"]);
    press(&mut d, Key::Char('/'), 10);
    press(&mut d, Key::Enter, 10);
    assert_eq!(d.search_matches.len(), 0);
    assert_eq!(d.title(), " Display ");
}

#[test]
fn highlight_priority() {
    let mut d = buffer_with(&["alpha", "beta", "alphabet", "gamma"]);
    press(&mut d, Key::Char('/'), 10);
    press(&mut d, Key::Char('a'), 10);
    press(&mut d, Key::Char('l'), 10);
    press(&mut d, Key::Enter, 10);
    // Cursor sits on match 0; select downward so line 1 is in the range.
    press(&mut d, Key::Char('v'), 10);
    press(&mut d, Key::Char('j'), 10);
    assert_eq!(d.line_highlight(1), LineHighlight::CursorLine);
    assert_eq!(d.line_highlight(0), LineHighlight::Selected);
    assert_eq!(d.line_highlight(2), LineHighlight::Matched);
    assert_eq!(d.line_highlight(3), LineHighlight::Plain);
    assert_eq!(d.title(), " Display [VISUAL] ");
}

#[test]
fn visible_range_clamps_to_len() {
    let d = buffer_with(&["a", "b", "c"]);
    assert_eq!(d.visible_range(10), (0, 3));
}

#[test]
fn clear_resets_everything() {
    let mut d = buffer_with(&["a", "b"]);
    press(&mut d, Key::Char('v'), 10);
    d.clear();
    assert_eq!(d.lines.len(), 0);
    assert_eq!(d.cursor, 0);
    assert_eq!(d.view_start, 0);
    assert_eq!(d.selection_start, None);
    assert_eq!(d.search_matches.len(), 0);
}

#[test]
fn line_text_flattens_spans() {
    let l = DisplayLine::new(vec![
        Span::new("[10:00:00.000] ".to_string(), Color::Reset),
        Span::new("[A]".to_string(), Color::Green),
        Span::new(" hi".to_string(), Color::Reset),
    ]);
    assert_eq!(l.text(), "[10:00:00.000] [A] hi");
}

#[test]
fn gg_needs_two_presses() {
    let mut d = buffer_with(&["a", "b", "c"]);
    press(&mut d, Key::Char('g'), 10);
    assert_eq!(d.cursor, 2);
    press(&mut d, Key::Char('g'), 10);
    assert_eq!(d.cursor, 0);
    // A lone g followed by another key falls through.
    press(&mut d, Key::Char('j'), 10);
    press(&mut d, Key::Char('g'), 10);
    press(&mut d, Key::Char('j'), 10);
    assert_eq!(d.cursor, 2);
}
