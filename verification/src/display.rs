//! The display buffer: a bounded sequence of styled lines with cursor-based
//! navigation, visual line selection, case-insensitive substring search, and
//! yank to the system clipboard.

use vstd::prelude::*;

use crate::clip::{clipboard_new, clipboard_set_text};
use crate::config::Color;
use crate::keys::{Key, KeyInput};
use crate::text::{
    chars_of, contains_chars, contains_seq, dec_digits, lower_of, lowercase, u64_to_string,
};

verus! {

/// Most lines the buffer retains; pushing beyond it evicts the oldest line.
pub const MAX_LINES: usize = 10000;

/// A run of text drawn in one color.
#[derive(Debug)]
pub struct Span {
    pub text: String,
    pub color: Color,
}

impl Span {
    /// Builds a span.
    pub fn new(text: String, color: Color) -> (r: Span)
        ensures
            r.text@ == text@,
            r.color == color,
    {
        Span { text, color }
    }
}

/// A pre-styled display line: a sequence of spans, immutable once built.
#[derive(Debug)]
pub struct DisplayLine {
    pub spans: Vec<Span>,
}

/// The concatenated text of `spans`, styles stripped.
pub open spec fn spans_text(spans: Seq<Span>) -> Seq<char>
    decreases spans.len(),
{
    if spans.len() == 0 {
        Seq::empty()
    } else {
        spans_text(spans.drop_last()) + spans.last().text@
    }
}

impl DisplayLine {
    /// The plain text of this line.
    pub open spec fn text_spec(&self) -> Seq<char> {
        spans_text(self.spans@)
    }

    /// Builds a line from its spans.
    pub fn new(spans: Vec<Span>) -> (r: DisplayLine)
        ensures
            r.spans@ == spans@,
    {
        DisplayLine { spans }
    }

    /// Flattens the line to its text, styles stripped.
    pub fn text(&self) -> (r: String)
        ensures
            r@ == self.text_spec(),
    {
        let mut out = String::new();
        let n = self.spans.len();
        let mut i: usize = 0;
        while i < n
            invariant
                n == self.spans@.len(),
                i <= n,
                out@ == spans_text(self.spans@.take(i as int)),
            decreases n - i,
        {
            out.append(self.spans[i].text.as_str());
            proof {
                assert(self.spans@.take(i + 1).drop_last() =~= self.spans@.take(i as int));
                assert(self.spans@.take(i + 1).last() == self.spans@[i as int]);
            }
            i = i + 1;
        }
        proof {
            assert(self.spans@.take(n as int) =~= self.spans@);
        }
        out
    }
}

/// Where the viewport starts after the cursor moved to `c`: the margin rule
/// of the display. With `margin = h / 4`, a cursor in the top band pulls the
/// view up to `c - margin`, one in the bottom band pushes it down to
/// `c - (h - margin - 1)`; the result is clamped into `[0, len - h]` and
/// never past the cursor.
pub open spec fn spec_adjust(vs: int, c: int, len: int, h: int) -> int {
    if h <= 0 {
        if vs <= c {
            vs
        } else {
            c
        }
    } else {
        let margin = h / 4;
        let civ = if c >= vs {
            c - vs
        } else {
            0
        };
        let vs1 = if civ < margin {
            if c >= margin {
                c - margin
            } else {
                0
            }
        } else {
            vs
        };
        let back = h - margin - 1;
        let vs2 = if civ >= h - margin {
            if c >= back {
                c - back
            } else {
                0
            }
        } else {
            vs1
        };
        let maxs = if len >= h {
            len - h
        } else {
            0
        };
        let vs3 = if vs2 <= maxs {
            vs2
        } else {
            maxs
        };
        if vs3 <= c {
            vs3
        } else {
            c
        }
    }
}

/// The viewport law: after the margin rule, the view starts at or before
/// the cursor and within `[0, max(0, len - height)]`, the cursor is inside
/// the viewport, and it lies in the middle band of the viewport unless the
/// view is pinned at one of the buffer's ends.
pub proof fn lemma_adjust_in_view(vs: int, c: int, len: int, h: int)
    requires
        0 <= vs,
        0 <= c < len,
        h > 0,
    ensures
        0 <= spec_adjust(vs, c, len, h) <= c,
        c - spec_adjust(vs, c, len, h) < h,
        spec_adjust(vs, c, len, h) <= (if len >= h {
            len - h
        } else {
            0
        }),
        ({
            let v = spec_adjust(vs, c, len, h);
            let margin = h / 4;
            let maxs = if len >= h {
                len - h
            } else {
                0
            };
            v == 0 || v == maxs || (margin <= c - v && c - v < h - margin)
        }),
{
}

/// A bounded buffer of styled lines with a cursor, a viewport, an optional
/// visual-selection anchor, and search state.
pub struct DisplayBuffer {
    /// The retained lines, oldest first; at most [`MAX_LINES`].
    pub lines: Vec<DisplayLine>,
    /// Absolute index of the cursor line.
    pub cursor: usize,
    /// Absolute index of the first visible line.
    pub view_start: usize,
    /// A `g` was pressed and the next key may complete `gg`.
    pub pending_g: bool,
    /// Anchor of the visual selection; present exactly in visual mode.
    pub selection_start: Option<usize>,
    /// Keys are being captured into the search query.
    pub search_mode: bool,
    /// The query being typed, or last committed.
    pub search_query: String,
    /// Indices of matching lines, ascending.
    pub search_matches: Vec<usize>,
    /// Position inside `search_matches` for n/N navigation.
    pub search_match_idx: usize,
    /// Clipboard handle, created on first yank and kept alive.
    pub clipboard: Option<arboard::Clipboard>,
}

impl DisplayBuffer {
    /// The buffer's invariant: the cursor and viewport are in range, the
    /// match list is ascending and in range, and the match cursor points
    /// into it.
    pub open spec fn wf(&self) -> bool {
        &&& self.lines@.len() <= MAX_LINES
        &&& (self.lines@.len() == 0 ==> self.cursor == 0 && self.view_start == 0)
        &&& (self.lines@.len() > 0 ==> self.view_start <= self.cursor < self.lines@.len())
        &&& self.marks_wf()
    }

    /// The part of the invariant about the match list, the match cursor and
    /// the selection anchor.
    pub open spec fn marks_wf(&self) -> bool {
        &&& (forall|i: int|
            0 <= i < self.search_matches@.len() ==> (#[trigger] self.search_matches@[i] as int)
                < self.lines@.len())
        &&& (forall|i: int, j: int|
            0 <= i < j < self.search_matches@.len() ==> #[trigger] self.search_matches@[i]
                < #[trigger] self.search_matches@[j])
        &&& (self.search_matches@.len() > 0 ==> self.search_match_idx
            < self.search_matches@.len())
        &&& (self.search_matches@.len() == 0 ==> self.search_match_idx == 0)
        &&& (self.selection_start matches Some(a) ==> (a as int) < self.lines@.len() || (a == 0
            && self.lines@.len() == 0))
    }

    /// The stored lines.
    pub open spec fn lines_spec(&self) -> Seq<DisplayLine> {
        self.lines@
    }

    /// The cursor index.
    pub open spec fn cursor_spec(&self) -> int {
        self.cursor as int
    }

    /// The first visible index.
    pub open spec fn view_start_spec(&self) -> int {
        self.view_start as int
    }

    /// The visual anchor, if visual mode is on.
    pub open spec fn selection_spec(&self) -> Option<usize> {
        self.selection_start
    }

    /// The search-capture flag.
    pub open spec fn search_mode_spec(&self) -> bool {
        self.search_mode
    }

    /// The current query.
    pub open spec fn query_spec(&self) -> Seq<char> {
        self.search_query@
    }

    /// The committed match indices.
    pub open spec fn matches_spec(&self) -> Seq<usize> {
        self.search_matches@
    }

    /// The n/N position within the matches.
    pub open spec fn match_idx_spec(&self) -> int {
        self.search_match_idx as int
    }

    /// The `gg` half-sequence flag.
    pub open spec fn pending_g_spec(&self) -> bool {
        self.pending_g
    }

    /// Everything except lines, cursor, viewport, matches, anchor and the
    /// match cursor is unchanged.
    pub open spec fn same_modes(&self, other: &Self) -> bool {
        &&& self.pending_g == other.pending_g
        &&& self.search_mode == other.search_mode
        &&& self.search_query@ == other.search_query@
    }

    /// Search state, anchor and modes are unchanged.
    pub open spec fn same_but_nav(&self, other: &Self) -> bool {
        &&& self.lines@ == other.lines@
        &&& self.selection_start == other.selection_start
        &&& self.search_matches@ == other.search_matches@
        &&& self.search_match_idx == other.search_match_idx
        &&& self.same_modes(other)
    }

    /// Creates a new empty display buffer.
    pub fn new() -> (r: DisplayBuffer)
        ensures
            r.wf(),
            r.lines_spec().len() == 0,
            r.cursor_spec() == 0,
            r.view_start_spec() == 0,
            r.selection_spec() is None,
            !r.search_mode_spec(),
            r.query_spec().len() == 0,
            r.matches_spec().len() == 0,
            r.match_idx_spec() == 0,
            !r.pending_g_spec(),
    {
        DisplayBuffer {
            lines: Vec::new(),
            cursor: 0,
            view_start: 0,
            pending_g: false,
            selection_start: None,
            search_mode: false,
            search_query: String::new(),
            search_matches: Vec::new(),
            search_match_idx: 0,
            clipboard: None,
        }
    }

    /// What one push leaves in the buffer: the new line appended, the oldest
    /// line evicted first when the buffer is full.
    pub open spec fn spec_push_lines(lines: Seq<DisplayLine>, line: DisplayLine) -> Seq<
        DisplayLine,
    > {
        if lines.len() >= MAX_LINES {
            lines.skip(1).push(line)
        } else {
            lines.push(line)
        }
    }

    /// The match list after the oldest line was evicted: an entry for line 0
    /// disappears, every other entry shifts down by one.
    pub open spec fn spec_shift_matches(m: Seq<usize>) -> Seq<usize> {
        let kept = if m.len() > 0 && m[0] == 0 {
            m.skip(1)
        } else {
            m
        };
        kept.map_values(|x: usize| (x - 1) as usize)
    }

    /// Adds a pre-styled line, evicting the oldest if at capacity; indices
    /// held elsewhere (anchor, matches) shift with the eviction. The cursor
    /// moves to the new last line (auto-follow).
    pub fn push_line(&mut self, line: DisplayLine)
        requires
            old(self).wf(),
        ensures
            final(self).wf(),
            final(self).lines_spec() == Self::spec_push_lines(old(self).lines_spec(), line),
            final(self).cursor_spec() == final(self).lines_spec().len() - 1,
            final(self).same_modes(old(self)),
            old(self).lines_spec().len() < MAX_LINES ==> {
                &&& final(self).view_start_spec() == old(self).view_start_spec()
                &&& final(self).matches_spec() == old(self).matches_spec()
                &&& final(self).match_idx_spec() == old(self).match_idx_spec()
                &&& final(self).selection_spec() == old(self).selection_spec()
            },
            old(self).lines_spec().len() >= MAX_LINES ==> {
                &&& final(self).view_start_spec() == (if old(self).view_start_spec() > 0 {
                    old(self).view_start_spec() - 1
                } else {
                    0
                })
                &&& final(self).matches_spec() == Self::spec_shift_matches(
                    old(self).matches_spec(),
                )
                &&& final(self).match_idx_spec() == (if old(self).match_idx_spec() < final(self).matches_spec().len() {
                    old(self).match_idx_spec()
                } else {
                    0
                })
                &&& final(self).selection_spec() == (match old(self).selection_spec() {
                    Some(a) => Some((if a > 0 {
                        (a - 1) as usize
                    } else {
                        0
                    })),
                    None => None::<usize>,
                })
            },
    {
        if self.lines.len() >= MAX_LINES {
            self.lines.remove(0);
            proof {
                assert(self.lines@ =~= old(self).lines@.skip(1));
            }
            self.view_start = if self.view_start > 0 {
                self.view_start - 1
            } else {
                0
            };
            // Shift the match indices down with the evicted line. The list
            // is strictly ascending, so only its first entry can be 0.
            let ghost old_matches = self.search_matches@;
            let start: usize = if self.search_matches.len() > 0 && self.search_matches[0] == 0 {
                1
            } else {
                0
            };
            let mut nm: Vec<usize> = Vec::new();
            let n = self.search_matches.len();
            let mut i: usize = start;
            while i < n
                invariant
                    n == old_matches.len(),
                    self.search_matches@ == old_matches,
                    start <= 1,
                    start == 1 ==> n > 0 && old_matches[0] == 0,
                    start == 0 ==> (n == 0 || old_matches[0] != 0),
                    forall|p: int, q: int|
                        0 <= p < q < n ==> #[trigger] old_matches[p] < #[trigger] old_matches[q],
                    start <= i <= n,
                    nm@.len() == i - start,
                    forall|k: int|
                        0 <= k < nm@.len() ==> #[trigger] nm@[k] == (old_matches[k + start]
                            - 1) as usize,
                    forall|k: int| 0 <= k < nm@.len() ==> #[trigger] old_matches[k + start] > 0,
                decreases n - i,
            {
                let v = self.search_matches[i];
                proof {
                    if v == 0 {
                        if start == 1 {
                            assert(old_matches[0] < old_matches[i as int]);
                        } else if i > 0 {
                            assert(old_matches[0] < old_matches[i as int]);
                        }
                        assert(false);
                    }
                }
                nm.push(v - 1);
                i = i + 1;
            }
            proof {
                let kept = if old_matches.len() > 0 && old_matches[0] == 0 {
                    old_matches.skip(1)
                } else {
                    old_matches
                };
                assert(nm@ =~= kept.map_values(|x: usize| (x - 1) as usize));
            }
            self.search_matches = nm;
            if self.search_match_idx >= self.search_matches.len() {
                self.search_match_idx = 0;
            }
            self.selection_start = match self.selection_start {
                Some(a) => Some(
                    if a > 0 {
                        a - 1
                    } else {
                        0
                    },
                ),
                None => None,
            };
        }
        self.lines.push(line);
        self.cursor = self.lines.len() - 1;
    }

    /// Re-derives `view_start` for the given viewport height, by the margin
    /// rule of [`spec_adjust`].
    fn adjust_scroll(&mut self, height: usize)
        requires
            old(self).lines@.len() <= MAX_LINES,
            old(self).lines@.len() == 0 ==> old(self).cursor == 0,
            old(self).lines@.len() > 0 ==> (old(self).cursor as int) < old(self).lines@.len(),
            old(self).marks_wf(),
        ensures
            final(self).wf(),
            final(self).view_start_spec() == spec_adjust(
                old(self).view_start_spec(),
                old(self).cursor_spec(),
                old(self).lines_spec().len() as int,
                height as int,
            ),
            final(self).cursor_spec() == old(self).cursor_spec(),
            final(self).same_but_nav(old(self)),
            height > 0 && old(self).lines_spec().len() > 0 ==> final(self).cursor_spec() - final(self).view_start_spec() < height,
    {
        if height == 0 {
            if self.view_start > self.cursor {
                self.view_start = self.cursor;
            }
            return ;
        }
        let margin = height / 4;
        let cursor_in_view = if self.cursor >= self.view_start {
            self.cursor - self.view_start
        } else {
            0
        };
        if cursor_in_view < margin {
            self.view_start = if self.cursor >= margin {
                self.cursor - margin
            } else {
                0
            };
        }
        if cursor_in_view >= height - margin {
            let back = height - margin - 1;
            self.view_start = if self.cursor >= back {
                self.cursor - back
            } else {
                0
            };
        }
        let max_start = if self.lines.len() >= height {
            self.lines.len() - height
        } else {
            0
        };
        if self.view_start > max_start {
            self.view_start = max_start;
        }
        if self.view_start > self.cursor {
            self.view_start = self.cursor;
        }
    }

    /// Re-derives the viewport for the given height: what a renderer does
    /// each frame, so that the cursor a push auto-followed is back on
    /// screen. The view lands at or before the cursor, within
    /// `[0, max(0, len - height)]`, with the cursor inside the viewport and
    /// in its middle band unless the view is pinned at a buffer end;
    /// nothing but `view_start` changes.
    pub fn adjust_view(&mut self, height: usize)
        requires
            old(self).wf(),
        ensures
            final(self).wf(),
            final(self).view_start_spec() == spec_adjust(
                old(self).view_start_spec(),
                old(self).cursor_spec(),
                old(self).lines_spec().len() as int,
                height as int,
            ),
            final(self).cursor_spec() == old(self).cursor_spec(),
            final(self).same_but_nav(old(self)),
            height > 0 && old(self).lines_spec().len() > 0 ==> {
                let v = final(self).view_start_spec();
                let c = final(self).cursor_spec();
                let len = final(self).lines_spec().len() as int;
                let margin = height as int / 4;
                let maxs = if len >= height {
                    len - height
                } else {
                    0
                };
                &&& c - v < height
                &&& v <= maxs
                &&& (v == 0 || v == maxs || (margin <= c - v && c - v < height - margin))
            },
    {
        proof {
            if height > 0 && self.lines.len() > 0 {
                lemma_adjust_in_view(
                    self.view_start as int,
                    self.cursor as int,
                    self.lines@.len() as int,
                    height as int,
                );
            }
        }
        self.adjust_scroll(height);
    }

    /// Moves the cursor up one line.
    pub fn move_up(&mut self, height: usize)
        requires
            old(self).wf(),
        ensures
            final(self).wf(),
            final(self).same_but_nav(old(self)),
            old(self).cursor_spec() == 0 ==> *final(self) == *old(self),
            old(self).cursor_spec() > 0 ==> {
                &&& final(self).cursor_spec() == old(self).cursor_spec() - 1
                &&& final(self).view_start_spec() == spec_adjust(
                    old(self).view_start_spec(),
                    final(self).cursor_spec(),
                    old(self).lines_spec().len() as int,
                    height as int,
                )
            },
            height > 0 && old(self).lines_spec().len() > 0 && old(self).cursor_spec() > 0 ==> final(self).cursor_spec() - final(self).view_start_spec() < height,
    {
        if self.cursor > 0 {
            self.cursor = self.cursor - 1;
            self.adjust_scroll(height);
        }
    }

    /// Moves the cursor down one line.
    pub fn move_down(&mut self, height: usize)
        requires
            old(self).wf(),
        ensures
            final(self).wf(),
            final(self).same_but_nav(old(self)),
            old(self).cursor_spec() + 1 >= old(self).lines_spec().len() ==> *final(self) == *old(self),
            old(self).cursor_spec() + 1 < old(self).lines_spec().len() ==> {
                &&& final(self).cursor_spec() == old(self).cursor_spec() + 1
                &&& final(self).view_start_spec() == spec_adjust(
                    old(self).view_start_spec(),
                    final(self).cursor_spec(),
                    old(self).lines_spec().len() as int,
                    height as int,
                )
                &&& (height > 0 ==> final(self).cursor_spec() - final(self).view_start_spec()
                    < height)
            },
    {
        let len = self.lines.len();
        let max_cursor = if len > 0 {
            len - 1
        } else {
            0
        };
        if self.cursor < max_cursor {
            self.cursor = self.cursor + 1;
            self.adjust_scroll(height);
        }
    }

    /// Moves the cursor up half a page.
    pub fn half_page_up(&mut self, height: usize)
        requires
            old(self).wf(),
        ensures
            final(self).wf(),
            final(self).same_but_nav(old(self)),
            final(self).cursor_spec() == (if old(self).cursor_spec() >= height / 2 {
                old(self).cursor_spec() - height / 2
            } else {
                0
            }),
            final(self).view_start_spec() == spec_adjust(
                old(self).view_start_spec(),
                final(self).cursor_spec(),
                old(self).lines_spec().len() as int,
                height as int,
            ),
            height > 0 && old(self).lines_spec().len() > 0 ==> final(self).cursor_spec() - final(self).view_start_spec() < height,
    {
        let half = height / 2;
        self.cursor = if self.cursor >= half {
            self.cursor - half
        } else {
            0
        };
        self.adjust_scroll(height);
    }

    /// Moves the cursor down half a page, clamped to the last line.
    pub fn half_page_down(&mut self, height: usize)
        requires
            old(self).wf(),
        ensures
            final(self).wf(),
            final(self).same_but_nav(old(self)),
            final(self).cursor_spec() == {
                let len = old(self).lines_spec().len() as int;
                let target = old(self).cursor_spec() + height / 2;
                let maxc = if len > 0 {
                    len - 1
                } else {
                    0
                };
                if target <= maxc {
                    target
                } else {
                    maxc
                }
            },
            final(self).view_start_spec() == spec_adjust(
                old(self).view_start_spec(),
                final(self).cursor_spec(),
                old(self).lines_spec().len() as int,
                height as int,
            ),
            height > 0 && old(self).lines_spec().len() > 0 ==> final(self).cursor_spec() - final(self).view_start_spec() < height,
    {
        let half = height / 2;
        let len = self.lines.len();
        let max_cursor = if len > 0 {
            len - 1
        } else {
            0
        };
        // `cursor + half` stays within usize: both are bounded by the line
        // count and the viewport height.
        let target = if self.cursor <= usize::MAX - half {
            self.cursor + half
        } else {
            usize::MAX
        };
        self.cursor = if target <= max_cursor {
            target
        } else {
            max_cursor
        };
        self.adjust_scroll(height);
    }

    /// Moves the cursor to the first line.
    pub fn go_to_top(&mut self, height: usize)
        requires
            old(self).wf(),
        ensures
            final(self).wf(),
            final(self).same_but_nav(old(self)),
            final(self).cursor_spec() == 0,
            final(self).view_start_spec() == spec_adjust(
                old(self).view_start_spec(),
                0,
                old(self).lines_spec().len() as int,
                height as int,
            ),
            height > 0 && old(self).lines_spec().len() > 0 ==> final(self).cursor_spec() - final(self).view_start_spec() < height,
    {
        self.cursor = 0;
        self.adjust_scroll(height);
    }

    /// Moves the cursor to the last line.
    pub fn go_to_bottom(&mut self, height: usize)
        requires
            old(self).wf(),
        ensures
            final(self).wf(),
            final(self).same_but_nav(old(self)),
            final(self).cursor_spec() == (if old(self).lines_spec().len() > 0 {
                old(self).lines_spec().len() - 1
            } else {
                0int
            }),
            final(self).view_start_spec() == spec_adjust(
                old(self).view_start_spec(),
                final(self).cursor_spec(),
                old(self).lines_spec().len() as int,
                height as int,
            ),
            height > 0 && old(self).lines_spec().len() > 0 ==> final(self).cursor_spec() - final(self).view_start_spec() < height,
    {
        let len = self.lines.len();
        self.cursor = if len > 0 {
            len - 1
        } else {
            0
        };
        self.adjust_scroll(height);
    }

    /// Removes every line and resets cursor, viewport, selection and search.
    /// The clipboard handle is kept.
    pub fn clear(&mut self)
        ensures
            final(self).wf(),
            final(self).lines_spec().len() == 0,
            final(self).cursor_spec() == 0,
            final(self).view_start_spec() == 0,
            final(self).selection_spec() is None,
            !final(self).search_mode_spec(),
            final(self).query_spec().len() == 0,
            final(self).matches_spec().len() == 0,
            final(self).match_idx_spec() == 0,
            !final(self).pending_g_spec(),
    {
        self.lines = Vec::new();
        self.cursor = 0;
        self.view_start = 0;
        self.pending_g = false;
        self.selection_start = None;
        self.search_mode = false;
        self.search_query = String::new();
        self.search_matches = Vec::new();
        self.search_match_idx = 0;
    }

    /// Toggles visual selection mode: off it anchors at the cursor, on it
    /// clears the anchor.
    pub fn toggle_visual(&mut self)
        requires
            old(self).wf(),
        ensures
            final(self).wf(),
            *final(self) == (DisplayBuffer {
                selection_start: if old(self).selection_spec() is Some {
                    None
                } else {
                    Some(old(self).cursor)
                },
                ..*old(self)
            }),
    {
        if self.selection_start.is_some() {
            self.selection_start = None;
        } else {
            if self.lines.len() > 0 {
                self.selection_start = Some(self.cursor);
            } else {
                self.selection_start = Some(0);
            }
        }
    }

    /// True while a visual selection is anchored.
    pub fn in_visual_mode(&self) -> (r: bool)
        ensures
            r == (self.selection_spec() is Some),
    {
        self.selection_start.is_some()
    }

    /// Leaves visual mode without other effect.
    pub fn clear_selection(&mut self)
        requires
            old(self).wf(),
        ensures
            final(self).wf(),
            *final(self) == (DisplayBuffer { selection_start: None, ..*old(self) }),
    {
        self.selection_start = None;
    }

    /// The inclusive selected range: the anchored range in visual mode, the
    /// cursor line alone otherwise.
    pub open spec fn sel_range_spec(&self) -> (int, int) {
        match self.selection_start {
            Some(a) => {
                if a as int <= self.cursor as int {
                    (a as int, self.cursor as int)
                } else {
                    (self.cursor as int, a as int)
                }
            }
            None => (self.cursor as int, self.cursor as int),
        }
    }

    /// The selection as `(start, end)`, inclusive.
    fn selection_range(&self) -> (r: (usize, usize))
        ensures
            (r.0 as int, r.1 as int) == self.sel_range_spec(),
    {
        match self.selection_start {
            Some(a) => {
                if a <= self.cursor {
                    (a, self.cursor)
                } else {
                    (self.cursor, a)
                }
            }
            None => (self.cursor, self.cursor),
        }
    }

    /// The texts of lines `lo ..= hi`, joined by a newline.
    pub open spec fn joined_text(lines: Seq<DisplayLine>, lo: int, hi: int) -> Seq<char>
        recommends
            0 <= lo <= hi < lines.len(),
        decreases hi - lo,
    {
        if lo >= hi {
            lines[lo].text_spec()
        } else {
            lines[lo].text_spec() + seq!['\n'] + Self::joined_text(lines, lo + 1, hi)
        }
    }

    /// The text a yank of the current selection copies: the selected lines
    /// (or the cursor line), flattened and joined by newlines; empty when
    /// the buffer is empty.
    pub open spec fn yank_text_spec(&self) -> Seq<char> {
        if self.lines@.len() == 0 {
            Seq::empty()
        } else {
            Self::joined_text(self.lines@, self.sel_range_spec().0, self.sel_range_spec().1)
        }
    }

    /// Gets the text of the selected lines, styles stripped, joined by
    /// newlines.
    pub fn get_selected_text(&self) -> (r: String)
        requires
            self.wf(),
        ensures
            r@ == self.yank_text_spec(),
    {
        if self.lines.len() == 0 {
            return String::new();
        }
        let (lo, hi) = self.selection_range();
        let mut out = self.lines[lo].text();
        let mut i: usize = lo;
        while i < hi
            invariant
                self.wf(),
                self.sel_range_spec().0 == lo,
                self.sel_range_spec().1 == hi,
                0 <= lo <= i <= hi < self.lines@.len(),
                out@ == Self::joined_text(self.lines@, lo as int, i as int),
            decreases hi - i,
        {
            proof {
                reveal_strlit("\n");
            }
            out.append("\n");
            let next = self.lines[i + 1].text();
            out.append(next.as_str());
            proof {
                lemma_joined_text_snoc(self.lines@, lo as int, i + 1);
                assert(out@ =~= Self::joined_text(self.lines@, lo as int, i + 1));
            }
            i = i + 1;
        }
        out
    }

    /// Number of lines the current selection covers.
    fn selection_line_count(&self) -> (r: usize)
        requires
            self.wf(),
            self.lines@.len() > 0,
        ensures
            r as int == self.sel_range_spec().1 - self.sel_range_spec().0 + 1,
    {
        let (lo, hi) = self.selection_range();
        hi - lo + 1
    }

    /// Copies the selected text (or the cursor line) to the system
    /// clipboard. Visual mode is left whether or not the clipboard
    /// cooperated; on success the result counts the lines copied.
    pub fn yank(&mut self) -> (r: Result<usize, String>)
        requires
            old(self).wf(),
        ensures
            final(self).wf(),
            final(self).selection_spec() is None,
            final(self).lines_spec() == old(self).lines_spec(),
            final(self).cursor_spec() == old(self).cursor_spec(),
            final(self).view_start_spec() == old(self).view_start_spec(),
            final(self).matches_spec() == old(self).matches_spec(),
            final(self).match_idx_spec() == old(self).match_idx_spec(),
            final(self).same_modes(old(self)),
            r matches Ok(n) ==> old(self).lines_spec().len() > 0 && n as int == old(self).sel_range_spec().1 - old(self).sel_range_spec().0 + 1,
    {
        let text = self.get_selected_text();
        if self.lines.len() == 0 {
            // Nothing to copy; leave visual mode all the same.
            self.selection_start = None;
            return Err("nothing to yank".to_owned());
        }
        let num_lines = self.selection_line_count();
        if self.clipboard.is_none() {
            match clipboard_new() {
                Ok(cb) => {
                    self.clipboard = Some(cb);
                }
                Err(e) => {
                    self.selection_start = None;
                    return Err(e);
                }
            }
        }
        let r = match &mut self.clipboard {
            Some(cb) => clipboard_set_text(cb, text),
            None => Err("clipboard unavailable".to_owned()),
        };
        self.selection_start = None;
        match r {
            Ok(_) => Ok(num_lines),
            Err(e) => Err(e),
        }
    }

    /// True while keys are being captured into the search query.
    pub fn in_search_mode(&self) -> (r: bool)
        ensures
            r == self.search_mode_spec(),
    {
        self.search_mode
    }

    /// Enters search mode with an empty query and no matches.
    pub fn start_search(&mut self)
        requires
            old(self).wf(),
        ensures
            final(self).wf(),
            final(self).search_mode_spec(),
            final(self).query_spec().len() == 0,
            final(self).matches_spec().len() == 0,
            final(self).match_idx_spec() == 0,
            final(self).lines_spec() == old(self).lines_spec(),
            final(self).cursor_spec() == old(self).cursor_spec(),
            final(self).view_start_spec() == old(self).view_start_spec(),
            final(self).selection_spec() == old(self).selection_spec(),
            final(self).pending_g_spec() == old(self).pending_g_spec(),
    {
        self.search_mode = true;
        self.search_query = String::new();
        self.search_matches = Vec::new();
        self.search_match_idx = 0;
    }

    /// Leaves search mode and drops the query; the committed matches and
    /// the match cursor are not touched.
    pub fn cancel_search(&mut self)
        requires
            old(self).wf(),
        ensures
            final(self).wf(),
            !final(self).search_mode_spec(),
            final(self).query_spec().len() == 0,
            final(self).matches_spec() == old(self).matches_spec(),
            final(self).match_idx_spec() == old(self).match_idx_spec(),
            final(self).lines_spec() == old(self).lines_spec(),
            final(self).cursor_spec() == old(self).cursor_spec(),
            final(self).view_start_spec() == old(self).view_start_spec(),
            final(self).selection_spec() == old(self).selection_spec(),
            final(self).pending_g_spec() == old(self).pending_g_spec(),
    {
        self.search_mode = false;
        self.search_query = String::new();
    }

    /// Appends a character to the search query.
    pub fn search_push(&mut self, c: char)
        requires
            old(self).wf(),
        ensures
            final(self).wf(),
            final(self).query_spec() == old(self).query_spec().push(c),
            *final(self) == (DisplayBuffer {
                search_query: final(self).search_query,
                ..*old(self)
            }),
    {
        crate::text::string_push_char(&mut self.search_query, c);
    }

    /// Removes the last character of the search query, if any.
    pub fn search_pop(&mut self)
        requires
            old(self).wf(),
        ensures
            final(self).wf(),
            final(self).query_spec() == (if old(self).query_spec().len() > 0 {
                old(self).query_spec().drop_last()
            } else {
                old(self).query_spec()
            }),
            *final(self) == (DisplayBuffer {
                search_query: final(self).search_query,
                ..*old(self)
            }),
    {
        let _ = crate::text::string_pop_char(&mut self.search_query);
    }

    /// The current search query.
    pub fn search_query(&self) -> (r: &str)
        ensures
            r@ == self.query_spec(),
    {
        self.search_query.as_str()
    }

    /// Line `i` matches query `q`: the lower-cased query occurs in the
    /// lower-cased text of the line.
    pub open spec fn line_matches(lines: Seq<DisplayLine>, q: Seq<char>, i: int) -> bool {
        contains_seq(lower_of(lines[i].text_spec()), lower_of(q))
    }

    /// Runs the committed query over every line: afterwards the match list
    /// holds exactly the indices of matching lines, ascending, and the
    /// cursor sits on the first match if there is one. An empty query
    /// matches nothing.
    fn execute_search(&mut self, height: usize)
        requires
            old(self).wf(),
        ensures
            final(self).wf(),
            final(self).lines_spec() == old(self).lines_spec(),
            final(self).selection_spec() == old(self).selection_spec(),
            final(self).same_modes(old(self)),
            final(self).match_idx_spec() == 0,
            old(self).query_spec().len() == 0 ==> final(self).matches_spec().len() == 0 && final(self).cursor_spec() == old(self).cursor_spec() && final(self).view_start_spec() == old(self).view_start_spec(),
            old(self).query_spec().len() > 0 ==> {
                &&& forall|i: int|
                    0 <= i < old(self).lines_spec().len() ==> (#[trigger] final(self).matches_spec().contains(i as usize) <==> Self::line_matches(
                        old(self).lines_spec(),
                        old(self).query_spec(),
                        i,
                    ))
                &&& (final(self).matches_spec().len() > 0 ==> {
                    &&& final(self).cursor_spec() == final(self).matches_spec()[0] as int
                    &&& final(self).view_start_spec() == spec_adjust(
                        old(self).view_start_spec(),
                        final(self).cursor_spec(),
                        old(self).lines_spec().len() as int,
                        height as int,
                    )
                    &&& (height > 0 ==> final(self).cursor_spec() - final(self).view_start_spec()
                        < height)
                })
                &&& (final(self).matches_spec().len() == 0 ==> final(self).cursor_spec() == old(self).cursor_spec() && final(self).view_start_spec() == old(self).view_start_spec())
            },
    {
        self.search_matches = Vec::new();
        self.search_match_idx = 0;
        if self.search_query.as_str().is_empty() {
            return ;
        }
        let query_lower = lowercase(self.search_query.as_str());
        let query_chars = chars_of(query_lower.as_str());
        let n = self.lines.len();
        let mut matches: Vec<usize> = Vec::new();
        let mut i: usize = 0;
        while i < n
            invariant
                n == self.lines@.len(),
                i <= n,
                query_chars@ == lower_of(self.search_query@),
                forall|k: int|
                    0 <= k < matches@.len() ==> (#[trigger] matches@[k] as int) < i,
                forall|p: int, q: int|
                    0 <= p < q < matches@.len() ==> #[trigger] matches@[p] < #[trigger] matches@[q],
                forall|j: int|
                    0 <= j < i ==> (#[trigger] matches@.contains(j as usize) <==> Self::line_matches(
                        self.lines@,
                        self.search_query@,
                        j,
                    )),
            decreases n - i,
        {
            let text = self.lines[i].text();
            let text_lower = lowercase(text.as_str());
            let text_chars = chars_of(text_lower.as_str());
            let ghost before = matches@;
            if contains_chars(&text_chars, &query_chars) {
                matches.push(i);
            }
            proof {
                assert forall|j: int| 0 <= j < i + 1 implies (#[trigger] matches@.contains(
                    j as usize,
                ) <==> Self::line_matches(self.lines@, self.search_query@, j)) by {
                    if j < i {
                        assert(before.contains(j as usize) <==> Self::line_matches(
                            self.lines@,
                            self.search_query@,
                            j,
                        ));
                        if before.contains(j as usize) {
                            let k = choose|k: int|
                                0 <= k < before.len() && before[k] == j as usize;
                            assert(matches@[k] == j as usize);
                            assert(matches@.contains(j as usize));
                        }
                        if matches@.contains(j as usize) {
                            let k = choose|k: int|
                                0 <= k < matches@.len() && matches@[k] == j as usize;
                            if k < before.len() {
                                assert(before.contains(j as usize));
                            } else {
                                assert(matches@[k] == i as usize);
                            }
                        }
                    } else {
                        if Self::line_matches(self.lines@, self.search_query@, j) {
                            assert(matches@[matches@.len() - 1] == i as usize);
                            assert(matches@.contains(j as usize));
                        }
                        if matches@.contains(j as usize) {
                            let k = choose|k: int|
                                0 <= k < matches@.len() && matches@[k] == j as usize;
                            if k < before.len() {
                                assert((before[k] as int) < (i as int));
                                assert(false);
                            }
                        }
                    }
                }
            }
            i = i + 1;
        }
        self.search_matches = matches;
        if self.search_matches.len() > 0 {
            self.cursor = self.search_matches[0];
            self.adjust_scroll(height);
        }
    }

    /// Commits the query: leaves search mode and runs the search.
    pub fn finish_search(&mut self, height: usize)
        requires
            old(self).wf(),
        ensures
            final(self).wf(),
            Self::committed_search(*old(self), *final(self), height as int),
            final(self).matches_spec().len() > 0 && height > 0 ==> final(self).cursor_spec()
                - final(self).view_start_spec() < height,
    {
        self.search_mode = false;
        self.execute_search(height);
    }

    /// Jumps to the next match, wrapping at the end of the list.
    pub fn next_match(&mut self, height: usize)
        requires
            old(self).wf(),
        ensures
            final(self).wf(),
            final(self).lines_spec() == old(self).lines_spec(),
            final(self).selection_spec() == old(self).selection_spec(),
            final(self).matches_spec() == old(self).matches_spec(),
            final(self).same_modes(old(self)),
            old(self).matches_spec().len() == 0 ==> *final(self) == *old(self),
            old(self).matches_spec().len() > 0 ==> {
                &&& final(self).match_idx_spec() == (old(self).match_idx_spec() + 1) % (old(self).matches_spec().len() as int)
                &&& final(self).cursor_spec() == old(self).matches_spec()[final(self).match_idx_spec()] as int
                &&& final(self).view_start_spec() == spec_adjust(
                    old(self).view_start_spec(),
                    final(self).cursor_spec(),
                    old(self).lines_spec().len() as int,
                    height as int,
                )
                &&& (height > 0 ==> final(self).cursor_spec() - final(self).view_start_spec()
                    < height)
            },
    {
        if self.search_matches.len() == 0 {
            return ;
        }
        self.search_match_idx = (self.search_match_idx + 1) % self.search_matches.len();
        self.cursor = self.search_matches[self.search_match_idx];
        self.adjust_scroll(height);
    }

    /// Jumps to the previous match, wrapping at the start of the list.
    pub fn prev_match(&mut self, height: usize)
        requires
            old(self).wf(),
        ensures
            final(self).wf(),
            final(self).lines_spec() == old(self).lines_spec(),
            final(self).selection_spec() == old(self).selection_spec(),
            final(self).matches_spec() == old(self).matches_spec(),
            final(self).same_modes(old(self)),
            old(self).matches_spec().len() == 0 ==> *final(self) == *old(self),
            old(self).matches_spec().len() > 0 ==> {
                &&& final(self).match_idx_spec() == (if old(self).match_idx_spec() == 0 {
                    old(self).matches_spec().len() - 1
                } else {
                    old(self).match_idx_spec() - 1
                })
                &&& final(self).cursor_spec() == old(self).matches_spec()[final(self).match_idx_spec()] as int
                &&& final(self).view_start_spec() == spec_adjust(
                    old(self).view_start_spec(),
                    final(self).cursor_spec(),
                    old(self).lines_spec().len() as int,
                    height as int,
                )
                &&& (height > 0 ==> final(self).cursor_spec() - final(self).view_start_spec()
                    < height)
            },
    {
        if self.search_matches.len() == 0 {
            return ;
        }
        self.search_match_idx = if self.search_match_idx == 0 {
            self.search_matches.len() - 1
        } else {
            self.search_match_idx - 1
        };
        self.cursor = self.search_matches[self.search_match_idx];
        self.adjust_scroll(height);
    }
}

/// Extending a joined range by one line appends a newline and that line's
/// text.
proof fn lemma_joined_text_snoc(lines: Seq<DisplayLine>, lo: int, hi: int)
    requires
        0 <= lo < hi < lines.len(),
    ensures
        DisplayBuffer::joined_text(lines, lo, hi) == DisplayBuffer::joined_text(lines, lo, hi - 1)
            + seq!['\n'] + lines[hi].text_spec(),
    decreases hi - lo,
{
    if lo == hi - 1 {
        assert(DisplayBuffer::joined_text(lines, lo, hi) == lines[lo].text_spec() + seq!['\n']
            + lines[hi].text_spec());
    } else {
        lemma_joined_text_snoc(lines, lo + 1, hi);
        assert(DisplayBuffer::joined_text(lines, lo, hi) == lines[lo].text_spec() + seq!['\n']
            + DisplayBuffer::joined_text(lines, lo + 1, hi));
        assert(DisplayBuffer::joined_text(lines, lo, hi - 1) == lines[lo].text_spec()
            + seq!['\n'] + DisplayBuffer::joined_text(lines, lo + 1, hi - 1));
        assert((lines[lo].text_spec() + seq!['\n'] + (DisplayBuffer::joined_text(
            lines,
            lo + 1,
            hi - 1,
        ) + seq!['\n'] + lines[hi].text_spec())) =~= (lines[lo].text_spec() + seq!['\n']
            + DisplayBuffer::joined_text(lines, lo + 1, hi - 1)) + seq!['\n']
            + lines[hi].text_spec());
    }
}

} // verus!

verus! {

/// What the display asks its owner to do after a key press.
#[derive(Debug)]
pub enum DisplayAction {
    /// Move focus to the input bar.
    FocusInput,
    /// Show this message to the operator.
    Notify(String),
}

/// The notification after a successful yank of `n` lines.
pub open spec fn yank_ok_message(n: nat) -> Seq<char> {
    "Yanked "@ + dec_digits(n) + " line(s)"@
}

/// The notification after a failed yank with reason `e`.
pub open spec fn yank_err_message(e: Seq<char>) -> Seq<char> {
    "Yank failed: "@ + e
}

/// Control held, and not shift.
pub open spec fn ctrl_only(k: KeyInput) -> bool {
    k.ctrl && !k.shift
}

/// Shift held, and not control.
pub open spec fn shift_only(k: KeyInput) -> bool {
    k.shift && !k.ctrl
}

impl DisplayBuffer {
    /// The cursor moved to `c` and the viewport followed by the margin rule;
    /// everything else as before.
    pub open spec fn nav_effect(pre: Self, post: Self, c: int, h: int) -> bool {
        &&& post.cursor_spec() == c
        &&& post.view_start_spec() == spec_adjust(
            pre.view_start_spec(),
            c,
            pre.lines_spec().len() as int,
            h,
        )
        &&& post.same_but_nav(&pre)
        &&& post.pending_g == pre.pending_g
    }

    /// The effect of committing a search over the lines of `pre` with the
    /// query of `pre`: the match list holds exactly the matching indices,
    /// the cursor jumps to the first match if any.
    pub open spec fn committed_search(pre: Self, post: Self, h: int) -> bool {
        &&& !post.search_mode
        &&& post.lines@ == pre.lines@
        &&& post.selection_start == pre.selection_start
        &&& post.search_query@ == pre.search_query@
        &&& post.pending_g == pre.pending_g
        &&& post.search_match_idx == 0
        &&& (pre.search_query@.len() == 0 ==> post.search_matches@.len() == 0 && post.cursor
            == pre.cursor && post.view_start == pre.view_start)
        &&& (pre.search_query@.len() > 0 ==> {
            &&& forall|i: int|
                0 <= i < pre.lines@.len() ==> (#[trigger] post.search_matches@.contains(i as usize)
                    <==> Self::line_matches(pre.lines@, pre.search_query@, i))
            &&& (post.search_matches@.len() > 0 ==> post.cursor_spec()
                == post.search_matches@[0] as int && post.view_start_spec() == spec_adjust(
                pre.view_start_spec(),
                post.cursor_spec(),
                pre.lines_spec().len() as int,
                h,
            ))
            &&& (post.search_matches@.len() == 0 ==> post.cursor == pre.cursor && post.view_start
                == pre.view_start)
        })
    }

    /// What one key does outside search mode, once any pending `g` has been
    /// consumed: the dispatch table of the display.
    pub open spec fn normal_key_effect(
        pre: Self,
        post: Self,
        key: KeyInput,
        h: int,
        r: Option<DisplayAction>,
    ) -> bool {
        if ctrl_only(key) && key.key == Key::Char('u') {
            let c = if pre.cursor_spec() >= h / 2 {
                pre.cursor_spec() - h / 2
            } else {
                0
            };
            Self::nav_effect(pre, post, c, h) && r is None
        } else if ctrl_only(key) && key.key == Key::Char('d') {
            let len = pre.lines_spec().len() as int;
            let maxc = if len > 0 {
                len - 1
            } else {
                0
            };
            let t = pre.cursor_spec() + h / 2;
            let c = if t <= maxc {
                t
            } else {
                maxc
            };
            Self::nav_effect(pre, post, c, h) && r is None
        } else if key.key == Key::Char('g') {
            post == (Self { pending_g: true, ..pre }) && r is None
        } else if shift_only(key) && key.key == Key::Char('G') {
            let len = pre.lines_spec().len() as int;
            let c = if len > 0 {
                len - 1
            } else {
                0
            };
            Self::nav_effect(pre, post, c, h) && r is None
        } else if key.key == Key::Char('/') {
            &&& post.search_mode
            &&& post.search_query@.len() == 0
            &&& post.search_matches@.len() == 0
            &&& post.search_match_idx == 0
            &&& post.lines@ == pre.lines@
            &&& post.cursor == pre.cursor
            &&& post.view_start == pre.view_start
            &&& post.selection_start == pre.selection_start
            &&& post.pending_g == pre.pending_g
            &&& r is None
        } else if key.key == Key::Char('n') && !key.shift {
            if pre.search_matches@.len() == 0 {
                post == pre && r is None
            } else {
                let idx = (pre.search_match_idx + 1) % (pre.search_matches@.len() as int);
                post.search_match_idx == idx && post.cursor_spec()
                    == pre.search_matches@[idx] as int && post.view_start_spec() == spec_adjust(
                    pre.view_start_spec(),
                    post.cursor_spec(),
                    pre.lines_spec().len() as int,
                    h,
                ) && post.lines@ == pre.lines@ && post.selection_start == pre.selection_start
                    && post.search_matches@ == pre.search_matches@ && post.same_modes(&pre)
                    && post.pending_g == pre.pending_g && r is None
            }
        } else if shift_only(key) && key.key == Key::Char('N') {
            if pre.search_matches@.len() == 0 {
                post == pre && r is None
            } else {
                let idx = if pre.search_match_idx == 0 {
                    pre.search_matches@.len() - 1
                } else {
                    pre.search_match_idx - 1
                };
                post.search_match_idx == idx && post.cursor_spec()
                    == pre.search_matches@[idx as int] as int && post.view_start_spec()
                    == spec_adjust(
                    pre.view_start_spec(),
                    post.cursor_spec(),
                    pre.lines_spec().len() as int,
                    h,
                ) && post.lines@ == pre.lines@ && post.selection_start == pre.selection_start
                    && post.search_matches@ == pre.search_matches@ && post.same_modes(&pre)
                    && post.pending_g == pre.pending_g && r is None
            }
        } else if key.key == Key::Char('v') || (shift_only(key) && key.key == Key::Char('V')) {
            post == (Self {
                selection_start: if pre.selection_start is Some {
                    None
                } else {
                    Some(pre.cursor)
                },
                ..pre
            }) && r is None
        } else if key.key == Key::Char('y') {
            &&& post.selection_start is None
            &&& post.lines@ == pre.lines@
            &&& post.cursor == pre.cursor
            &&& post.view_start == pre.view_start
            &&& post.search_matches@ == pre.search_matches@
            &&& post.search_match_idx == pre.search_match_idx
            &&& post.same_modes(&pre)
            &&& post.pending_g == pre.pending_g
            &&& match r {
                Some(DisplayAction::Notify(m)) => {
                    ||| (pre.lines@.len() > 0 && m@ == yank_ok_message(
                        (pre.sel_range_spec().1 - pre.sel_range_spec().0 + 1) as nat,
                    ))
                    ||| (exists|e: Seq<char>| m@ == yank_err_message(e))
                },
                _ => false,
            }
        } else if key.key == Key::Esc && pre.selection_start is Some {
            post == (Self { selection_start: None, ..pre }) && r is None
        } else if key.key == Key::Char('k') || key.key == Key::Up {
            if pre.cursor_spec() > 0 {
                Self::nav_effect(pre, post, pre.cursor_spec() - 1, h) && r is None
            } else {
                post == pre && r is None
            }
        } else if key.key == Key::Char('j') || key.key == Key::Down {
            if pre.cursor_spec() + 1 < pre.lines_spec().len() {
                Self::nav_effect(pre, post, pre.cursor_spec() + 1, h) && r is None
            } else {
                post == pre && r is None
            }
        } else if key.key == Key::Enter {
            post == pre && r matches Some(DisplayAction::FocusInput)
        } else {
            post == pre && r is None
        }
    }

    /// Dispatches one key outside search mode (no pending `g`).
    fn handle_normal_key(&mut self, key: KeyInput, height: usize) -> (r: Option<DisplayAction>)
        requires
            old(self).wf(),
            !old(self).search_mode,
            !old(self).pending_g,
        ensures
            final(self).wf(),
            Self::normal_key_effect(*old(self), *final(self), key, height as int, r),
    {
        if key.ctrl && !key.shift && key.key == Key::Char('u') {
            self.half_page_up(height);
            return None;
        }
        if key.ctrl && !key.shift && key.key == Key::Char('d') {
            self.half_page_down(height);
            return None;
        }
        if key.key == Key::Char('g') {
            self.pending_g = true;
            return None;
        }
        if key.shift && !key.ctrl && key.key == Key::Char('G') {
            self.go_to_bottom(height);
            return None;
        }
        if key.key == Key::Char('/') {
            self.start_search();
            return None;
        }
        if key.key == Key::Char('n') && !key.shift {
            self.next_match(height);
            return None;
        }
        if key.shift && !key.ctrl && key.key == Key::Char('N') {
            self.prev_match(height);
            return None;
        }
        if key.key == Key::Char('v') || (key.shift && !key.ctrl && key.key == Key::Char('V')) {
            self.toggle_visual();
            return None;
        }
        if key.key == Key::Char('y') {
            proof {
                reveal_strlit("Yanked ");
                reveal_strlit(" line(s)");
                reveal_strlit("Yank failed: ");
            }
            match self.yank() {
                Ok(n) => {
                    let mut m = "Yanked ".to_owned();
                    m.append(u64_to_string(n as u64).as_str());
                    m.append(" line(s)");
                    proof {
                        assert(m@ =~= yank_ok_message(n as nat));
                    }
                    return Some(DisplayAction::Notify(m));
                }
                Err(e) => {
                    let mut m = "Yank failed: ".to_owned();
                    m.append(e.as_str());
                    proof {
                        assert(m@ =~= yank_err_message(e@));
                    }
                    return Some(DisplayAction::Notify(m));
                }
            }
        }
        if key.key == Key::Esc && self.selection_start.is_some() {
            self.selection_start = None;
            return None;
        }
        if key.key == Key::Char('k') || key.key == Key::Up {
            self.move_up(height);
            return None;
        }
        if key.key == Key::Char('j') || key.key == Key::Down {
            self.move_down(height);
            return None;
        }
        if key.key == Key::Enter {
            return Some(DisplayAction::FocusInput);
        }
        None
    }

    /// What one key press does to the display: in search mode every key is
    /// captured into the query (Escape cancels, Enter commits); a pending
    /// `g` completes `gg` or falls through; otherwise the dispatch table of
    /// [`Self::normal_key_effect`] applies.
    pub open spec fn key_step(
        pre: Self,
        post: Self,
        key: KeyInput,
        h: int,
        r: Option<DisplayAction>,
    ) -> bool {
        if pre.search_mode {
            &&& r is None
            &&& (key.key == Key::Esc ==> !post.search_mode && post.search_query@.len() == 0
                && post.search_matches@ == pre.search_matches@ && post.search_match_idx
                == pre.search_match_idx && post.lines@ == pre.lines@ && post.cursor == pre.cursor
                && post.view_start == pre.view_start && post.selection_start
                == pre.selection_start)
            &&& (key.key == Key::Enter ==> Self::committed_search(pre, post, h))
            &&& (key.key == Key::Backspace ==> post == (Self {
                search_query: post.search_query,
                ..pre
            }) && post.search_query@ == (if pre.search_query@.len() > 0 {
                pre.search_query@.drop_last()
            } else {
                pre.search_query@
            }))
            &&& (forall|c: char|
                key.key == Key::Char(c) ==> post == (Self {
                    search_query: post.search_query,
                    ..pre
                }) && post.search_query@ == pre.search_query@.push(c))
            &&& (key.key == Key::Tab || key.key == Key::Up || key.key == Key::Down ==> post
                == pre)
        } else if pre.pending_g {
            &&& (key.key == Key::Char('g') ==> r is None && Self::nav_effect(
                Self { pending_g: false, ..pre },
                post,
                0,
                h,
            ) && !post.pending_g)
            &&& (key.key != Key::Char('g') ==> Self::normal_key_effect(
                Self { pending_g: false, ..pre },
                post,
                key,
                h,
                r,
            ))
        } else {
            Self::normal_key_effect(pre, post, key, h, r)
        }
    }

    /// Routes one key press to the display, honouring search capture and the
    /// two-key `gg` sequence, then the dispatch table of
    /// [`Self::normal_key_effect`].
    pub fn handle_key(&mut self, key: KeyInput, height: usize) -> (r: Option<DisplayAction>)
        requires
            old(self).wf(),
        ensures
            final(self).wf(),
            Self::key_step(*old(self), *final(self), key, height as int, r),
    {
        if self.in_search_mode() {
            match key.key {
                Key::Esc => {
                    self.cancel_search();
                }
                Key::Enter => {
                    self.finish_search(height);
                }
                Key::Backspace => {
                    self.search_pop();
                }
                Key::Char(c) => {
                    self.search_push(c);
                }
                _ => {}
            }
            return None;
        }
        if self.pending_g {
            self.pending_g = false;
            if key.key == Key::Char('g') {
                self.go_to_top(height);
                return None;
            }
        }
        self.handle_normal_key(key, height)
    }
}

} // verus!

verus! {

/// How one visible line is highlighted, in priority order: the cursor line,
/// then a selected line, then a search match, then as stored.
#[derive(Clone, Copy, Debug, PartialEq, Eq, Structural)]
pub enum LineHighlight {
    CursorLine,
    Selected,
    Matched,
    Plain,
}

impl DisplayBuffer {
    /// Line `i` lies in the visual selection.
    pub open spec fn selected_spec(&self, i: int) -> bool {
        self.selection_start is Some && self.sel_range_spec().0 <= i <= self.sel_range_spec().1
    }

    /// The highlight of line `i`, by the render priority.
    pub open spec fn highlight_spec(&self, i: int) -> LineHighlight {
        if i == self.cursor as int {
            LineHighlight::CursorLine
        } else if self.selected_spec(i) {
            LineHighlight::Selected
        } else if self.search_matches@.contains(i as usize) {
            LineHighlight::Matched
        } else {
            LineHighlight::Plain
        }
    }

    /// True when line `idx` is one of the committed search matches.
    fn is_match(&self, idx: usize) -> (r: bool)
        ensures
            r == self.search_matches@.contains(idx),
    {
        let n = self.search_matches.len();
        let mut i: usize = 0;
        while i < n
            invariant
                n == self.search_matches@.len(),
                i <= n,
                forall|k: int| 0 <= k < i ==> self.search_matches@[k] != idx,
            decreases n - i,
        {
            if self.search_matches[i] == idx {
                assert(self.search_matches@.contains(idx));
                return true;
            }
            i = i + 1;
        }
        assert(forall|k: int|
            0 <= k < self.search_matches@.len() ==> self.search_matches@[k] != idx);
        false
    }

    /// The highlight to draw line `idx` with.
    pub fn line_highlight(&self, idx: usize) -> (r: LineHighlight)
        requires
            self.wf(),
        ensures
            r == self.highlight_spec(idx as int),
    {
        if idx == self.cursor {
            return LineHighlight::CursorLine;
        }
        let selected = match self.selection_start {
            Some(a) => {
                let (lo, hi) = self.selection_range();
                lo <= idx && idx <= hi
            }
            None => false,
        };
        if selected {
            return LineHighlight::Selected;
        }
        if self.is_match(idx) {
            return LineHighlight::Matched;
        }
        LineHighlight::Plain
    }

    /// The half-open range of line indices the viewport shows:
    /// `view_start .. min(view_start + height, len)`.
    pub fn visible_range(&self, height: usize) -> (r: (usize, usize))
        requires
            self.wf(),
        ensures
            r.0 == self.view_start,
            r.1 as int == (if self.view_start_spec() + height <= self.lines_spec().len() {
                self.view_start_spec() + height
            } else {
                self.lines_spec().len() as int
            }),
            r.0 <= r.1 <= self.lines_spec().len(),
    {
        let len = self.lines.len();
        let end = if len - self.view_start < height {
            len
        } else {
            self.view_start + height
        };
        (self.view_start, end)
    }

    /// The title suffix of the display block: `[SEARCH]` while the query is
    /// captured, `[VISUAL]` while a selection is anchored, the one-indexed
    /// `[current/total]` match position while matches stand, else nothing.
    pub open spec fn title_spec(&self) -> Seq<char> {
        if self.search_mode {
            " Display [SEARCH] "@
        } else if self.selection_start is Some {
            " Display [VISUAL] "@
        } else if self.search_matches@.len() > 0 {
            " Display ["@ + dec_digits((self.search_match_idx + 1) as nat) + "/"@ + dec_digits(
                self.search_matches@.len() as nat,
            ) + "] "@
        } else {
            " Display "@
        }
    }

    /// Renders the block title with the mode suffix.
    pub fn title(&self) -> (r: String)
        requires
            self.wf(),
        ensures
            r@ == self.title_spec(),
    {
        if self.search_mode {
            return " Display [SEARCH] ".to_owned();
        }
        if self.selection_start.is_some() {
            return " Display [VISUAL] ".to_owned();
        }
        if self.search_matches.len() > 0 {
            proof {
                reveal_strlit(" Display [");
                reveal_strlit("/");
                reveal_strlit("] ");
            }
            let mut t = " Display [".to_owned();
            t.append(u64_to_string((self.search_match_idx as u64) + 1).as_str());
            t.append("/");
            t.append(u64_to_string(self.search_matches.len() as u64).as_str());
            t.append("] ");
            proof {
                assert(t@ =~= self.title_spec());
            }
            return t;
        }
        " Display ".to_owned()
    }

    /// The buffer contents after a sequence of pushes.
    pub open spec fn fold_push(lines: Seq<DisplayLine>, inputs: Seq<DisplayLine>) -> Seq<
        DisplayLine,
    >
        decreases inputs.len(),
    {
        if inputs.len() == 0 {
            lines
        } else {
            Self::fold_push(Self::spec_push_lines(lines, inputs[0]), inputs.skip(1))
        }
    }
}

/// After any sequence of pushes into a buffer that started with `lines`,
/// what remains is the trailing `MAX_LINES` window of everything ever
/// pushed: the length never passes the bound, and each retained line equals
/// the corresponding trailing input.
pub proof fn lemma_fold_push_window(lines: Seq<DisplayLine>, inputs: Seq<DisplayLine>)
    requires
        lines.len() <= MAX_LINES,
    ensures
        DisplayBuffer::fold_push(lines, inputs).len() == (if lines.len() + inputs.len()
            <= MAX_LINES {
            lines.len() + inputs.len()
        } else {
            MAX_LINES as nat
        }),
        DisplayBuffer::fold_push(lines, inputs) == (lines + inputs).skip(
            lines.len() + inputs.len() - DisplayBuffer::fold_push(lines, inputs).len(),
        ),
    decreases inputs.len(),
{
    let fold = DisplayBuffer::fold_push(lines, inputs);
    if inputs.len() == 0 {
        assert(fold == lines);
        assert((lines + inputs).skip(0) =~= lines);
    } else {
        let first = inputs[0];
        let pushed = DisplayBuffer::spec_push_lines(lines, first);
        lemma_fold_push_window(pushed, inputs.skip(1));
        let rest = inputs.skip(1);
        assert(fold == DisplayBuffer::fold_push(pushed, rest));
        if lines.len() >= MAX_LINES {
            assert(pushed =~= lines.skip(1).push(first));
            assert(pushed.len() == MAX_LINES);
            assert((pushed + rest) =~= (lines + inputs).skip(1));
        } else {
            assert(pushed =~= lines.push(first));
            assert((pushed + rest) =~= lines + inputs);
        }
        let m = DisplayBuffer::fold_push(pushed, rest).len();
        assert(fold == (pushed + rest).skip(pushed.len() + rest.len() - m));
        if lines.len() >= MAX_LINES {
            assert((pushed + rest).skip(pushed.len() + rest.len() - m) =~= (lines + inputs).skip(
                lines.len() + inputs.len() - m,
            ));
        }
    }
}

/// Starting from an empty buffer, at most `MAX_LINES` pushes are retained
/// and every retained line equals the corresponding trailing input line.
pub proof fn lemma_pushes_keep_trailing_window(inputs: Seq<DisplayLine>)
    ensures
        DisplayBuffer::fold_push(Seq::empty(), inputs).len() == (if inputs.len() <= MAX_LINES {
            inputs.len()
        } else {
            MAX_LINES as nat
        }),
        forall|i: int|
            0 <= i < DisplayBuffer::fold_push(Seq::empty(), inputs).len()
                ==> #[trigger] DisplayBuffer::fold_push(Seq::empty(), inputs)[i] == inputs[
                inputs.len() - DisplayBuffer::fold_push(Seq::empty(), inputs).len() + i],
{
    lemma_fold_push_window(Seq::empty(), inputs);
    let fold = DisplayBuffer::fold_push(Seq::empty(), inputs);
    assert((Seq::<DisplayLine>::empty() + inputs) =~= inputs);
    assert(fold == inputs.skip(inputs.len() - fold.len()));
}

} // verus!
