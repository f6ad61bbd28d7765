//! Sidebar bookkeeping: visibility, scroll offsets, the split between the tool list and
//! the detail pane, and plain-text wrapping for the detail pane.

use vstd::prelude::*;
use crate::layout::Rect;
use crate::config::ToolOutputDisplay;
use crate::text::{chars_of, string_from_chars, string_views, sub_chars};

verus! {

/// Sidebar layout: one scrolling stream, or a tool list above a detail pane.
#[derive(Debug, Clone, Copy, PartialEq, Eq, Structural)]
pub enum SidebarStyle {
    Stream,
    Split,
}

/// Sidebar state tracked in App.
pub struct Sidebar {
    /// Whether the sidebar pane is visible.
    pub open: bool,
    /// Scroll offset for the tool list pane (split mode, 0 = top).
    pub list_scroll: usize,
    /// Scroll offset for the detail/stream pane (0 = top).
    pub detail_scroll: usize,
    /// Whether the first tool has been seen (for auto-open logic).
    pub first_tool_seen: bool,
    /// Cached list pane height from last render (for scroll bounds).
    pub list_height: u16,
}

impl Default for Sidebar {
    fn default() -> (s: Self)
        ensures
            !s.open,
            s.list_scroll == 0,
            s.detail_scroll == 0,
            !s.first_tool_seen,
            s.list_height == 0,
    {
        Sidebar {
            open: false,
            list_scroll: 0,
            detail_scroll: 0,
            first_tool_seen: false,
            list_height: 0,
        }
    }
}

impl Sidebar {
    /// Everything but the two scroll offsets is as in `other`.
    pub open spec fn same_but_scroll(&self, other: &Self) -> bool {
        &&& self.open == other.open
        &&& self.first_tool_seen == other.first_tool_seen
        &&& self.list_height == other.list_height
    }

    /// Reset detail scroll (call when selection changes).
    pub fn reset_detail_scroll(&mut self)
        ensures
            final(self).same_but_scroll(old(self)),
            final(self).list_scroll == old(self).list_scroll,
            final(self).detail_scroll == 0,
    {
        self.detail_scroll = 0;
    }

    /// Scroll the tool list up (toward earlier entries).
    pub fn scroll_list_up(&mut self, n: usize)
        ensures
            final(self).same_but_scroll(old(self)),
            final(self).detail_scroll == old(self).detail_scroll,
            final(self).list_scroll == if old(self).list_scroll >= n {
                old(self).list_scroll - n
            } else {
                0
            },
    {
        self.list_scroll = self.list_scroll.saturating_sub(n);
    }

    /// Scroll the tool list down (toward later entries).
    pub fn scroll_list_down(&mut self, n: usize)
        requires
            old(self).list_scroll + n <= usize::MAX,
        ensures
            final(self).same_but_scroll(old(self)),
            final(self).detail_scroll == old(self).detail_scroll,
            final(self).list_scroll == old(self).list_scroll + n,
    {
        self.list_scroll = self.list_scroll + n;
    }

    /// Scroll the detail/stream pane up (toward earlier content).
    pub fn scroll_detail_up(&mut self, n: usize)
        ensures
            final(self).same_but_scroll(old(self)),
            final(self).list_scroll == old(self).list_scroll,
            final(self).detail_scroll == if old(self).detail_scroll >= n {
                old(self).detail_scroll - n
            } else {
                0
            },
    {
        self.detail_scroll = self.detail_scroll.saturating_sub(n);
    }

    /// Scroll the detail/stream pane down (toward later content).
    pub fn scroll_detail_down(&mut self, n: usize)
        requires
            old(self).detail_scroll + n <= usize::MAX,
        ensures
            final(self).same_but_scroll(old(self)),
            final(self).list_scroll == old(self).list_scroll,
            final(self).detail_scroll == old(self).detail_scroll + n,
    {
        self.detail_scroll = self.detail_scroll + n;
    }

    /// Scrolls the list just enough that entry `selected` is among the visible rows
    /// (`list_height` rows, at least one).
    pub fn ensure_selected_visible(&mut self, selected: usize)
        requires
            old(self).list_scroll + (if old(self).list_height >= 1 {
                old(self).list_height as int
            } else {
                1
            }) <= usize::MAX,
        ensures
            final(self).same_but_scroll(old(self)),
            final(self).detail_scroll == old(self).detail_scroll,
            ({
                let visible: int = if old(self).list_height >= 1 {
                    old(self).list_height as int
                } else {
                    1
                };
                final(self).list_scroll == if selected < old(self).list_scroll {
                    selected as int
                } else if selected >= old(self).list_scroll + visible {
                    selected - (visible - 1)
                } else {
                    old(self).list_scroll as int
                }
            }),
            final(self).list_scroll <= selected,
            selected < final(self).list_scroll + (if old(self).list_height >= 1 {
                old(self).list_height as int
            } else {
                1
            }),
    {
        let visible: usize = if self.list_height >= 1 {
            self.list_height as usize
        } else {
            1
        };
        if selected < self.list_scroll {
            self.list_scroll = selected;
        } else if selected >= self.list_scroll + visible {
            self.list_scroll = selected - (visible - 1);
        }
    }
}

/// Heights of the list and detail panes in split mode, or `None` when the content is too
/// short (under six rows) or there are no tools: the list takes the tool count, clamped to
/// two rows and 40% of the height and leaving room for the separator and three detail rows.
pub open spec fn split_heights(h: int, tool_count: int) -> Option<(int, int)> {
    if h < 6 || tool_count == 0 {
        None
    } else {
        let max_list = if h * 40 / 100 >= 2 {
            h * 40 / 100
        } else {
            2
        };
        let available = h - 4;
        let desired = if tool_count < 2 {
            2
        } else if tool_count > max_list {
            max_list
        } else {
            tool_count
        };
        let list_h0 = if desired < available {
            desired
        } else {
            available
        };
        let list_h = if list_h0 >= 2 {
            list_h0
        } else {
            2
        };
        Some((list_h, h - (list_h + 1)))
    }
}

/// Split-mode layout: list, separator row, detail areas.
pub fn compute_split(content: Rect, tool_count: usize) -> (r: (Rect, Option<u16>, Rect))
    requires
        content.y + content.height <= u16::MAX,
    ensures
        match split_heights(content.height as int, tool_count as int) {
            None => r == (
                content,
                None::<u16>,
                Rect { x: content.x, y: (content.y + content.height) as u16, width: content.width, height: 0 },
            ),
            Some((l, d)) => {
                &&& r.0 == Rect { height: l as u16, ..content }
                &&& r.1 == Some((content.y + l) as u16)
                &&& r.2 == Rect { y: (content.y + l + 1) as u16, height: d as u16, ..content }
                &&& 2 <= l
                &&& 3 <= d
                &&& l + 1 + d == content.height
            },
        },
{
    let h = content.height as usize;
    if h < 6 || tool_count == 0 {
        return (
            content,
            None,
            Rect { x: content.x, y: content.y + content.height, width: content.width, height: 0 },
        );
    }
    let m = h * 40 / 100;
    let max_list = if m >= 2 {
        m
    } else {
        2
    };
    let available_for_list = h - 4;
    let desired = if tool_count < 2 {
        2
    } else if tool_count > max_list {
        max_list
    } else {
        tool_count
    };
    let l0 = if desired < available_for_list {
        desired
    } else {
        available_for_list
    };
    let list_h = if l0 >= 2 {
        l0
    } else {
        2
    };
    let detail_h = h - (list_h + 1);
    let list_area = Rect { height: list_h as u16, ..content };
    let sep_y = content.y + list_h as u16;
    let detail_area = Rect { y: sep_y + 1, height: detail_h as u16, ..content };
    (list_area, Some(sep_y), detail_area)
}

/// Compute sidebar sub-areas for external hit-testing: `(top, bottom)` in screen
/// coordinates. In stream mode the top covers the whole sidebar and the bottom is empty;
/// in split mode they are the list and detail areas, full sidebar width.
pub fn sidebar_sub_areas(sidebar_area: Rect, tool_count: usize, style: SidebarStyle) -> (r: (
    Rect,
    Rect,
))
    requires
        sidebar_area.x + 2 <= u16::MAX,
        sidebar_area.y + sidebar_area.height <= u16::MAX,
    ensures
        style == SidebarStyle::Stream ==> r == (sidebar_area, Rect {
            y: (sidebar_area.y + sidebar_area.height) as u16,
            height: 0,
            ..sidebar_area
        }),
        style == SidebarStyle::Split ==> match split_heights(
            sidebar_area.height as int,
            tool_count as int,
        ) {
            None => r == (sidebar_area, Rect {
                y: (sidebar_area.y + sidebar_area.height) as u16,
                height: 0,
                ..sidebar_area
            }),
            Some((l, d)) => r == (Rect { height: l as u16, ..sidebar_area }, Rect {
                y: (sidebar_area.y + l + 1) as u16,
                height: d as u16,
                ..sidebar_area
            }),
        },
{
    let content = Rect {
        x: sidebar_area.x + 2,
        y: sidebar_area.y,
        width: sidebar_area.width.saturating_sub(2),
        height: sidebar_area.height,
    };
    match style {
        SidebarStyle::Stream => {
            let full = Rect { x: sidebar_area.x, width: sidebar_area.width, ..content };
            let empty = Rect {
                x: sidebar_area.x,
                width: sidebar_area.width,
                y: sidebar_area.y + sidebar_area.height,
                height: 0,
            };
            (full, empty)
        },
        SidebarStyle::Split => {
            let (list_area, _, detail_area) = compute_split(content, tool_count);
            (
                Rect {
                    x: sidebar_area.x,
                    width: sidebar_area.width,
                    y: list_area.y,
                    height: list_area.height,
                },
                Rect {
                    x: sidebar_area.x,
                    width: sidebar_area.width,
                    y: detail_area.y,
                    height: detail_area.height,
                },
            )
        },
    }
}

/// The largest index in `[lo, hi)` holding a space, if any.
pub open spec fn last_space(chars: Seq<char>, lo: int, hi: int) -> Option<int>
    decreases hi - lo,
{
    if hi <= lo {
        None
    } else if chars[hi - 1] == ' ' {
        Some(hi - 1)
    } else {
        last_space(chars, lo, hi - 1)
    }
}

/// Segments of `chars` from `start` wrapped at `width`: a rest that fits is one segment;
/// otherwise break at a space right after the width (dropping it), else at the last space
/// inside the window (dropping it), else hard-break at the width.
pub open spec fn wrap_segments(chars: Seq<char>, width: int, start: int) -> Seq<Seq<char>>
    decreases chars.len() - start,
{
    if width <= 0 || start < 0 || start >= chars.len() {
        seq![]
    } else if chars.len() - start <= width {
        seq![chars.skip(start)]
    } else {
        let end = start + width;
        if chars[end] == ' ' {
            seq![chars.subrange(start, end)] + wrap_segments(chars, width, end + 1)
        } else {
            match last_space(chars, start + 1, end) {
                Some(bp) => {
                    proof {
                        lemma_last_space(chars, start + 1, end);
                    }
                    seq![chars.subrange(start, bp)] + wrap_segments(chars, width, bp + 1)
                },
                None => seq![chars.subrange(start, end)] + wrap_segments(chars, width, end),
            }
        }
    }
}

/// What `wrap_into` appends for `line` at `width`.
pub open spec fn wrap_into_spec(line: Seq<char>, width: int) -> Seq<Seq<char>> {
    if width == 0 {
        seq![Seq::<char>::empty()]
    } else if line.len() <= width {
        seq![line]
    } else {
        wrap_segments(line, width, 0)
    }
}

pub proof fn lemma_last_space(chars: Seq<char>, lo: int, hi: int)
    ensures
        last_space(chars, lo, hi) matches Some(i) ==> lo <= i < hi,
    decreases hi - lo,
{
    if hi > lo && chars[hi - 1] != ' ' {
        lemma_last_space(chars, lo, hi - 1);
    }
}

/// Word-wraps `line` at `width` characters, appending the pieces to `out`.
pub fn wrap_into(line: &str, width: usize, out: &mut Vec<String>)
    ensures
        string_views(final(out)@) == string_views(old(out)@) + wrap_into_spec(
            line@,
            width as int,
        ),
{
    let ghost start0 = string_views(out@);
    if width == 0 {
        let e = String::new();
        out.push(e);
        assert(string_views(out@) =~= start0 + wrap_into_spec(line@, width as int));
        return;
    }
    let chars = chars_of(line);
    if chars.len() <= width {
        let s = line.to_owned();
        out.push(s);
        assert(string_views(out@) =~= start0 + wrap_into_spec(line@, width as int));
        return;
    }
    let mut start: usize = 0;
    while start < chars.len()
        invariant
            chars@ == line@,
            width >= 1,
            chars@.len() > width,
            start <= chars@.len(),
            string_views(out@) + wrap_segments(chars@, width as int, start as int) == start0
                + wrap_segments(chars@, width as int, 0),
        ensures
            start == chars@.len(),
        decreases chars@.len() - start,
    {
        let ghost before = string_views(out@);
        let remaining = chars.len() - start;
        if remaining <= width {
            let seg = sub_chars(&chars, start, chars.len());
            let s = string_from_chars(seg.as_slice());
            out.push(s);
            proof {
                assert(seg@ =~= chars@.skip(start as int));
                assert(string_views(out@) =~= before.push(chars@.skip(start as int)));
                assert(wrap_segments(chars@, width as int, chars@.len() as int) =~= Seq::<
                    Seq<char>,
                >::empty());
                assert(string_views(out@) + wrap_segments(
                    chars@,
                    width as int,
                    chars@.len() as int,
                ) =~= before + wrap_segments(chars@, width as int, start as int));
            }
            start = chars.len();
            break;
        }
        let end = start + width;
        if chars[end] == ' ' {
            let seg = sub_chars(&chars, start, end);
            let s = string_from_chars(seg.as_slice());
            out.push(s);
            proof {
                assert(string_views(out@) =~= before.push(seg@));
                assert(string_views(out@) + wrap_segments(chars@, width as int, end + 1) =~= before
                    + wrap_segments(chars@, width as int, start as int));
            }
            start = end + 1;
            continue;
        }
        let mut i = end - 1;
        let mut found = false;
        while i > start && !found
            invariant
                start < end < chars@.len(),
                start <= i < end,
                !found ==> last_space(chars@, start + 1, end as int) == last_space(
                    chars@,
                    start + 1,
                    i + 1,
                ),
                found ==> last_space(chars@, start + 1, end as int) == Some(i as int),
            decreases i + (if found {
                0int
            } else {
                1int
            }),
        {
            if chars[i] == ' ' {
                found = true;
            } else {
                i = i - 1;
            }
        }
        proof {
            if !found {
                assert(last_space(chars@, start + 1, i + 1) is None);
            }
        }
        if found {
            let seg = sub_chars(&chars, start, i);
            let s = string_from_chars(seg.as_slice());
            out.push(s);
            proof {
                assert(string_views(out@) =~= before.push(seg@));
                assert(string_views(out@) + wrap_segments(chars@, width as int, i + 1) =~= before
                    + wrap_segments(chars@, width as int, start as int));
            }
            start = i + 1;
        } else {
            let seg = sub_chars(&chars, start, end);
            let s = string_from_chars(seg.as_slice());
            out.push(s);
            proof {
                assert(string_views(out@) =~= before.push(seg@));
                assert(string_views(out@) + wrap_segments(chars@, width as int, end as int)
                    =~= before + wrap_segments(chars@, width as int, start as int));
            }
            start = end;
        }
    }
    proof {
        assert(wrap_segments(chars@, width as int, start as int) =~= Seq::<Seq<char>>::empty());
        assert(string_views(out@) =~= start0 + wrap_into_spec(line@, width as int));
    }
}

/// Tool output as the sidebar shows it: in compact display, the first `max` lines and an
/// ellipsis line when there are more; otherwise every line.
pub open spec fn output_limit_spec(lines: Seq<Seq<char>>, tool_output: ToolOutputDisplay, max: int) -> Seq<Seq<char>> {
    if tool_output == ToolOutputDisplay::Compact && lines.len() > max {
        lines.take(max).push("…"@)
    } else {
        lines
    }
}

pub fn apply_tool_output_limit(raw_lines: Vec<String>, tool_output: ToolOutputDisplay, max: usize) -> (r: Vec<String>)
    ensures
        string_views(r@) == output_limit_spec(string_views(raw_lines@), tool_output, max as int),
{
    match tool_output {
        ToolOutputDisplay::Compact => {
            if raw_lines.len() > max {
                let mut out: Vec<String> = Vec::new();
                let mut i: usize = 0;
                while i < max
                    invariant
                        i <= max < raw_lines@.len(),
                        string_views(out@) == string_views(raw_lines@).take(i as int),
                    decreases max - i,
                {
                    let line = string_from_chars(chars_of(raw_lines[i].as_str()).as_slice());
                    let ghost before = out@;
                    out.push(line);
                    proof {
                        assert(string_views(out@) =~= string_views(before).push(raw_lines@[i as int]@));
                        assert(string_views(raw_lines@).take(i + 1) =~= string_views(raw_lines@).take(
                            i as int,
                        ).push(raw_lines@[i as int]@));
                    }
                    i = i + 1;
                }
                let ghost before = out@;
                out.push("…".to_owned());
                assert(string_views(out@) =~= string_views(before).push("…"@));
                out
            } else {
                raw_lines
            }
        },
        _ => raw_lines,
    }
}

/// Scrolling the tool list down by `n` rows and then up by `n` rows leaves the sidebar
/// exactly as it was.
pub proof fn law_list_scroll_down_then_up_restores(s: Sidebar, t: Sidebar, u: Sidebar, n: usize)
    requires
        s.list_scroll + n <= usize::MAX,
        t.same_but_scroll(&s),
        t.detail_scroll == s.detail_scroll,
        t.list_scroll == s.list_scroll + n,
        u.same_but_scroll(&t),
        u.detail_scroll == t.detail_scroll,
        u.list_scroll == if t.list_scroll >= n {
            t.list_scroll - n
        } else {
            0
        },
    ensures
        u == s,
{
}

/// Scrolling the detail pane down by `n` rows and then up by `n` rows leaves the sidebar
/// exactly as it was.
pub proof fn law_detail_scroll_down_then_up_restores(s: Sidebar, t: Sidebar, u: Sidebar, n: usize)
    requires
        s.detail_scroll + n <= usize::MAX,
        t.same_but_scroll(&s),
        t.list_scroll == s.list_scroll,
        t.detail_scroll == s.detail_scroll + n,
        u.same_but_scroll(&t),
        u.list_scroll == t.list_scroll,
        u.detail_scroll == if t.detail_scroll >= n {
            t.detail_scroll - n
        } else {
            0
        },
    ensures
        u == s,
{
}

} // verus!
