//! Mouse/keyboard text selection over rendered panes.

use vstd::prelude::*;
use crate::layout::Rect;
use crate::text::{chars_of, push_char, push_chars, sub_chars};

verus! {

#[derive(Debug, Clone, Copy, PartialEq, Eq, Structural)]
pub enum SelectablePane {
    Chat,
    SidebarDetail,
}

#[derive(Debug, Clone, Copy, PartialEq, Eq, Structural)]
pub enum FocusPane {
    Chat,
    SidebarList,
    SidebarDetail,
}

#[derive(Debug, Clone, Copy, PartialEq, Eq, Structural)]
pub struct SelectionPos {
    pub line: usize,
    pub col: usize,
}

#[derive(Debug, Clone, Copy, PartialEq, Eq, Structural)]
pub struct SelectionState {
    pub pane: SelectablePane,
    pub anchor: SelectionPos,
    pub focus: SelectionPos,
}

/// `a` comes no later than `b` in reading order.
pub open spec fn pos_le(a: SelectionPos, b: SelectionPos) -> bool {
    a.line < b.line || (a.line == b.line && a.col <= b.col)
}

impl SelectionState {
    pub fn new(pane: SelectablePane, anchor: SelectionPos, focus: SelectionPos) -> (s: Self)
        ensures
            s == (SelectionState { pane, anchor, focus }),
    {
        SelectionState { pane, anchor, focus }
    }

    /// The selection's endpoints in reading order.
    pub open spec fn spec_normalized(&self) -> (SelectionPos, SelectionPos) {
        if pos_le(self.anchor, self.focus) {
            (self.anchor, self.focus)
        } else {
            (self.focus, self.anchor)
        }
    }

    pub fn normalized(&self) -> (r: (SelectionPos, SelectionPos))
        ensures
            r == self.spec_normalized(),
            pos_le(r.0, r.1),
    {
        if self.anchor.line < self.focus.line || (self.anchor.line == self.focus.line
            && self.anchor.col <= self.focus.col) {
            (self.anchor, self.focus)
        } else {
            (self.focus, self.anchor)
        }
    }
}

/// Plain-text lines of a rendered pane, with the screen area they occupy and the index of
/// the first visible line.
pub struct TextSurface {
    pub pane: SelectablePane,
    pub rect: Rect,
    pub lines: Vec<String>,
    pub top_line: usize,
}

/// The characters of each line.
pub open spec fn line_views(lines: Seq<String>) -> Seq<Seq<char>> {
    lines.map_values(|s: String| s@)
}

/// The position nearest to `pos` that lies on the text: the last line at most, and a
/// column on the line's last character at most (column zero on empty lines).
pub open spec fn clamp_spec(lines: Seq<Seq<char>>, pos: SelectionPos) -> SelectionPos {
    if lines.len() == 0 {
        SelectionPos { line: 0, col: 0 }
    } else {
        let line = if pos.line < lines.len() - 1 {
            pos.line
        } else {
            (lines.len() - 1) as usize
        };
        let len = lines[line as int].len();
        SelectionPos {
            line,
            col: if len == 0 {
                0
            } else if pos.col < len - 1 {
                pos.col
            } else {
                (len - 1) as usize
            },
        }
    }
}

/// The selected part of line `li` between `s` and `e`.
pub open spec fn line_piece(lines: Seq<Seq<char>>, s: SelectionPos, e: SelectionPos, li: int) -> Seq<
    char,
> {
    let chars = lines[li];
    if chars.len() == 0 {
        Seq::empty()
    } else if s.line == e.line {
        chars.subrange(s.col as int, e.col + 1)
    } else if li == s.line {
        chars.skip(s.col as int)
    } else if li == e.line {
        chars.take(e.col + 1)
    } else {
        chars
    }
}

/// The selected text from line `li` through line `e.line`, lines joined by line feeds.
pub open spec fn selected_from(lines: Seq<Seq<char>>, s: SelectionPos, e: SelectionPos, li: int) -> Seq<
    char,
>
    decreases e.line - li,
{
    if li >= e.line {
        line_piece(lines, s, e, li)
    } else {
        line_piece(lines, s, e, li) + seq!['\n'] + selected_from(lines, s, e, li + 1)
    }
}

impl TextSurface {
    pub fn new(pane: SelectablePane, rect: Rect, lines: Vec<String>, top_line: usize) -> (s: Self)
        ensures
            s.pane == pane,
            s.rect == rect,
            s.lines@ == lines@,
            s.top_line == top_line,
    {
        TextSurface { pane, rect, lines, top_line }
    }

    /// The screen cell `(col, row)` lies inside the surface.
    pub fn contains(&self, col: u16, row: u16) -> (r: bool)
        requires
            self.rect.width > 0 && self.rect.height > 0 && col >= self.rect.x ==> self.rect.x
                + self.rect.width <= u16::MAX,
            self.rect.width > 0 && self.rect.height > 0 && col >= self.rect.x && row
                >= self.rect.y ==> self.rect.y + self.rect.height <= u16::MAX,
        ensures
            r == (self.rect.width > 0 && self.rect.height > 0 && self.rect.x <= col < self.rect.x
                + self.rect.width && self.rect.y <= row < self.rect.y + self.rect.height),
    {
        self.rect.width > 0 && self.rect.height > 0 && col >= self.rect.x && col < self.rect.x
            + self.rect.width && row >= self.rect.y && row < self.rect.y + self.rect.height
    }

    pub fn is_empty(&self) -> (r: bool)
        ensures
            r == (self.lines@.len() == 0),
    {
        self.lines.len() == 0
    }

    /// The first visible line (or the last line when scrolled past it), column zero.
    pub fn default_pos(&self) -> (p: SelectionPos)
        ensures
            p.col == 0,
            p.line == if self.top_line < (if self.lines@.len() > 0 {
                self.lines@.len() - 1
            } else {
                0
            }) {
                self.top_line as int
            } else if self.lines@.len() > 0 {
                self.lines@.len() - 1
            } else {
                0
            },
    {
        let last = if self.lines.len() > 0 {
            self.lines.len() - 1
        } else {
            0
        };
        SelectionPos { line: if self.top_line < last {
            self.top_line
        } else {
            last
        }, col: 0 }
    }

    /// Number of characters on `line` (zero past the end).
    pub fn line_len(&self, line: usize) -> (n: usize)
        ensures
            n == if line < self.lines@.len() {
                self.lines@[line as int]@.len()
            } else {
                0
            },
    {
        if line < self.lines.len() {
            chars_of(self.lines[line].as_str()).len()
        } else {
            0
        }
    }

    /// Moves `pos` onto the text.
    pub fn clamp_pos(&self, pos: SelectionPos) -> (p: SelectionPos)
        ensures
            p == clamp_spec(line_views(self.lines@), pos),
    {
        if self.lines.len() == 0 {
            return SelectionPos { line: 0, col: 0 };
        }
        let last = self.lines.len() - 1;
        let line = if pos.line < last {
            pos.line
        } else {
            last
        };
        let len = self.line_len(line);
        let col = if len == 0 {
            0
        } else if pos.col < len - 1 {
            pos.col
        } else {
            len - 1
        };
        SelectionPos { line, col }
    }

    /// The text position under screen cell `(col, row)`, clamped to the surface and text.
    pub fn pos_from_screen_clamped(&self, col: u16, row: u16) -> (p: SelectionPos)
        requires
            self.rect.y + (if self.rect.height > 0 {
                self.rect.height - 1
            } else {
                0
            }) <= u16::MAX,
            self.top_line + self.rect.height <= usize::MAX,
        ensures
            self.lines@.len() == 0 ==> p == (SelectionPos { line: 0, col: 0 }),
            self.lines@.len() > 0 ==> {
                let bottom = self.rect.y + if self.rect.height > 0 {
                    self.rect.height - 1
                } else {
                    0
                };
                let r = if row < self.rect.y {
                    self.rect.y as int
                } else if row > bottom {
                    bottom
                } else {
                    row as int
                };
                let rel_col = if col >= self.rect.x {
                    col - self.rect.x
                } else {
                    0
                };
                p == clamp_spec(
                    line_views(self.lines@),
                    SelectionPos {
                        line: (self.top_line + (r - self.rect.y)) as usize,
                        col: rel_col as usize,
                    },
                )
            },
    {
        if self.lines.len() == 0 {
            return SelectionPos { line: 0, col: 0 };
        }
        let bottom = self.rect.y + self.rect.height.saturating_sub(1);
        let clamped_row = if row < self.rect.y {
            self.rect.y
        } else if row > bottom {
            bottom
        } else {
            row
        };
        let visible_line = (clamped_row - self.rect.y) as usize;
        let relative_col = col.saturating_sub(self.rect.x) as usize;
        self.clamp_pos(SelectionPos { line: self.top_line + visible_line, col: relative_col })
    }

    /// The screen row showing `line`, if it is visible.
    pub fn visible_row_for_line(&self, line: usize) -> (r: Option<u16>)
        requires
            self.rect.y + self.rect.height <= u16::MAX,
        ensures
            r == if line < self.top_line || line - self.top_line >= self.rect.height {
                None
            } else {
                Some((self.rect.y + (line - self.top_line)) as u16)
            },
    {
        if line < self.top_line {
            return None;
        }
        let rel = line - self.top_line;
        if rel >= self.rect.height as usize {
            None
        } else {
            Some(self.rect.y + rel as u16)
        }
    }

    /// Moves `pos` by whole lines and columns, then clamps it onto the text.
    pub fn move_pos(&self, pos: SelectionPos, line_delta: isize, col_delta: isize) -> (p:
        SelectionPos)
        requires
            pos.line <= isize::MAX,
            self.lines@.len() <= isize::MAX + 1,
            isize::MIN <= pos.line + line_delta <= isize::MAX,
            col_delta > isize::MIN,
        ensures
            self.lines@.len() == 0 ==> p == (SelectionPos { line: 0, col: 0 }),
            self.lines@.len() > 0 ==> {
                let l = pos.line + line_delta;
                let max_line = self.lines@.len() - 1;
                let c = pos.col + col_delta;
                p == clamp_spec(
                    line_views(self.lines@),
                    SelectionPos {
                        line: (if l < 0 {
                            0
                        } else if l > max_line {
                            max_line
                        } else {
                            l
                        }) as usize,
                        col: (if c < 0 {
                            0
                        } else if c > usize::MAX {
                            usize::MAX as int
                        } else {
                            c
                        }) as usize,
                    },
                )
            },
    {
        if self.lines.len() == 0 {
            return SelectionPos { line: 0, col: 0 };
        }
        let max_line = (self.lines.len() - 1) as isize;
        let l = pos.line as isize + line_delta;
        let next_line = if l < 0 {
            0
        } else if l > max_line {
            max_line as usize
        } else {
            l as usize
        };
        let desired_col = if col_delta < 0 {
            let back = (-col_delta) as usize;
            if pos.col >= back {
                pos.col - back
            } else {
                0
            }
        } else {
            let fwd = col_delta as usize;
            if pos.col <= usize::MAX - fwd {
                pos.col + fwd
            } else {
                usize::MAX
            }
        };
        self.clamp_pos(SelectionPos { line: next_line, col: desired_col })
    }
}

/// The text a selection covers on its surface: `None` when it belongs to another pane or
/// the surface is empty; otherwise the clamped range, lines joined by line feeds.
pub fn extract_selected_text(surface: &TextSurface, selection: &SelectionState) -> (r: Option<
    String,
>)
    requires
        ({
            let (s0, e0) = selection.spec_normalized();
            let s = clamp_spec(line_views(surface.lines@), s0);
            let e = clamp_spec(line_views(surface.lines@), e0);
            s.line == e.line ==> s.col <= e.col
        }),
    ensures
        (selection.pane != surface.pane || surface.lines@.len() == 0) ==> r.is_none(),
        (selection.pane == surface.pane && surface.lines@.len() > 0) ==> ({
            let (s0, e0) = selection.spec_normalized();
            let lines = line_views(surface.lines@);
            let s = clamp_spec(lines, s0);
            let e = clamp_spec(lines, e0);
            r matches Some(t) && t@ == selected_from(lines, s, e, s.line as int)
        }),
{
    if selection.pane != surface.pane || surface.lines.len() == 0 {
        return None;
    }
    let ghost lines = line_views(surface.lines@);
    let (start0, end0) = selection.normalized();
    let start = surface.clamp_pos(start0);
    let end = surface.clamp_pos(end0);
    proof {
        // Clamping keeps reading order.
        assert(start.line <= end.line);
    }
    let mut out = String::new();
    let mut li = start.line;
    let ghost whole = selected_from(lines, start, end, start.line as int);
    loop
        invariant
            selection.pane == surface.pane,
            (start0, end0) == selection.spec_normalized(),
            lines == line_views(surface.lines@),
            start == clamp_spec(lines, start0),
            end == clamp_spec(lines, end0),
            pos_le(start0, end0),
            start.line <= li <= end.line < lines.len(),
            start.line == end.line ==> start.col <= end.col,
            whole == selected_from(lines, start, end, start.line as int),
            whole == out@ + selected_from(lines, start, end, li as int),
        decreases end.line - li,
    {
        let chars = chars_of(surface.lines[li].as_str());
        proof {
            assert(chars@ == lines[li as int]);
        }
        let ghost before = out@;
        if chars.len() == 0 {
        } else if start.line == end.line {
            let piece = sub_chars(&chars, start.col, end.col + 1);
            push_chars(&mut out, &piece);
        } else if li == start.line {
            let piece = sub_chars(&chars, start.col, chars.len());
            push_chars(&mut out, &piece);
            assert(piece@ =~= chars@.skip(start.col as int));
        } else if li == end.line {
            let piece = sub_chars(&chars, 0, end.col + 1);
            push_chars(&mut out, &piece);
            assert(piece@ =~= chars@.take(end.col + 1));
        } else {
            push_chars(&mut out, &chars);
        }
        proof {
            assert(out@ =~= before + line_piece(lines, start, end, li as int)) by {
                if chars@.len() == 0 {
                    assert(out@ =~= before);
                }
            }
        }
        if li == end.line {
            return Some(out);
        }
        push_char(&mut out, '\n');
        proof {
            assert(whole =~= out@ + selected_from(lines, start, end, li + 1));
        }
        li = li + 1;
    }
}

} // verus!
