//! Screen geometry.

use vstd::prelude::*;

verus! {

/// A rectangle of terminal cells: its top-left corner and its size.
#[derive(Clone, Copy, Debug, PartialEq, Eq, Structural)]
pub struct Rect {
    pub x: u16,
    pub y: u16,
    pub width: u16,
    pub height: u16,
}

impl Rect {
    pub fn new(x: u16, y: u16, width: u16, height: u16) -> (r: Rect)
        ensures
            r == (Rect { x, y, width, height }),
    {
        Rect { x, y, width, height }
    }
}

/// The cell at column `col`, row `row` lies inside `rect` (never inside no rectangle).
pub open spec fn in_rect(col: u16, row: u16, rect: Option<Rect>) -> bool {
    match rect {
        Some(r) => r.x <= col < r.x + r.width && r.y <= row < r.y + r.height,
        None => false,
    }
}

/// Check if a point is inside an optional rect.
pub fn point_in_rect(col: u16, row: u16, rect: Option<Rect>) -> (r: bool)
    requires
        rect matches Some(a) ==> (col >= a.x ==> a.x + a.width <= u16::MAX),
        rect matches Some(a) ==> (a.x <= col < a.x + a.width && row >= a.y ==> a.y + a.height <= u16::MAX),
    ensures
        r == in_rect(col, row, rect),
{
    match rect {
        Some(a) => col >= a.x && col < a.x + a.width && row >= a.y && row < a.y + a.height,
        None => false,
    }
}

/// The area above the editor for a dropdown: at most `max_height` rows and sixty columns,
/// as many rows as fit above the editor.
pub fn command_dropdown_area(editor_area: Rect, max_height: u16) -> (r: Rect)
    ensures
        r.height == if max_height < editor_area.y {
            max_height
        } else {
            editor_area.y
        },
        r.x == editor_area.x,
        r.y == editor_area.y - r.height,
        r.width == if editor_area.width < 60 {
            editor_area.width
        } else {
            60
        },
{
    let height = if max_height < editor_area.y {
        max_height
    } else {
        editor_area.y
    };
    Rect {
        x: editor_area.x,
        y: editor_area.y - height,
        width: if editor_area.width < 60 {
            editor_area.width
        } else {
            60
        },
        height,
    }
}

} // verus!
