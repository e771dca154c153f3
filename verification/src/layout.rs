//! Placing a pop-up window in the middle of the screen.
use ratatui::layout::{Constraint, Direction, Layout};
use vstd::prelude::*;

verus! {

/// A rectangle of terminal cells: its top-left corner and its size.
#[derive(Debug, Clone, Copy, PartialEq, Eq, Structural)]
pub struct Rect {
    pub x: u16,
    pub y: u16,
    pub width: u16,
    pub height: u16,
}

/// The direction in which an area is cut into parts.
#[derive(Debug, Clone, Copy, PartialEq, Eq, Structural)]
pub enum Axis {
    Horizontal,
    Vertical,
}

/// Cuts `area` along `axis` with ratatui's `Layout::split` into parts of
/// `side`, `middle` and `side` percent and gives the middle one. Stated of
/// the result is what ratatui's source fixes for every outcome: the part
/// keeps the area's extent across the cut (`changes_to_rects` copies it), and
/// along the cut it lies inside the area (each cut point is bound to the
/// area by required constraints, and a size below zero is saturated to
/// zero). Its size along the cut is not stated: percentages are weak
/// constraints that the solver may trade against each other when they do
/// not add up to a hundred, choosing among equally good cuts by the order
/// in which it walks hash maps, which each process seeds anew.
#[verifier::external_body]
fn split_middle(axis: Axis, side: u16, middle: u16, area: Rect) -> (res: Rect)
    ensures
        match axis {
            Axis::Vertical => {
                &&& res.x == area.x
                &&& res.width == area.width
                &&& area.y <= res.y
                &&& res.y + res.height <= area.y + area.height
            },
            Axis::Horizontal => {
                &&& res.y == area.y
                &&& res.height == area.height
                &&& area.x <= res.x
                &&& res.x + res.width <= area.x + area.width
            },
        },
{
    let direction = match axis {
        Axis::Horizontal => Direction::Horizontal,
        Axis::Vertical => Direction::Vertical,
    };
    let (s, m) = (Constraint::Percentage(side), Constraint::Percentage(middle));
    let area = ratatui::layout::Rect { x: area.x, y: area.y, width: area.width, height: area.height };
    let part = Layout::default().direction(direction).constraints([s, m, s]).split(area)[1];
    Rect { x: part.x, y: part.y, width: part.width, height: part.height }
}

/// The window of `percent_x` by `percent_y` percent in the middle of `r`:
/// `r` is cut top to bottom into `(100 - percent_y) / 2`, `percent_y` and
/// `(100 - percent_y) / 2` percent, and the middle part left to right in the
/// same way with `percent_x`. The window lies inside `r`; its exact place
/// and size are ratatui's to choose (see `split_middle`).
pub fn centered_rect(percent_x: u16, percent_y: u16, r: Rect) -> (res: Rect)
    requires
        percent_x <= 100,
        percent_y <= 100,
    ensures
        r.x <= res.x,
        res.x + res.width <= r.x + r.width,
        r.y <= res.y,
        res.y + res.height <= r.y + r.height,
{
    let rows = split_middle(Axis::Vertical, (100 - percent_y) / 2, percent_y, r);
    split_middle(Axis::Horizontal, (100 - percent_x) / 2, percent_x, rows)
}

} // verus!
