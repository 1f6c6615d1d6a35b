use vstd::prelude::*;
use ratatui::layout::{Constraint, Direction, Layout, Rect};
use ratatui::widgets::{Block, Borders};
use crate::tui::{sat_add_u16, Area};

verus! {

/// How one run of a layout is sized: a share of the whole in percent, at
/// least so many cells, or exactly so many.
#[derive(Debug, Clone, Copy, PartialEq, Eq, Structural)]
pub enum Extent {
    Percentage(u16),
    Min(u16),
    Length(u16),
}

/// The direction in which a layout cuts an area: into rows stacked top to
/// bottom, or into columns side by side.
#[derive(Debug, Clone, Copy, PartialEq, Eq, Structural)]
pub enum Axis {
    Vertical,
    Horizontal,
}

/// Where a part starts along the axis.
pub open spec fn start_along(axis: Axis, p: Area) -> int {
    match axis {
        Axis::Vertical => p.y as int,
        Axis::Horizontal => p.x as int,
    }
}

/// Where a part ends along the axis.
pub open spec fn end_along(axis: Axis, p: Area) -> int {
    match axis {
        Axis::Vertical => p.y + p.height,
        Axis::Horizontal => p.x + p.width,
    }
}

/// `p` spans `area` across the axis and lies within it along the axis.
pub open spec fn within_along(area: Area, axis: Axis, p: Area) -> bool {
    match axis {
        Axis::Vertical => p.x == area.x && p.width == area.width && area.y <= p.y && p.y + p.height <= sat_add_u16(
            area.y,
            area.height,
        ),
        Axis::Horizontal => p.y == area.y && p.height == area.height && area.x <= p.x && p.x + p.width
            <= sat_add_u16(area.x, area.width),
    }
}

/// `parts` cut `area` along `axis` into `n` runs: each spans the area across
/// the axis and lies within it along the axis, one after the other.
pub open spec fn cuts(area: Area, axis: Axis, n: int, parts: Seq<Area>) -> bool {
    &&& parts.len() == n
    &&& forall|i: int| 0 <= i < n ==> #[trigger] within_along(area, axis, parts[i])
    &&& forall|i: int| 0 <= i < n - 1 ==> end_along(axis, #[trigger] parts[i]) <= start_along(axis, parts[i + 1])
}

/// `p` lies within `area`.
pub open spec fn inside(p: Area, area: Area) -> bool {
    &&& area.x <= p.x
    &&& p.x + p.width <= sat_add_u16(area.x, area.width)
    &&& area.y <= p.y
    &&& p.y + p.height <= sat_add_u16(area.y, area.height)
}

/// `parts` is one of the layouts that `ratatui::layout::Layout::split`
/// gives for `area` cut along `axis` under `extents`. This is a relation, not
/// a function: where the constraints cannot all be met exactly, the solver
/// may settle on one of several optima, and which one can depend on the
/// iteration order of its hash maps; nothing is claimed of which.
pub uninterp spec fn laid_out(area: Area, axis: Axis, extents: Seq<Extent>, parts: Seq<Area>) -> bool;

/// Calls `ratatui::layout::Layout::split` with the direction and the
/// constraints given, on the rectangle of `area`, and claims that the result
/// is a layout of `area` under exactly these constraints (`laid_out`). The
/// sizes that its solver picks are not claimed. What is claimed of them is
/// what the source shows: one part per constraint (each constraint gets one
/// segment), each spanning the area across the axis (the conversion to
/// rectangles copies the area's other coordinates) and lying within it along
/// the axis (a required constraint of the solver), in order (each part's
/// start is required to be no later than its end, and the spacers between
/// the parts are held at zero by a weight that outweighs any one unit of the
/// other constraints, and the positions are rounded twice). The required
/// constraints can always be met, so the `expect` in `split` does not fire.
#[verifier::external_body]
pub(crate) fn split(area: Area, axis: Axis, extents: &Vec<Extent>) -> (r: Vec<Area>)
    ensures
        laid_out(area, axis, extents@, r@),
        cuts(area, axis, extents@.len() as int, r@),
{
    let direction = match axis {
        Axis::Vertical => Direction::Vertical,
        Axis::Horizontal => Direction::Horizontal,
    };
    let constraints: Vec<Constraint> = extents.iter().map(|e| match *e {
        Extent::Percentage(p) => Constraint::Percentage(p),
        Extent::Min(n) => Constraint::Min(n),
        Extent::Length(n) => Constraint::Length(n),
    }).collect();
    let rect = Rect { x: area.x, y: area.y, width: area.width, height: area.height };
    let rects = Layout::default().direction(direction).constraints(constraints).split(rect);
    rects.iter().map(|r| Area { x: r.x, y: r.y, width: r.width, height: r.height }).collect()
}

/// The three runs that put a run of `pct` percent in the middle: equal
/// shares before and after it.
pub open spec fn middle_of(pct: u16) -> Seq<Extent> {
    let side = ((100 - pct) / 2) as u16;
    seq![Extent::Percentage(side), Extent::Percentage(pct), Extent::Percentage(side)]
}

fn middle_extents(pct: u16) -> (r: Vec<Extent>)
    requires
        pct <= 100,
    ensures
        r@ == middle_of(pct),
{
    let side = (100 - pct) / 2;
    let mut r: Vec<Extent> = Vec::new();
    r.push(Extent::Percentage(side));
    r.push(Extent::Percentage(pct));
    r.push(Extent::Percentage(side));
    assert(r@ =~= middle_of(pct));
    r
}

/// `r` is the middle of `area` as ratatui lays it out: the middle of the
/// rows cut under `middle_of(height_pct)`, and the middle of the columns of
/// that band cut under `middle_of(width_pct)`.
pub open spec fn centered_in(area: Area, width_pct: u16, height_pct: u16, r: Area) -> bool {
    exists|rows: Seq<Area>, columns: Seq<Area>|
        #![trigger laid_out(area, Axis::Vertical, middle_of(height_pct), rows), laid_out(rows[1], Axis::Horizontal, middle_of(width_pct), columns)]
        laid_out(area, Axis::Vertical, middle_of(height_pct), rows) && laid_out(
            rows[1],
            Axis::Horizontal,
            middle_of(width_pct),
            columns,
        ) && r == columns[1]
}

/// The area of about `width_pct` percent of the width and `height_pct`
/// percent of the height in the middle of `area`, where pop-up boxes are
/// drawn, as ratatui's layout places it: it lies within `area`.
pub fn centered(area: Area, width_pct: u16, height_pct: u16) -> (r: Area)
    requires
        width_pct <= 100,
        height_pct <= 100,
    ensures
        centered_in(area, width_pct, height_pct, r),
        inside(r, area),
{
    let rows = split(area, Axis::Vertical, &middle_extents(height_pct));
    let band = rows[1];
    assert(within_along(area, Axis::Vertical, rows@[1]));
    let columns = split(band, Axis::Horizontal, &middle_extents(width_pct));
    assert(within_along(band, Axis::Horizontal, columns@[1]));
    assert(laid_out(area, Axis::Vertical, middle_of(height_pct), rows@));
    assert(laid_out(rows@[1], Axis::Horizontal, middle_of(width_pct), columns@));
    columns[1]
}

/// `a - b`, held at zero.
pub open spec fn sat_sub_u16(a: u16, b: u16) -> u16 {
    if a > b { (a - b) as u16 } else { 0 }
}

/// The smaller of two cells.
pub open spec fn min_u16(a: int, b: int) -> u16 {
    (if a < b { a } else { b }) as u16
}

/// The area inside a border drawn all around `a`, as ratatui's
/// `Block::inner` computes it for a block with borders on every side and no
/// padding: one cell less on each side, never reaching past the area.
pub open spec fn bordered_inner_spec(a: Area) -> Area {
    Area {
        x: min_u16(sat_add_u16(a.x, 1), sat_add_u16(a.x, a.width)),
        y: min_u16(sat_add_u16(a.y, 1), sat_add_u16(a.y, a.height)),
        width: sat_sub_u16(sat_sub_u16(a.width, 1), 1),
        height: sat_sub_u16(sat_sub_u16(a.height, 1), 1),
    }
}

/// Calls `ratatui::widgets::Block::inner` for a block with borders on every
/// side (`Borders::ALL`), no title and no padding, on the rectangle of `a`.
/// Its source takes one cell off each side, saturating, and keeps the left
/// and top edges from passing the right and bottom ones; that is what the
/// contract states.
#[verifier::external_body]
pub(crate) fn block_inner(a: Area) -> (r: Area)
    ensures
        r == bordered_inner_spec(a),
{
    let rect = Rect { x: a.x, y: a.y, width: a.width, height: a.height };
    let r = Block::default().borders(Borders::ALL).inner(rect);
    Area { x: r.x, y: r.y, width: r.width, height: r.height }
}

/// The area inside a border drawn all around `a`.
pub fn bordered_inner(a: Area) -> (r: Area)
    ensures
        r == bordered_inner_spec(a),
{
    block_inner(a)
}

/// The area within the frame of a pop-up box: two columns in from each side
/// and one row in from the top and the bottom (the steps in from the left
/// and the top held at the last cell).
pub open spec fn modal_inner_spec(modal: Area) -> Area {
    Area {
        x: sat_add_u16(modal.x, 2) as u16,
        y: sat_add_u16(modal.y, 1) as u16,
        width: sat_sub_u16(modal.width, 4),
        height: sat_sub_u16(modal.height, 2),
    }
}

/// The runs of the inside of the input box: the text field with its border
/// (at least three rows) and the row of hints.
pub open spec fn input_box_rows() -> Seq<Extent> {
    seq![Extent::Min(3), Extent::Length(1)]
}

/// The parts of the input box over `area`: `modal`, the box, is the middle
/// 70% of the width and 45% of the height of the area, within it; the inside
/// of its frame is laid out into the text field with its border and the row
/// of hints below it, in that order.
pub open spec fn input_box_parts(area: Area, modal: Area, field: Area, tips: Area) -> bool {
    &&& centered_in(area, 70, 45, modal)
    &&& inside(modal, area)
    &&& laid_out(modal_inner_spec(modal), Axis::Vertical, input_box_rows(), seq![field, tips])
    &&& cuts(modal_inner_spec(modal), Axis::Vertical, 2, seq![field, tips])
}

/// Lays out the input box over `area`: the box (the middle 70% of the width
/// and 45% of the height), the text field with its border (at least three
/// rows), and the row of hints.
pub fn input_box_layout(area: Area) -> (r: (Area, Area, Area))
    ensures
        input_box_parts(area, r.0, r.1, r.2),
{
    let modal = centered(area, 70, 45);
    let inner = Area {
        x: modal.x.saturating_add(2),
        y: modal.y.saturating_add(1),
        width: modal.width.saturating_sub(4),
        height: modal.height.saturating_sub(2),
    };
    assert(inner == modal_inner_spec(modal));
    let mut extents: Vec<Extent> = Vec::new();
    extents.push(Extent::Min(3));
    extents.push(Extent::Length(1));
    assert(extents@ =~= input_box_rows());
    let parts = split(inner, Axis::Vertical, &extents);
    assert(parts@ =~= seq![parts@[0], parts@[1]]);
    (modal, parts[0], parts[1])
}

/// Where the text of the input box goes: inside the border of its text
/// field.
pub fn input_box_inner(area: Area) -> (r: Area)
    ensures
        exists|modal: Area, field: Area, tips: Area|
            input_box_parts(area, modal, field, tips) && r == bordered_inner_spec(field),
{
    let parts = input_box_layout(area);
    bordered_inner(parts.1)
}

/// The runs of the full screen: the header line, the list (at least six
/// rows), the details of the selected item (four rows) and the line of keys.
pub open spec fn screen_rows() -> Seq<Extent> {
    seq![Extent::Length(1), Extent::Min(6), Extent::Length(4), Extent::Length(1)]
}

/// Lays out the full screen over `area`: the header line, the list (at
/// least six rows), the details of the selected item (four rows) and the
/// line of keys, one after the other.
pub fn screen_layout(area: Area) -> (r: Vec<Area>)
    ensures
        laid_out(area, Axis::Vertical, screen_rows(), r@),
        cuts(area, Axis::Vertical, 4, r@),
{
    let mut extents: Vec<Extent> = Vec::new();
    extents.push(Extent::Length(1));
    extents.push(Extent::Min(6));
    extents.push(Extent::Length(4));
    extents.push(Extent::Length(1));
    assert(extents@ =~= screen_rows());
    split(area, Axis::Vertical, &extents)
}

} // verus!
