use vstd::prelude::*;
use crate::editor::{wrap_input_text, wrap_spec, lines_view, ActiveInput};
use crate::text::{decimal, decimal_chars, push_char};
use crate::tui::{min_int, sat_sub};
use crate::width::{str_columns, str_width, truncate_spec, truncate_to_width};
use crate::editor::string_of;

verus! {

/// `s` with each newline shown as " ↵ ", for a one-line display.
pub open spec fn one_line(s: Seq<char>) -> Seq<char>
    decreases s.len(),
{
    if s.len() == 0 {
        seq![]
    } else if s.last() == '\n' {
        one_line(s.drop_last()) + seq![' ', '↵', ' ']
    } else {
        one_line(s.drop_last()).push(s.last())
    }
}

/// A title on one line: each newline shown as " ↵ ".
pub fn one_line_title(s: &str) -> (r: String)
    ensures
        r@ == one_line(s@),
{
    let chars = crate::text::chars_of(s);
    let mut r = String::new();
    let mut i: usize = 0;
    while i < chars.len()
        invariant
            i <= chars@.len(),
            chars@ == s@,
            r@ == one_line(chars@.take(i as int)),
        decreases chars@.len() - i,
    {
        let c = chars[i];
        assert(chars@.take(i + 1).drop_last() =~= chars@.take(i as int));
        assert(chars@.take(i + 1).last() == c);
        if c == '\n' {
            push_char(&mut r, ' ');
            push_char(&mut r, '↵');
            push_char(&mut r, ' ');
            assert(r@ =~= one_line(chars@.take(i as int)) + seq![' ', '↵', ' ']);
        } else {
            push_char(&mut r, c);
        }
        i = i + 1;
    }
    assert(chars@.take(i as int) =~= chars@);
    r
}

/// The number shown in front of the item at list position `ui_idx`.
pub open spec fn row_number(ui_idx: int) -> Seq<char> {
    decimal((ui_idx + 1) as nat) + seq!['.', ' ']
}

/// The parts of one line of the list: whether it is the selected line, its
/// number, its title fitted into the room left, the title's width, and the
/// blank columns between the title and the time at the right end.
pub struct ListRow {
    pub is_selected: bool,
    pub number: String,
    pub title: String,
    pub title_width: usize,
    pub spacing: usize,
}

/// Columns of the selection marker in front of the check box.
pub open spec fn marker_cols() -> int { 2 }

/// Columns of the check box in front of the number.
pub open spec fn check_cols() -> int { 3 }

/// The room left for the title of a row `total` columns wide with a number
/// and a time of these widths: two columns stay free around the title.
pub open spec fn title_room(total: int, num_w: int, meta_w: int) -> int {
    sat_sub(total, marker_cols() + check_cols() + num_w + meta_w + 2)
}

/// `a + b`, or `None` where it does not fit in a `usize`.
fn add_or_none(a: Option<usize>, b: usize) -> (r: Option<usize>)
    ensures
        match a {
            Some(x) => if x + b <= usize::MAX { r == Some((x + b) as usize) } else { r is None },
            None => r is None,
        },
{
    match a {
        Some(x) => x.checked_add(b),
        None => None,
    }
}

/// `total` less the sum, held at zero (also where the sum does not fit).
fn room_after(total: usize, used: Option<usize>) -> (r: usize)
    ensures
        match used {
            Some(u) => r == sat_sub(total as int, u as int),
            None => r == 0,
        },
{
    match used {
        Some(u) => total.saturating_sub(u),
        None => 0,
    }
}

/// Lays out the line of the list at position `ui_idx`, `total_width`
/// columns wide, for an item with this title and time text; `selected` is
/// the selected position and `shown` the length of the list.
pub fn list_row(total_width: usize, ui_idx: usize, selected: usize, shown: usize, title: &str, meta: &str) -> (r: ListRow)
    requires
        ui_idx < usize::MAX,
    ensures
        r.is_selected == (ui_idx as int == min_int(selected as int, sat_sub(shown as int, 1))),
        r.number@ == row_number(ui_idx as int),
        ({
            let num_w = str_columns(row_number(ui_idx as int)) as int;
            let meta_w = str_columns(meta@) as int;
            let t = truncate_spec(one_line(title@), title_room(total_width as int, num_w, meta_w));
            &&& r.title@ == t.0
            &&& r.title_width == t.1
            &&& r.spacing == sat_sub(total_width as int, marker_cols() + check_cols() + num_w + t.1 + meta_w)
        }),
{
    let last = shown.saturating_sub(1);
    let sel = if selected < last { selected } else { last };
    let is_selected = ui_idx == sel;
    let mut digits = decimal_chars((ui_idx + 1) as u64);
    digits.push('.');
    digits.push(' ');
    assert(digits@ =~= row_number(ui_idx as int));
    let number = string_of(&digits);
    let num_w = str_width(number.as_str());
    let meta_w = str_width(meta);
    let fixed = add_or_none(add_or_none(add_or_none(add_or_none(Some(2), 3), num_w), meta_w), 2);
    let avail = room_after(total_width, fixed);
    let source = one_line_title(title);
    let (shown_title, title_w) = truncate_to_width(source.as_str(), avail);
    let used = add_or_none(add_or_none(add_or_none(add_or_none(Some(2), 3), num_w), title_w), meta_w);
    let spacing = room_after(total_width, used);
    proof {
        let room = title_room(total_width as int, num_w as int, meta_w as int);
        assert(avail as int == room);
        let t = truncate_spec(one_line(title@), room);
        assert(spacing == sat_sub(total_width as int, marker_cols() + check_cols() + num_w + t.1 + meta_w));
    }
    ListRow { is_selected, number, title: shown_title, title_width: title_w, spacing }
}

/// What the input box shows: the display lines in view, the first line in
/// view, the number of lines, whether the position is told (the text is
/// longer than the box), and the cursor's line (within the view) and column
/// where the cursor is in view.
pub struct InputFrame {
    pub lines: Vec<String>,
    pub scroll_y: usize,
    pub total_lines: usize,
    pub show_position: bool,
    pub cursor: Option<(usize, usize)>,
}

/// The first line in view: the requested one, held where the last line
/// still fills the box.
pub open spec fn frame_scroll(top: int, lines: int, h: int) -> int {
    min_int(top, sat_sub(lines, h))
}

/// Lays out the input box for a text area of `max_w` columns and `max_h`
/// lines.
pub fn input_frame(input: &ActiveInput, max_w: usize, max_h: usize) -> (r: InputFrame)
    ensures
        ({
            let wr = wrap_spec(input.text@, max_w as int, input.cursor as int);
            let y = frame_scroll(input.scroll_top as int, wr.lines.len() as int, max_h as int);
            &&& r.total_lines == wr.lines.len()
            &&& r.scroll_y == y
            &&& r.show_position == (wr.lines.len() > max_h)
            &&& lines_view(r.lines@) == wr.lines.skip(y).take(min_int(max_h as int, wr.lines.len() - y))
            &&& r.cursor == (if y <= wr.cursor_line < y + max_h {
                Some(((wr.cursor_line - y) as usize, wr.cursor_col as usize))
            } else {
                None
            })
        }),
{
    let wrapped = wrap_input_text(input.text.as_str(), max_w, input.cursor);
    let n = wrapped.lines.len();
    let max_scroll = n.saturating_sub(max_h);
    let scroll_y = if input.scroll_top < max_scroll { input.scroll_top } else { max_scroll };
    let show_position = n > max_h;
    let mut lines: Vec<String> = Vec::new();
    let mut i: usize = scroll_y;
    let ghost wl = lines_view(wrapped.lines@);
    while i < n && i - scroll_y < max_h
        invariant
            scroll_y <= i <= n,
            n == wrapped.lines@.len(),
            wl == lines_view(wrapped.lines@),
            i - scroll_y <= max_h,
            lines_view(lines@) == wl.skip(scroll_y as int).take(i - scroll_y),
        decreases n - i,
    {
        let ghost before = lines@;
        lines.push(wrapped.lines[i].clone());
        assert(lines@.drop_last() == before);
        assert(lines_view(lines@) =~= lines_view(before).push(wl[i as int]));
        assert(wl.skip(scroll_y as int).take(i + 1 - scroll_y) =~= wl.skip(scroll_y as int).take(i - scroll_y).push(
            wl[i as int],
        ));
        i = i + 1;
    }
    assert(lines_view(lines@) =~= wl.skip(scroll_y as int).take(min_int(max_h as int, n - scroll_y)));
    let cl = wrapped.cursor_line;
    let cursor = if cl >= scroll_y && cl - scroll_y < max_h {
        Some((cl - scroll_y, wrapped.cursor_col))
    } else {
        None
    };
    InputFrame { lines, scroll_y, total_lines: n, show_position, cursor }
}

} // verus!
