use vstd::prelude::*;
use crate::editor::{
    box_height, char_at_line_col, char_at_spec, ensure_cursor_visible, insert_char_at, lemma_char_at_in_text,
    lemma_wrap_ranges, remove_char_at, scroll_to_show, wrap_input_text, wrap_spec, ActiveInput, InputState,
    InputView,
};
use crate::model::{TodoError, TodoView, view_of};
use crate::storage::{
    loaded, one_more, stamps_read_back,
    add_effect, outcome, remove_effect, retitle_effect, toggle_effect, TodoStore,
};
use crate::text::{trim, trimmed};

verus! {

/// Which items the list shows.
#[derive(Debug, Clone, Copy, PartialEq, Eq, Structural)]
pub enum Filter {
    Pending,
    Completed,
}

/// The list under `filter` shows an item with this completion state.
pub open spec fn shows(filter: Filter, completed: bool) -> bool {
    match filter {
        Filter::Pending => !completed,
        Filter::Completed => completed,
    }
}

/// Whether the list under `filter` shows an item with this completion
/// state.
pub fn matches_filter(completed: bool, filter: Filter) -> (r: bool)
    ensures
        r == shows(filter, completed),
{
    match filter {
        Filter::Pending => !completed,
        Filter::Completed => completed,
    }
}

/// The store positions of the items that the list under `filter` shows, in
/// store order.
pub open spec fn visible_indices(s: Seq<TodoView>, filter: Filter) -> Seq<int>
    decreases s.len(),
{
    if s.len() == 0 {
        seq![]
    } else {
        let rest = visible_indices(s.drop_last(), filter);
        if shows(filter, s.last().completed) {
            rest.push(s.len() - 1)
        } else {
            rest
        }
    }
}

/// The positions are increasing, lie in the store, and are exactly those of
/// the items shown.
pub proof fn lemma_visible_indices(s: Seq<TodoView>, filter: Filter)
    ensures
        forall|a: int, b: int|
            0 <= a < b < visible_indices(s, filter).len() ==> visible_indices(s, filter)[a] < visible_indices(
                s,
                filter,
            )[b],
        forall|a: int|
            0 <= a < visible_indices(s, filter).len() ==> 0 <= #[trigger] visible_indices(s, filter)[a] < s.len()
                && shows(filter, s[visible_indices(s, filter)[a]].completed),
        forall|i: int|
            0 <= i < s.len() && shows(filter, #[trigger] s[i].completed) ==> visible_indices(s, filter).contains(i),
        visible_indices(s, filter).len() <= s.len(),
    decreases s.len(),
{
    if s.len() > 0 {
        let t = s.drop_last();
        lemma_visible_indices(t, filter);
        let rest = visible_indices(t, filter);
        assert forall|i: int| 0 <= i < s.len() && shows(filter, #[trigger] s[i].completed) implies visible_indices(
            s,
            filter,
        ).contains(i) by {
            if i < s.len() - 1 {
                assert(t[i] == s[i]);
                assert(rest.contains(i));
                let k = choose|k: int| 0 <= k < rest.len() && rest[k] == i;
                assert(visible_indices(s, filter)[k] == i);
            } else {
                assert(visible_indices(s, filter).last() == i);
            }
        }
    }
}

/// The indices shown from the first `i` items are a prefix of those shown
/// from all of them.
pub proof fn lemma_visible_prefix(s: Seq<TodoView>, filter: Filter, i: int)
    requires
        0 <= i <= s.len(),
    ensures
        visible_indices(s.take(i), filter).len() <= visible_indices(s, filter).len(),
        forall|k: int|
            0 <= k < visible_indices(s.take(i), filter).len() ==> #[trigger] visible_indices(s.take(i), filter)[k]
                == visible_indices(s, filter)[k],
    decreases s.len() - i,
{
    if i < s.len() {
        lemma_visible_prefix(s, filter, i + 1);
        let a = s.take(i + 1);
        assert(a.drop_last() =~= s.take(i));
        let ia = visible_indices(a, filter);
        let ib = visible_indices(s.take(i), filter);
        assert(ia == if shows(filter, a.last().completed) { ib.push(i) } else { ib });
        assert forall|k: int| 0 <= k < ib.len() implies #[trigger] ib[k] == visible_indices(s, filter)[k] by {
            assert(ia[k] == ib[k]);
        }
    } else {
        assert(s.take(i) =~= s);
    }
}

/// The number of items the list under `filter` shows.
pub fn visible_len(store: &TodoStore, filter: Filter) -> (r: usize)
    ensures
        r == visible_indices(store@, filter).len(),
{
    let items = store.items();
    let ghost s = store@;
    let mut n: usize = 0;
    let mut i: usize = 0;
    while i < items.len()
        invariant
            view_of(items@) == s,
            s == store@,
            i <= items@.len(),
            n == visible_indices(s.take(i as int), filter).len(),
            n <= i,
        decreases items@.len() - i,
    {
        assert(s.take(i + 1).drop_last() =~= s.take(i as int));
        assert(s[i as int].completed == items[i as int].completed);
        if matches_filter(items[i].completed, filter) {
            n = n + 1;
        }
        i = i + 1;
    }
    assert(s.take(i as int) =~= s);
    n
}

/// The store position of the item at `position` in the list under `filter`.
pub fn visible_index(store: &TodoStore, filter: Filter, position: usize) -> (r: Option<usize>)
    ensures
        r is None <==> position >= visible_indices(store@, filter).len(),
        r matches Some(i) ==> i == visible_indices(store@, filter)[position as int],
{
    let items = store.items();
    let ghost s = store@;
    proof { lemma_visible_indices(s, filter); }
    let mut n: usize = 0;
    let mut i: usize = 0;
    while i < items.len()
        invariant
            view_of(items@) == s,
            s == store@,
            i <= items@.len(),
            n == visible_indices(s.take(i as int), filter).len(),
            n <= position,
        decreases items@.len() - i,
    {
        assert(s.take(i + 1).drop_last() =~= s.take(i as int));
        assert(s[i as int].completed == items[i as int].completed);
        if matches_filter(items[i].completed, filter) {
            if n == position {
                proof {
                    lemma_visible_prefix(s, filter, i + 1);
                    assert(visible_indices(s.take(i + 1), filter) == visible_indices(s.take(i as int), filter).push(
                        i as int,
                    ));
                    assert(visible_indices(s.take(i + 1), filter)[n as int] == i);
                }
                return Some(i);
            }
            n = n + 1;
        }
        i = i + 1;
    }
    assert(s.take(i as int) =~= s);
    None
}

/// Where the item at store position `index` stands in the list under
/// `filter`; 0 where the list does not show it.
pub fn visible_position(store: &TodoStore, filter: Filter, index: usize) -> (r: usize)
    ensures
        (exists|p: int| 0 <= p < visible_indices(store@, filter).len() && visible_indices(store@, filter)[p] == index)
            ==> r < visible_indices(store@, filter).len() && visible_indices(store@, filter)[r as int] == index,
        !(exists|p: int| 0 <= p < visible_indices(store@, filter).len() && visible_indices(store@, filter)[p] == index)
            ==> r == 0,
{
    let items = store.items();
    let ghost s = store@;
    proof { lemma_visible_indices(s, filter); }
    let mut n: usize = 0;
    let mut i: usize = 0;
    while i < items.len()
        invariant
            view_of(items@) == s,
            s == store@,
            i <= items@.len(),
            n == visible_indices(s.take(i as int), filter).len(),
            n <= i,
            forall|k: int| 0 <= k < n ==> visible_indices(s.take(i as int), filter)[k] != index,
        decreases items@.len() - i,
    {
        assert(s.take(i + 1).drop_last() =~= s.take(i as int));
        assert(s[i as int].completed == items[i as int].completed);
        if matches_filter(items[i].completed, filter) {
            if i == index {
                proof {
                    lemma_visible_prefix(s, filter, i + 1);
                    assert(visible_indices(s.take(i + 1), filter) == visible_indices(s.take(i as int), filter).push(
                        i as int,
                    ));
                    assert(visible_indices(s.take(i + 1), filter)[n as int] == i);
                    assert(visible_indices(s, filter)[n as int] == index);
                }
                return n;
            }
            n = n + 1;
        }
        i = i + 1;
    }
    assert(s.take(i as int) =~= s);
    0
}

/// A rectangle of the terminal, in cells.
#[derive(Debug, Clone, Copy, PartialEq, Eq, Structural)]
pub struct Area {
    pub x: u16,
    pub y: u16,
    pub width: u16,
    pub height: u16,
}

/// `a + b`, held at the largest `u16`.
pub open spec fn sat_add_u16(a: u16, b: u16) -> int {
    if a + b > u16::MAX { u16::MAX as int } else { a + b }
}

impl Area {
    /// The row below the area (saturating, as ratatui's `Rect::bottom`).
    pub fn bottom(&self) -> (r: u16)
        ensures
            r == sat_add_u16(self.y, self.height),
    {
        self.y.saturating_add(self.height)
    }

    /// The column right of the area (saturating, as ratatui's `Rect::right`).
    pub fn right(&self) -> (r: u16)
        ensures
            r == sat_add_u16(self.x, self.width),
    {
        self.x.saturating_add(self.width)
    }
}

/// The cell lies inside the non-empty area.
pub open spec fn in_area(row: u16, column: u16, a: Area) -> bool {
    &&& a.width != 0
    &&& a.height != 0
    &&& a.y <= row < sat_add_u16(a.y, a.height)
    &&& a.x <= column < sat_add_u16(a.x, a.width)
}

/// The item under a click inside the list area, which shows the list from
/// position `offset` on, one item per row: its store position, and whether the
/// click fell on the first eight columns (the marker, the check box and the
/// number), which toggle it.
pub open spec fn item_at_spec(row: u16, column: u16, area: Area, offset: int, s: Seq<TodoView>, filter: Filter) -> Option<(int, bool)> {
    if !in_area(row, column, area) {
        None
    } else {
        let pos = offset + (row - area.y);
        if pos < visible_indices(s, filter).len() {
            Some((visible_indices(s, filter)[pos], column - area.x <= 7))
        } else {
            None
        }
    }
}

/// The item under the cell (`row`, `column`) of the list area, and whether
/// the click toggles it.
pub fn item_at(row: u16, column: u16, list_inner: Area, offset: usize, store: &TodoStore, filter: Filter) -> (r: Option<(usize, bool)>)
    requires
        in_area(row, column, list_inner) ==> offset + (row - list_inner.y) <= usize::MAX,
    ensures
        r is None <==> item_at_spec(row, column, list_inner, offset as int, store@, filter) is None,
        r matches Some((i, b)) ==> item_at_spec(row, column, list_inner, offset as int, store@, filter) == Some(
            (i as int, b),
        ),
{
    if list_inner.width == 0 || list_inner.height == 0 {
        return None;
    }
    if row < list_inner.y || row >= list_inner.bottom() {
        return None;
    }
    if column < list_inner.x || column >= list_inner.right() {
        return None;
    }
    let line_offset = (row - list_inner.y) as usize;
    let visible_pos = offset + line_offset;
    let index = match visible_index(store, filter, visible_pos) {
        Some(i) => i,
        None => { return None; },
    };
    let rel_col = column.saturating_sub(list_inner.x);
    let is_checkbox = rel_col <= 7;
    Some((index, is_checkbox))
}

/// A key of the keyboard, as far as the interface tells keys apart.
#[derive(Debug, Clone, Copy, PartialEq, Eq, Structural)]
pub enum Key {
    Esc,
    Enter,
    Left,
    Right,
    Up,
    Down,
    PageUp,
    PageDown,
    Home,
    End,
    Backspace,
    Delete,
    Tab,
    Char(char),
    Other,
}

/// A key press, and whether Control was held.
#[derive(Debug, Clone, Copy, PartialEq, Eq, Structural)]
pub struct KeyPress {
    pub key: Key,
    pub ctrl: bool,
}

/// What the mouse did.
#[derive(Debug, Clone, Copy, PartialEq, Eq, Structural)]
pub enum MouseAction {
    ScrollUp,
    ScrollDown,
    /// The left button went down on this cell.
    LeftDown { row: u16, column: u16 },
    Other,
}

/// Whether the interface goes on after an event.
#[derive(Debug, Clone, Copy, PartialEq, Eq, Structural)]
pub enum Flow {
    Continue,
    Quit,
}

/// The state of the full-screen interface between events: the list shown,
/// the selected position in it, the input box if one is open, and whether a
/// deletion waits for confirmation.
pub struct TuiState {
    pub filter: Filter,
    pub selected: usize,
    pub input: Option<ActiveInput>,
    pub confirm_delete: bool,
}

#[verifier::ext_equal]
pub struct TuiView {
    pub filter: Filter,
    pub selected: int,
    pub input: Option<InputView>,
    pub confirm_delete: bool,
}

/// The view of an input box that may be closed.
pub open spec fn opt_input_view(i: Option<ActiveInput>) -> Option<InputView> {
    match i {
        Some(a) => Some(a@),
        None => None,
    }
}

impl View for TuiState {
    type V = TuiView;

    open spec fn view(&self) -> TuiView {
        TuiView {
            filter: self.filter,
            selected: self.selected as int,
            input: opt_input_view(self.input),
            confirm_delete: self.confirm_delete,
        }
    }
}

/// The smaller of `a` and `b`.
pub open spec fn min_int(a: int, b: int) -> int {
    if a < b { a } else { b }
}

/// `a - b`, held at zero.
pub open spec fn sat_sub(a: int, b: int) -> int {
    if a > b { a - b } else { 0 }
}

/// `a + b`, held at the largest `usize`.
pub open spec fn sat_add_usize(a: int, b: int) -> int {
    if a + b > usize::MAX { usize::MAX as int } else { a + b }
}

/// The selection moved down by `step`, held at the last item shown.
pub open spec fn moved_down(selected: int, step: int, shown: int) -> int {
    min_int(sat_add_usize(selected, step), sat_sub(shown, 1))
}

/// The input box scrolled so that the cursor's line is shown.
pub open spec fn shown_input(a: InputView, w: int, h: int) -> InputView {
    InputView {
        scroll_top: scroll_to_show(a.scroll_top, wrap_spec(a.text, w, a.cursor).cursor_line, box_height(h)),
        ..a
    }
}

/// The input box with `c` typed at the cursor.
pub open spec fn typed(a: InputView, c: char, w: int, h: int) -> InputView {
    let idx = min_int(a.cursor, a.text.len() as int);
    shown_input(InputView { text: a.text.insert(idx, c), cursor: a.cursor + 1, ..a }, w, h)
}

/// The input box with its cursor at `cursor`, scrolled to show it.
pub open spec fn moved_to(a: InputView, cursor: int, w: int, h: int) -> InputView {
    shown_input(InputView { cursor, ..a }, w, h)
}

/// The key saves the input box: Control with `s` or `S`.
pub open spec fn is_save(k: KeyPress) -> bool {
    k.ctrl && (k.key == Key::Char('s') || k.key == Key::Char('S'))
}

/// What a key other than Escape and save does to the open input box of a
/// box `w` columns wide and `h` lines high.
pub open spec fn edit_key(a: InputView, k: KeyPress, w: int, h: int) -> InputView {
    let len = a.text.len() as int;
    let wr = wrap_spec(a.text, w, a.cursor);
    match k.key {
        Key::Enter => typed(a, '\n', w, h),
        Key::Left => moved_to(a, sat_sub(a.cursor, 1), w, h),
        Key::Right => moved_to(a, if a.cursor < len { a.cursor + 1 } else { a.cursor }, w, h),
        Key::Up => if wr.cursor_line > 0 {
            moved_to(a, char_at_spec(a.text, wr.ranges, wr.cursor_line - 1, wr.cursor_col), w, h)
        } else {
            a
        },
        Key::Down => if wr.cursor_line + 1 < wr.lines.len() {
            moved_to(a, char_at_spec(a.text, wr.ranges, wr.cursor_line + 1, wr.cursor_col), w, h)
        } else {
            a
        },
        Key::PageUp => InputView { scroll_top: sat_sub(a.scroll_top, box_height(h)), ..a },
        Key::PageDown => InputView {
            scroll_top: min_int(a.scroll_top + box_height(h), sat_sub(wr.lines.len() as int, h)),
            ..a
        },
        Key::Home => moved_to(a, 0, w, h),
        Key::End => moved_to(a, len, w, h),
        Key::Backspace => if a.cursor > 0 {
            let idx = min_int(a.cursor, len);
            shown_input(InputView { text: a.text.remove(idx - 1), cursor: a.cursor - 1, ..a }, w, h)
        } else {
            a
        },
        Key::Delete => if a.cursor < len {
            shown_input(InputView { text: a.text.remove(a.cursor), ..a }, w, h)
        } else {
            a
        },
        Key::Char(c) => if !k.ctrl {
            typed(a, c, w, h)
        } else {
            a
        },
        _ => a,
    }
}

/// A well-formed state: the cursor of an open input box lies within its
/// text.
pub open spec fn tui_wf(v: TuiView) -> bool {
    v.input matches Some(a) ==> 0 <= a.cursor <= a.text.len()
}

/// The selection held within the list of `shown` items.
pub open spec fn clamped(selected: int, shown: int) -> int {
    if shown > 0 && selected >= shown {
        shown - 1
    } else if shown == 0 {
        0
    } else {
        selected
    }
}

/// The input box that editing the item at store position `index` opens.
pub open spec fn editing_box(index: int, title: Seq<char>) -> InputView {
    InputView { mode: InputState::Editing(index as usize), text: title, cursor: title.len() as int, scroll_top: 0 }
}

/// The empty input box that a new item is written in.
pub open spec fn creating_box() -> InputView {
    InputView { mode: InputState::Creating, text: seq![], cursor: 0, scroll_top: 0 }
}

/// The key is one of `a` and `b`.
pub open spec fn is_char(k: KeyPress, a: char, b: char) -> bool {
    k.key == Key::Char(a) || k.key == Key::Char(b)
}

/// The flow that an operation with this outcome leaves.
pub open spec fn flow_after(op: Result<(), TodoError>, r: Result<Flow, TodoError>) -> bool {
    match op {
        Ok(_) => r == Ok::<Flow, TodoError>(Flow::Continue),
        Err(e) => r == Err::<Flow, TodoError>(e),
    }
}

/// What a key press does while no input box is open: `s` and `t` are the
/// interface and the items before and after, `r` what the step returns.
pub open spec fn list_key(s: TuiView, s2: TuiView, old: Seq<TodoView>, new: Seq<TodoView>, k: KeyPress, r: Result<Flow, TodoError>) -> bool {
    let ind = visible_indices(old, s.filter);
    let here: Option<int> = if s.selected < ind.len() { Some(ind[s.selected]) } else { None };
    let same = s2 == s && new == old && r == Ok::<Flow, TodoError>(Flow::Continue);
    if s.confirm_delete {
        if is_char(k, 'y', 'Y') || k.key == Key::Enter {
            match here {
                Some(i) => exists|op: Result<(), TodoError>| {
                    &&& remove_effect(old, new, i, op)
                    &&& flow_after(op, r)
                    &&& s2 == (if op is Ok { TuiView { confirm_delete: false, ..s } } else { s })
                },
                None => s2 == TuiView { confirm_delete: false, ..s } && new == old && r == Ok::<Flow, TodoError>(Flow::Continue),
            }
        } else if k.key == Key::Esc || is_char(k, 'n', 'N') {
            s2 == TuiView { confirm_delete: false, ..s } && new == old && r == Ok::<Flow, TodoError>(Flow::Continue)
        } else {
            same
        }
    } else if k.key == Key::Char('q') || k.key == Key::Esc {
        s2 == s && new == old && r == Ok::<Flow, TodoError>(Flow::Quit)
    } else if k.key == Key::Up || k.key == Key::Char('k') {
        s2 == TuiView { selected: sat_sub(s.selected, 1), ..s } && new == old && r == Ok::<Flow, TodoError>(Flow::Continue)
    } else if k.key == Key::Down || k.key == Key::Char('j') {
        s2 == TuiView { selected: moved_down(s.selected, 1, ind.len() as int), ..s } && new == old && r == Ok::<
            Flow,
            TodoError,
        >(Flow::Continue)
    } else if k.key == Key::PageUp {
        s2 == TuiView { selected: sat_sub(s.selected, 5), ..s } && new == old && r == Ok::<Flow, TodoError>(Flow::Continue)
    } else if k.key == Key::PageDown {
        s2 == TuiView { selected: moved_down(s.selected, 5, ind.len() as int), ..s } && new == old && r == Ok::<
            Flow,
            TodoError,
        >(Flow::Continue)
    } else if k.key == Key::Enter || k.key == Key::Char('e') {
        match here {
            Some(i) => s2 == TuiView { input: Some(editing_box(i, old[i].title)), ..s } && new == old && r == Ok::<
                Flow,
                TodoError,
            >(Flow::Continue),
            None => same,
        }
    } else if k.key == Key::Char(' ') {
        match here {
            Some(i) => exists|op: Result<(), TodoError>| toggle_effect(old, new, i, op) && flow_after(op, r) && s2 == s,
            None => same,
        }
    } else if is_char(k, 'a', 'n') {
        s2 == TuiView { input: Some(creating_box()), ..s } && new == old && r == Ok::<Flow, TodoError>(Flow::Continue)
    } else if k.key == Key::Char('d') || k.key == Key::Delete {
        s2 == TuiView { confirm_delete: here is Some, ..s } && new == old && r == Ok::<Flow, TodoError>(Flow::Continue)
    } else if k.key == Key::Tab {
        s2 == TuiView {
            filter: if s.filter == Filter::Pending { Filter::Completed } else { Filter::Pending },
            selected: 0,
            ..s
        } && new == old && r == Ok::<Flow, TodoError>(Flow::Continue)
    } else {
        same
    }
}

/// What a key press does while the input box `a` is open, in a box `w`
/// columns wide and `h` lines high: Escape closes it; save closes it and adds
/// the trimmed text as an item, or gives the edited item that title, unless
/// the trimmed text is empty; any other key edits it.
pub open spec fn input_key(s: TuiView, a: InputView, s2: TuiView, old: Seq<TodoView>, new: Seq<TodoView>, k: KeyPress, w: int, h: int, r: Result<Flow, TodoError>) -> bool {
    if k.key == Key::Esc {
        s2 == TuiView { input: None, ..s } && new == old && r == Ok::<Flow, TodoError>(Flow::Continue)
    } else if is_save(k) {
        &&& s2 == TuiView { input: None, ..s }
        &&& if trimmed(a.text).len() == 0 {
            new == old && r == Ok::<Flow, TodoError>(Flow::Continue)
        } else {
            exists|op: Result<(), TodoError>| {
                &&& flow_after(op, r)
                &&& match a.mode {
                    InputState::Creating => add_effect(old, new, trimmed(a.text), op),
                    InputState::Editing(i) => retitle_effect(old, new, i as int, trimmed(a.text), op),
                }
            }
        }
    } else {
        s2 == TuiView { input: Some(edit_key(a, k, w, h)), ..s } && new == old && r == Ok::<Flow, TodoError>(Flow::Continue)
    }
}

/// What a mouse action does, with the list area and its scroll offset as
/// last drawn, and the input box `w` columns wide and `h` lines high.
pub open spec fn mouse_effect(s: TuiView, s2: TuiView, old: Seq<TodoView>, new: Seq<TodoView>, m: MouseAction, area: Area, offset: int, w: int, h: int, r: Result<(), TodoError>) -> bool {
    let ind = visible_indices(old, s.filter);
    let same = s2 == s && new == old && r is Ok;
    match m {
        MouseAction::ScrollUp => match s.input {
            Some(a) => s2 == TuiView { input: Some(InputView { scroll_top: sat_sub(a.scroll_top, 1), ..a }), ..s }
                && new == old && r is Ok,
            None => s2 == TuiView { selected: sat_sub(s.selected, 1), ..s } && new == old && r is Ok,
        },
        MouseAction::ScrollDown => match s.input {
            Some(a) => s2 == TuiView {
                input: Some(
                    InputView {
                        scroll_top: min_int(
                            a.scroll_top + 1,
                            sat_sub(wrap_spec(a.text, w, a.cursor).lines.len() as int, h),
                        ),
                        ..a
                    },
                ),
                ..s
            } && new == old && r is Ok,
            None => s2 == TuiView { selected: moved_down(s.selected, 1, ind.len() as int), ..s } && new == old && r is Ok,
        },
        MouseAction::LeftDown { row, column } => if s.input is None {
            match item_at_spec(row, column, area, offset, old, s.filter) {
                Some((i, on_box)) => {
                    &&& s2.filter == s.filter && s2.input == s.input && s2.confirm_delete == s.confirm_delete
                    &&& 0 <= s2.selected < ind.len() && ind[s2.selected] == i
                    &&& if on_box {
                        exists|op: Result<(), TodoError>| toggle_effect(old, new, i, op) && op == r
                    } else {
                        new == old && r is Ok
                    }
                },
                None => same,
            }
        } else {
            same
        },
        MouseAction::Other => same,
    }
}

/// The text of the input box, once the box is closed for saving, as the
/// title handed to the store.
fn trimmed_title(text: &String) -> (r: String)
    ensures
        r@ == trimmed(text@),
{
    trim(text.as_str()).to_string()
}

impl TuiState {
    /// The interface as it starts: pending items, the first selected, no box.
    pub fn new() -> (r: TuiState)
        ensures
            r@ == (TuiView { filter: Filter::Pending, selected: 0, input: None, confirm_delete: false }),
    {
        TuiState { filter: Filter::Pending, selected: 0, input: None, confirm_delete: false }
    }

    /// Before each frame: reloads the items unless an input box is open
    /// (a failed reload keeps them), then holds the selection within the list.
    pub fn sync(&mut self, store: &mut TodoStore)
        ensures
            old(self).input is Some ==> final(store)@ == old(store)@,
            old(self).input is None ==> final(store)@ == old(store)@
                || forall|i: int| 0 <= i < final(store)@.len() ==> stamps_read_back(#[trigger] final(store)@[i]),
            old(self).input is Some ==> final(store).events() == old(store).events(),
            old(self).input is None ==> {
                &&& one_more(old(store).events(), final(store).events())
                &&& (loaded(final(store).events().last(), Ok(final(store)@)) || (final(store)@ == old(store)@
                    && exists|e: TodoError| loaded(final(store).events().last(), Err(e))))
            },
            final(self)@ == (TuiView {
                selected: clamped(old(self).selected as int, visible_indices(final(store)@, old(self).filter).len() as int),
                ..old(self)@
            }),
    {
        if self.input.is_none() {
            match store.reload() {
                Ok(()) => {},
                Err(e) => {
                    assert(loaded(store.events().last(), Err(e)));
                },
            }
        }
        let total_vis = visible_len(store, self.filter);
        if total_vis > 0 && self.selected >= total_vis {
            self.selected = total_vis - 1;
        } else if total_vis == 0 {
            self.selected = 0;
        }
    }

    /// Handles a key press, the input box being `inner_w` columns wide and
    /// `inner_h` lines high. An error of the store ends the interface.
    pub fn on_key(&mut self, store: &mut TodoStore, k: KeyPress, inner_w: usize, inner_h: usize) -> (r: Result<Flow, TodoError>)
        requires
            tui_wf(old(self)@),
            old(self).input matches Some(a) ==> (
                (k.key == Key::Enter || (k.key is Char && !k.ctrl)) ==> a.text@.len() < usize::MAX),
            old(self).input matches Some(a) ==> (k.key == Key::PageDown ==> a.scroll_top + box_height(inner_h as int) <= usize::MAX),
        ensures
            tui_wf(final(self)@),
            match old(self)@.input {
                Some(a) => input_key(old(self)@, a, final(self)@, old(store)@, final(store)@, k, inner_w as int, inner_h as int, r),
                None => list_key(old(self)@, final(self)@, old(store)@, final(store)@, k, r),
            },
    {
        if self.input.is_some() {
            self.on_input_key(store, k, inner_w, inner_h)
        } else {
            self.on_list_key(store, k)
        }
    }

    fn on_input_key(&mut self, store: &mut TodoStore, k: KeyPress, inner_w: usize, inner_h: usize) -> (r: Result<Flow, TodoError>)
        requires
            old(self).input is Some,
            tui_wf(old(self)@),
            old(self).input matches Some(a) ==> (
                (k.key == Key::Enter || (k.key is Char && !k.ctrl)) ==> a.text@.len() < usize::MAX),
            old(self).input matches Some(a) ==> (k.key == Key::PageDown ==> a.scroll_top + box_height(inner_h as int) <= usize::MAX),
        ensures
            tui_wf(final(self)@),
            old(self)@.input matches Some(a) && input_key(old(self)@, a, final(self)@, old(store)@, final(store)@, k, inner_w as int, inner_h as int, r),
    {
        let ghost a0 = old(self)@.input->Some_0;
        if k.key == Key::Esc {
            self.input = None;
            return Ok(Flow::Continue);
        }
        if k.ctrl && (k.key == Key::Char('s') || k.key == Key::Char('S')) {
            let active = self.input.take();
            let active = match active {
                Some(a) => a,
                None => { return Ok(Flow::Continue); },
            };
            let title = trimmed_title(&active.text);
            if title.unicode_len() > 0 {
                match active.mode {
                    InputState::Creating => {
                        let res = store.add(title);
                        let ghost op = outcome(res);
                        match res {
                            Ok(_) => {},
                            Err(e) => {
                                assert(flow_after(op, Err::<Flow, TodoError>(e)));
                                return Err(e);
                            },
                        }
                        assert(flow_after(op, Ok::<Flow, TodoError>(Flow::Continue)));
                    },
                    InputState::Editing(idx) => {
                        let res = store.update_title(idx, title);
                        match res {
                            Ok(_) => {},
                            Err(e) => {
                                assert(flow_after(Err::<(), TodoError>(e), Err::<Flow, TodoError>(e)));
                                return Err(e);
                            },
                        }
                        assert(flow_after(Ok::<(), TodoError>(()), Ok::<Flow, TodoError>(Flow::Continue)));
                    },
                }
            }
            return Ok(Flow::Continue);
        }
        let mut active = match self.input.take() {
            Some(a) => a,
            None => { return Ok(Flow::Continue); },
        };
        edit_input(&mut active, k, inner_w, inner_h);
        self.input = Some(active);
        Ok(Flow::Continue)
    }

    fn on_list_key(&mut self, store: &mut TodoStore, k: KeyPress) -> (r: Result<Flow, TodoError>)
        requires
            old(self).input is None,
        ensures
            tui_wf(final(self)@),
            list_key(old(self)@, final(self)@, old(store)@, final(store)@, k, r),
    {
        let ghost s0 = old(self)@;
        let ghost st0 = old(store)@;
        if self.confirm_delete {
            if k.key == Key::Char('y') || k.key == Key::Char('Y') || k.key == Key::Enter {
                match visible_index(store, self.filter, self.selected) {
                    Some(index) => {
                        let res = store.remove(index);
                        match res {
                            Err(e) => {
                                assert(flow_after(Err::<(), TodoError>(e), Err::<Flow, TodoError>(e)));
                                return Err(e);
                            },
                            Ok(()) => {},
                        }
                        self.confirm_delete = false;
                        assert(self@ =~= TuiView { confirm_delete: false, ..s0 });
                        assert(flow_after(Ok::<(), TodoError>(()), Ok::<Flow, TodoError>(Flow::Continue)));
                    },
                    None => {
                        self.confirm_delete = false;
                        assert(self@ =~= TuiView { confirm_delete: false, ..s0 });
                    },
                }
            } else if k.key == Key::Esc || k.key == Key::Char('n') || k.key == Key::Char('N') {
                self.confirm_delete = false;
                assert(self@ =~= TuiView { confirm_delete: false, ..s0 });
            }
            return Ok(Flow::Continue);
        }
        if k.key == Key::Char('q') || k.key == Key::Esc {
            return Ok(Flow::Quit);
        } else if k.key == Key::Up || k.key == Key::Char('k') {
            self.selected = self.selected.saturating_sub(1);
        } else if k.key == Key::Down || k.key == Key::Char('j') {
            let n = visible_len(store, self.filter);
            let last = n.saturating_sub(1);
            let next = self.selected.saturating_add(1);
            self.selected = if next < last { next } else { last };
        } else if k.key == Key::PageUp {
            self.selected = self.selected.saturating_sub(5);
        } else if k.key == Key::PageDown {
            let n = visible_len(store, self.filter);
            let last = n.saturating_sub(1);
            let next = self.selected.saturating_add(5);
            self.selected = if next < last { next } else { last };
        } else if k.key == Key::Enter || k.key == Key::Char('e') {
            match visible_index(store, self.filter, self.selected) {
                Some(index) => {
                    proof { lemma_visible_indices(st0, s0.filter); }
                    let items = store.items();
                    let title = items[index].title.clone();
                    let cursor = title.unicode_len();
                    assert(items@[index as int].title@ == st0[index as int].title);
                    self.input = Some(ActiveInput { mode: InputState::Editing(index), text: title, cursor, scroll_top: 0 });
                    assert(self@ =~= TuiView { input: Some(editing_box(index as int, st0[index as int].title)), ..s0 });
                },
                None => {},
            }
        } else if k.key == Key::Char(' ') {
            match visible_index(store, self.filter, self.selected) {
                Some(index) => {
                    let res = store.toggle(index);
                    match res {
                        Err(e) => {
                            assert(flow_after(Err::<(), TodoError>(e), Err::<Flow, TodoError>(e)));
                            return Err(e);
                        },
                        Ok(()) => {},
                    }
                    assert(flow_after(Ok::<(), TodoError>(()), Ok::<Flow, TodoError>(Flow::Continue)));
                },
                None => {},
            }
        } else if k.key == Key::Char('a') || k.key == Key::Char('n') {
            self.input = Some(ActiveInput { mode: InputState::Creating, text: String::new(), cursor: 0, scroll_top: 0 });
            assert(self@ =~= TuiView { input: Some(creating_box()), ..s0 });
        } else if k.key == Key::Char('d') || k.key == Key::Delete {
            if visible_index(store, self.filter, self.selected).is_some() {
                self.confirm_delete = true;
            }
        } else if k.key == Key::Tab {
            self.filter = if self.filter == Filter::Pending { Filter::Completed } else { Filter::Pending };
            self.selected = 0;
        }
        Ok(Flow::Continue)
    }

    /// Handles a mouse action, with the list area and its scroll offset as
    /// last drawn and the input box `inner_w` columns wide and `inner_h`
    /// lines high. An error of the store ends the interface.
    pub fn on_mouse(&mut self, store: &mut TodoStore, m: MouseAction, list_inner: Area, offset: usize, inner_w: usize, inner_h: usize) -> (r: Result<(), TodoError>)
        requires
            tui_wf(old(self)@),
            old(self).input matches Some(a) ==> (m == MouseAction::ScrollDown ==> a.scroll_top < usize::MAX),
            m matches MouseAction::LeftDown { row, column } ==> (in_area(row, column, list_inner) ==> offset + (row - list_inner.y) <= usize::MAX),
        ensures
            tui_wf(final(self)@),
            mouse_effect(old(self)@, final(self)@, old(store)@, final(store)@, m, list_inner, offset as int, inner_w as int, inner_h as int, r),
    {
        let ghost s0 = old(self)@;
        let ghost st0 = old(store)@;
        match m {
            MouseAction::ScrollUp => {
                match self.input.take() {
                    Some(mut active) => {
                        active.scroll_top = active.scroll_top.saturating_sub(1);
                        self.input = Some(active);
                    },
                    None => {
                        self.selected = self.selected.saturating_sub(1);
                    },
                }
                assert(mouse_effect(s0, self@, st0, store@, m, list_inner, offset as int, inner_w as int, inner_h as int, Ok(())));
                Ok(())
            },
            MouseAction::ScrollDown => {
                match self.input.take() {
                    Some(mut active) => {
                        let wrapped = wrap_input_text(active.text.as_str(), inner_w, active.cursor);
                        let max_scroll = wrapped.lines.len().saturating_sub(inner_h);
                        let next = active.scroll_top + 1;
                        active.scroll_top = if next < max_scroll { next } else { max_scroll };
                        self.input = Some(active);
                    },
                    None => {
                        let n = visible_len(store, self.filter);
                        let last = n.saturating_sub(1);
                        let next = self.selected.saturating_add(1);
                        self.selected = if next < last { next } else { last };
                    },
                }
                assert(mouse_effect(s0, self@, st0, store@, m, list_inner, offset as int, inner_w as int, inner_h as int, Ok(())));
                Ok(())
            },
            MouseAction::LeftDown { row, column } => {
                if self.input.is_some() {
                    return Ok(());
                }
                match item_at(row, column, list_inner, offset, store, self.filter) {
                    Some((index, checkbox)) => {
                        proof {
                            lemma_visible_indices(st0, s0.filter);
                            let pos = offset + (row - list_inner.y);
                            assert(visible_indices(st0, s0.filter)[pos] == index);
                        }
                        self.selected = visible_position(store, self.filter, index);
                        if checkbox {
                            let res = store.toggle(index);
                            assert(mouse_effect(s0, self@, st0, store@, m, list_inner, offset as int, inner_w as int, inner_h as int, res));
                            return res;
                        }
                        Ok(())
                    },
                    None => Ok(()),
                }
            },
            MouseAction::Other => Ok(()),
        }
    }
}

/// Applies a key other than Escape and save to the open input box.
fn edit_input(active: &mut ActiveInput, k: KeyPress, inner_w: usize, inner_h: usize)
    requires
        old(active).cursor <= old(active).text@.len(),
        (k.key == Key::Enter || (k.key is Char && !k.ctrl)) ==> old(active).text@.len() < usize::MAX,
        k.key == Key::PageDown ==> old(active).scroll_top + box_height(inner_h as int) <= usize::MAX,
    ensures
        final(active).cursor <= final(active).text@.len(),
        final(active)@ == edit_key(old(active)@, k, inner_w as int, inner_h as int),
{
    let ghost a0 = old(active)@;
    let len = active.text.unicode_len();
    match k.key {
        Key::Enter => {
            let idx = if active.cursor < len { active.cursor } else { len };
            active.text = insert_char_at(&active.text, idx, '\n');
            active.cursor = active.cursor + 1;
            ensure_cursor_visible(active, inner_w, inner_h);
        },
        Key::Left => {
            active.cursor = active.cursor.saturating_sub(1);
            ensure_cursor_visible(active, inner_w, inner_h);
        },
        Key::Right => {
            if active.cursor < len {
                active.cursor = active.cursor + 1;
            }
            ensure_cursor_visible(active, inner_w, inner_h);
        },
        Key::Up => {
            let wrapped = wrap_input_text(active.text.as_str(), inner_w, active.cursor);
            if wrapped.cursor_line > 0 {
                proof { lemma_wrap_ranges(active.text@, inner_w as int, active.cursor as int); }
                active.cursor = char_at_line_col(active.text.as_str(), &wrapped, wrapped.cursor_line - 1, wrapped.cursor_col);
                proof { lemma_char_at_in_text(active.text@, wrapped@.ranges, wrapped.cursor_line - 1, wrapped.cursor_col as int); }
                ensure_cursor_visible(active, inner_w, inner_h);
            }
        },
        Key::Down => {
            let wrapped = wrap_input_text(active.text.as_str(), inner_w, active.cursor);
            if wrapped.cursor_line < wrapped.lines.len() - 1 {
                proof { lemma_wrap_ranges(active.text@, inner_w as int, active.cursor as int); }
                active.cursor = char_at_line_col(active.text.as_str(), &wrapped, wrapped.cursor_line + 1, wrapped.cursor_col);
                proof { lemma_char_at_in_text(active.text@, wrapped@.ranges, wrapped.cursor_line + 1, wrapped.cursor_col as int); }
                ensure_cursor_visible(active, inner_w, inner_h);
            }
        },
        Key::PageUp => {
            let page = if inner_h < 1 { 1 } else { inner_h };
            active.scroll_top = active.scroll_top.saturating_sub(page);
        },
        Key::PageDown => {
            let page = if inner_h < 1 { 1 } else { inner_h };
            let wrapped = wrap_input_text(active.text.as_str(), inner_w, active.cursor);
            let max_scroll = wrapped.lines.len().saturating_sub(inner_h);
            let next = active.scroll_top + page;
            active.scroll_top = if next < max_scroll { next } else { max_scroll };
        },
        Key::Home => {
            active.cursor = 0;
            ensure_cursor_visible(active, inner_w, inner_h);
        },
        Key::End => {
            active.cursor = len;
            ensure_cursor_visible(active, inner_w, inner_h);
        },
        Key::Backspace => {
            if active.cursor > 0 {
                let idx = if active.cursor < len { active.cursor } else { len };
                active.text = remove_char_at(&active.text, idx - 1);
                active.cursor = active.cursor - 1;
                ensure_cursor_visible(active, inner_w, inner_h);
            }
        },
        Key::Delete => {
            if active.cursor < len {
                active.text = remove_char_at(&active.text, active.cursor);
                ensure_cursor_visible(active, inner_w, inner_h);
            }
        },
        Key::Char(c) => {
            if !k.ctrl {
                let idx = if active.cursor < len { active.cursor } else { len };
                active.text = insert_char_at(&active.text, idx, c);
                active.cursor = active.cursor + 1;
                ensure_cursor_visible(active, inner_w, inner_h);
            }
        },
        _ => {},
    }
    assert(active@ =~= edit_key(a0, k, inner_w as int, inner_h as int));
}

} // verus!
