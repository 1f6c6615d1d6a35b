use vstd::prelude::*;
use crate::cli::{command_effect, Commands, Outcome};
use crate::db::{Event, SqlValueView};
use crate::editor::{box_height, law_wrap_covers_text, widths_of, wrap_spec, InputState, InputView};
use crate::listing::{in_scope, law_sort_desc, limited, sort_desc, ListScope};
use crate::model::{StampView, TodoError, TodoView, view_of};
use crate::storage::{stamp_effect, toggle_effect};
use crate::tui::{
    edit_key, flow_after, item_at_spec, lemma_visible_indices, list_key, mouse_effect, visible_indices, Area, Flow,
    Key, KeyPress, MouseAction, TuiView,
};

verus! {

/// Completing an item stamps it with a fresh reading of the clock: exactly
/// one more reading is taken, the earlier ones stay, the new one is the
/// item's completion time, and it is the time sent to SQLite, with the state
/// 1 and the item's id.
pub proof fn law_completion_time_is_now(
    old_r: Seq<StampView>,
    new_r: Seq<StampView>,
    old_ev: Seq<Event>,
    new_ev: Seq<Event>,
    id: u64,
    after: TodoView,
)
    requires
        stamp_effect(old_r, new_r, old_ev, new_ev, id, true, true, after),
    ensures
        new_r.len() == old_r.len() + 1,
        forall|k: int| 0 <= k < old_r.len() ==> new_r[k] == old_r[k],
        after.completed_at == Some(new_r[old_r.len() as int]),
        new_ev.len() == old_ev.len() + 1,
        new_ev.last() matches Event::Sent { values, .. } && values.len() == 3 && values[0] == SqlValueView::Int(1)
            && values[1] == SqlValueView::Text(new_r[old_r.len() as int].text) && values[2] == SqlValueView::Int(
            id as i64,
        ),
{
    assert forall|k: int| 0 <= k < old_r.len() implies new_r[k] == old_r[k] by {
        assert(new_r.drop_last()[k] == new_r[k]);
    }
}

/// Reopening an item reads no clock and sends no time: the state 0 and
/// NULL for the completion time.
pub proof fn law_reopening_sends_no_time(
    old_r: Seq<StampView>,
    new_r: Seq<StampView>,
    old_ev: Seq<Event>,
    new_ev: Seq<Event>,
    id: u64,
    ok: bool,
    after: TodoView,
)
    requires
        stamp_effect(old_r, new_r, old_ev, new_ev, id, false, ok, after),
    ensures
        new_r == old_r,
        new_ev.last() matches Event::Sent { values, .. } && values.len() == 3 && values[0] == SqlValueView::Int(0)
            && values[1] == SqlValueView::Null,
{
}

/// Up or `k` in the list moves the selection to the previous position (it
/// stays at the top), and changes nothing else.
pub proof fn law_list_up(s: TuiView, s2: TuiView, old: Seq<TodoView>, new: Seq<TodoView>, k: KeyPress, r: Result<Flow, TodoError>)
    requires
        list_key(s, s2, old, new, k, r),
        !s.confirm_delete,
        k.key == Key::Up || k.key == Key::Char('k'),
    ensures
        s2.selected == (if s.selected > 0 { s.selected - 1 } else { 0 }),
        s2.filter == s.filter && s2.input == s.input && s2.confirm_delete == s.confirm_delete,
        new == old,
        r == Ok::<Flow, TodoError>(Flow::Continue),
{
}

/// Down or `j` in the list moves the selection to the next position, held
/// at the last item shown.
pub proof fn law_list_down(s: TuiView, s2: TuiView, old: Seq<TodoView>, new: Seq<TodoView>, k: KeyPress, r: Result<Flow, TodoError>)
    requires
        list_key(s, s2, old, new, k, r),
        !s.confirm_delete,
        k.key == Key::Down || k.key == Key::Char('j'),
        0 <= s.selected < usize::MAX,
    ensures
        ({
            let n = visible_indices(old, s.filter).len() as int;
            s2.selected == (if s.selected + 1 < n { s.selected + 1 } else if n > 0 { n - 1 } else { 0 })
        }),
        s2.filter == s.filter && s2.input == s.input && s2.confirm_delete == s.confirm_delete,
        new == old,
        r == Ok::<Flow, TodoError>(Flow::Continue),
{
}

/// PageUp moves the selection five positions up (it stays at the top), and
/// PageDown five down, held at the last item shown.
pub proof fn law_list_pages(s: TuiView, s2: TuiView, old: Seq<TodoView>, new: Seq<TodoView>, k: KeyPress, r: Result<Flow, TodoError>)
    requires
        list_key(s, s2, old, new, k, r),
        !s.confirm_delete,
        k.key == Key::PageUp || k.key == Key::PageDown,
        0 <= s.selected,
        s.selected + 5 <= usize::MAX,
    ensures
        k.key == Key::PageUp ==> s2.selected == (if s.selected > 5 { s.selected - 5 } else { 0 }),
        ({
            let n = visible_indices(old, s.filter).len() as int;
            k.key == Key::PageDown ==> s2.selected == (if s.selected + 5 < n { s.selected + 5 } else if n > 0 {
                n - 1
            } else {
                0
            })
        }),
        s2.filter == s.filter && s2.input == s.input && new == old,
        r == Ok::<Flow, TodoError>(Flow::Continue),
{
}

/// Tab switches between the pending and the completed list and selects the
/// first item.
pub proof fn law_list_tab(s: TuiView, s2: TuiView, old: Seq<TodoView>, new: Seq<TodoView>, k: KeyPress, r: Result<Flow, TodoError>)
    requires
        list_key(s, s2, old, new, k, r),
        !s.confirm_delete,
        k.key == Key::Tab,
    ensures
        s2.filter != s.filter,
        s2.selected == 0,
        s2.input == s.input && new == old,
        r == Ok::<Flow, TodoError>(Flow::Continue),
{
}

/// Space flips the completion state of the selected item (the item shown at
/// the selected position) and of no other; where the store refuses, nothing
/// changes and the error ends the interface.
pub proof fn law_list_space(s: TuiView, s2: TuiView, old: Seq<TodoView>, new: Seq<TodoView>, k: KeyPress, r: Result<Flow, TodoError>)
    requires
        list_key(s, s2, old, new, k, r),
        !s.confirm_delete,
        k.key == Key::Char(' '),
        0 <= s.selected < visible_indices(old, s.filter).len(),
    ensures
        s2 == s,
        ({
            let i = visible_indices(old, s.filter)[s.selected];
            &&& r is Ok ==> new.len() == old.len() && new[i].completed == !old[i].completed && forall|j: int|
                0 <= j < old.len() && j != i ==> new[j] == old[j]
            &&& r is Err ==> new == old
        }),
{
    lemma_visible_indices(old, s.filter);
    let i = visible_indices(old, s.filter)[s.selected];
    let op = choose|op: Result<(), TodoError>| toggle_effect(old, new, i, op) && flow_after(op, r) && s2 == s;
}

/// Enter or `e` opens the input box on the selected item, holding its title
/// with the cursor at the end; `a` or `n` opens an empty box for a new item.
pub proof fn law_list_open_box(s: TuiView, s2: TuiView, old: Seq<TodoView>, new: Seq<TodoView>, k: KeyPress, r: Result<Flow, TodoError>)
    requires
        list_key(s, s2, old, new, k, r),
        !s.confirm_delete,
        k.key == Key::Enter || k.key == Key::Char('e') || k.key == Key::Char('a') || k.key == Key::Char('n'),
        k.key == Key::Enter || k.key == Key::Char('e') ==> 0 <= s.selected < visible_indices(old, s.filter).len(),
    ensures
        new == old,
        s2.filter == s.filter && s2.selected == s.selected,
        k.key == Key::Enter || k.key == Key::Char('e') ==> {
            let i = visible_indices(old, s.filter)[s.selected];
            (s2.input matches Some(b) && b.mode == InputState::Editing(i as usize) && b.text == old[i].title && b.cursor
                == old[i].title.len() && b.scroll_top == 0)
        },
        k.key == Key::Char('a') || k.key == Key::Char('n') ==> (s2.input matches Some(b) && b.mode
            == InputState::Creating && b.text.len() == 0 && b.cursor == 0),
{
}

/// `d` or Delete asks to confirm the deletion where an item is selected,
/// and changes nothing else.
pub proof fn law_list_delete_asks(s: TuiView, s2: TuiView, old: Seq<TodoView>, new: Seq<TodoView>, k: KeyPress, r: Result<Flow, TodoError>)
    requires
        list_key(s, s2, old, new, k, r),
        !s.confirm_delete,
        k.key == Key::Char('d') || k.key == Key::Delete,
        0 <= s.selected,
    ensures
        s2.confirm_delete == (s.selected < visible_indices(old, s.filter).len()),
        s2.selected == s.selected && s2.filter == s.filter && s2.input == s.input,
        new == old,
{
}

proof fn lemma_widths_nonneg(text: Seq<char>)
    ensures
        forall|i: int| 0 <= i < widths_of(text).len() ==> #[trigger] widths_of(text)[i] >= 0,
{
}

/// After a key that moves the cursor or edits the text, the cursor's line
/// is among the lines shown.
proof fn lemma_line_shown(b: InputView, w: int, h: int)
    requires
        b.scroll_top >= 0,
        wrap_spec(b.text, w, b.cursor).cursor_line >= 0,
    ensures
        ({
            let line = wrap_spec(b.text, w, b.cursor).cursor_line;
            let top = crate::editor::scroll_to_show(b.scroll_top, line, box_height(h));
            top <= line < top + box_height(h) && top >= 0
        }),
{
}

/// What the editing keys do in the open input box: Right and Left move the
/// cursor one character (held at the ends), Home and End to the start and
/// the end; a character (without Control) or Enter is inserted at the cursor
/// and the cursor moves past it; Backspace deletes the character before the
/// cursor and Delete the one at it. None of them changes the mode.
pub proof fn law_edit_keys(a: InputView, c: char, ctrl: bool, w: int, h: int)
    requires
        0 <= a.cursor <= a.text.len(),
        a.scroll_top >= 0,
    ensures
        ({
            let b = edit_key(a, KeyPress { key: Key::Right, ctrl }, w, h);
            b.text == a.text && b.mode == a.mode && b.cursor == (if a.cursor < a.text.len() { a.cursor + 1 } else { a.cursor })
        }),
        ({
            let b = edit_key(a, KeyPress { key: Key::Left, ctrl }, w, h);
            b.text == a.text && b.mode == a.mode && b.cursor == (if a.cursor > 0 { a.cursor - 1 } else { 0 })
        }),
        ({
            let b = edit_key(a, KeyPress { key: Key::Home, ctrl }, w, h);
            b.text == a.text && b.mode == a.mode && b.cursor == 0
        }),
        ({
            let b = edit_key(a, KeyPress { key: Key::End, ctrl }, w, h);
            b.text == a.text && b.mode == a.mode && b.cursor == a.text.len()
        }),
        ({
            let b = edit_key(a, KeyPress { key: Key::Char(c), ctrl: false }, w, h);
            b.text == a.text.insert(a.cursor, c) && b.mode == a.mode && b.cursor == a.cursor + 1
        }),
        ({
            let b = edit_key(a, KeyPress { key: Key::Enter, ctrl }, w, h);
            b.text == a.text.insert(a.cursor, '\n') && b.mode == a.mode && b.cursor == a.cursor + 1
        }),
        ({
            let b = edit_key(a, KeyPress { key: Key::Backspace, ctrl }, w, h);
            &&& a.cursor > 0 ==> b.text == a.text.remove(a.cursor - 1) && b.cursor == a.cursor - 1
            &&& a.cursor == 0 ==> b == a
        }),
        ({
            let b = edit_key(a, KeyPress { key: Key::Delete, ctrl }, w, h);
            &&& a.cursor < a.text.len() ==> b.text == a.text.remove(a.cursor) && b.cursor == a.cursor
            &&& a.cursor == a.text.len() ==> b == a
        }),
        ({
            let b = edit_key(a, KeyPress { key: Key::Char(c), ctrl: true }, w, h);
            b == a
        }),
{
}

/// The keys that move the cursor bring its line into view: after Right,
/// Left, Home or End, the cursor's line is among the lines the box shows.
pub proof fn law_edit_keeps_cursor_in_view(a: InputView, ctrl: bool, w: int, h: int)
    requires
        0 <= a.cursor <= a.text.len(),
        a.scroll_top >= 0,
    ensures
        forall|key: Key|
            key == Key::Right || key == Key::Left || key == Key::Home || key == Key::End ==> {
                let b = #[trigger] edit_key(a, KeyPress { key, ctrl }, w, h);
                let line = wrap_spec(b.text, w, b.cursor).cursor_line;
                b.scroll_top <= line < b.scroll_top + box_height(h)
            },
{
    lemma_widths_nonneg(a.text);
    assert forall|key: Key|
        key == Key::Right || key == Key::Left || key == Key::Home || key == Key::End implies {
            let b = #[trigger] edit_key(a, KeyPress { key, ctrl }, w, h);
            let line = wrap_spec(b.text, w, b.cursor).cursor_line;
            b.scroll_top <= line < b.scroll_top + box_height(h)
        } by {
        let b = edit_key(a, KeyPress { key, ctrl }, w, h);
        let cur = b.cursor;
        law_wrap_covers_text(a.text, widths_of(a.text), w, cur);
        lemma_line_shown(crate::editor::InputView { cursor: cur, ..a }, w, h);
    }
}

/// PageUp scrolls the box one page up (it stops at the top) and leaves the
/// text and the cursor where they are.
pub proof fn law_edit_page_up(a: InputView, ctrl: bool, w: int, h: int)
    ensures
        ({
            let b = edit_key(a, KeyPress { key: Key::PageUp, ctrl }, w, h);
            let page = if h < 1 { 1 } else { h };
            b.text == a.text && b.cursor == a.cursor && b.scroll_top == (if a.scroll_top > page {
                a.scroll_top - page
            } else {
                0
            })
        }),
{
}

/// The mouse wheel with the input box open scrolls the box one line: up (it
/// stops at the top), or down (it stops where the last line fills the box);
/// text, cursor, selection and items stay as they are.
pub proof fn law_wheel_in_box(
    s: TuiView,
    s2: TuiView,
    old: Seq<TodoView>,
    new: Seq<TodoView>,
    m: MouseAction,
    area: Area,
    offset: int,
    w: int,
    h: int,
    r: Result<(), TodoError>,
)
    requires
        mouse_effect(s, s2, old, new, m, area, offset, w, h, r),
        s.input is Some,
        s.input->Some_0.scroll_top >= 0,
        m == MouseAction::ScrollUp || m == MouseAction::ScrollDown,
    ensures
        ({
            let a = s.input->Some_0;
            let lines = wrap_spec(a.text, w, a.cursor).lines.len() as int;
            &&& s2.input matches Some(b) && b.text == a.text && b.cursor == a.cursor && b.mode == a.mode
            &&& m == MouseAction::ScrollUp ==> s2.input->Some_0.scroll_top == (if a.scroll_top > 1 {
                a.scroll_top - 1
            } else {
                0
            })
            &&& m == MouseAction::ScrollDown ==> s2.input->Some_0.scroll_top == (if a.scroll_top + 1 < lines - h {
                a.scroll_top + 1
            } else if lines > h {
                lines - h
            } else {
                0
            })
        }),
        s2.selected == s.selected && s2.filter == s.filter && s2.confirm_delete == s.confirm_delete,
        new == old,
        r is Ok,
{
}

/// The mouse wheel over the list moves the selection one position: up (it
/// stays at the top) or down (held at the last item shown).
pub proof fn law_wheel_in_list(
    s: TuiView,
    s2: TuiView,
    old: Seq<TodoView>,
    new: Seq<TodoView>,
    m: MouseAction,
    area: Area,
    offset: int,
    w: int,
    h: int,
    r: Result<(), TodoError>,
)
    requires
        mouse_effect(s, s2, old, new, m, area, offset, w, h, r),
        s.input is None,
        m == MouseAction::ScrollUp || m == MouseAction::ScrollDown,
        0 <= s.selected < usize::MAX,
    ensures
        m == MouseAction::ScrollUp ==> s2.selected == (if s.selected > 0 { s.selected - 1 } else { 0 }),
        ({
            let n = visible_indices(old, s.filter).len() as int;
            m == MouseAction::ScrollDown ==> s2.selected == (if s.selected + 1 < n { s.selected + 1 } else if n
                > 0 {
                n - 1
            } else {
                0
            })
        }),
        s2.input is None && s2.filter == s.filter,
        new == old,
        r is Ok,
{
}

/// A click on an item of the list selects it; a click on its first eight
/// columns also flips its completion state, and no other item changes.
pub proof fn law_click_selects(
    s: TuiView,
    s2: TuiView,
    old: Seq<TodoView>,
    new: Seq<TodoView>,
    row: u16,
    column: u16,
    area: Area,
    offset: int,
    w: int,
    h: int,
    r: Result<(), TodoError>,
)
    requires
        mouse_effect(s, s2, old, new, MouseAction::LeftDown { row, column }, area, offset, w, h, r),
        s.input is None,
        item_at_spec(row, column, area, offset, old, s.filter) is Some,
    ensures
        ({
            let (i, on_box) = item_at_spec(row, column, area, offset, old, s.filter)->Some_0;
            &&& 0 <= s2.selected < visible_indices(old, s.filter).len() && visible_indices(old, s.filter)[s2.selected]
                == i
            &&& on_box && r is Ok ==> new.len() == old.len() && new[i].completed == !old[i].completed && forall|j: int|
                0 <= j < old.len() && j != i ==> new[j] == old[j]
            &&& !on_box ==> new == old
        }),
{
    let (i, on_box) = item_at_spec(row, column, area, offset, old, s.filter)->Some_0;
    if on_box {
        let op = choose|op: Result<(), TodoError>| toggle_effect(old, new, i, op) && op == r;
    }
}

/// `todo list` without `--all` and `--done` lists pending items only: the
/// scope is the pending one, every item shown is pending, the total counts
/// the pending items, and without a limit every pending item is shown.
/// With `--done` every item shown is completed and the total counts the
/// completed items; with `--all` the total counts every item.
pub proof fn law_list_command(
    all: bool,
    done: bool,
    limit: Option<usize>,
    old: Seq<TodoView>,
    new: Seq<TodoView>,
    r: Result<Outcome, TodoError>,
)
    requires
        command_effect(Some(Commands::List { all, done, limit }), old, new, r),
    ensures
        new == old,
        r matches Ok(Outcome::Listed { scope, quick, page }) && !quick && {
            let shown = view_of(page.shown@);
            &&& (!all && !done ==> {
                &&& scope == ListScope::Pending
                &&& forall|j: int| 0 <= j < shown.len() ==> !(#[trigger] shown[j]).completed
                &&& page.total == old.filter(|t: TodoView| !t.completed).len()
                &&& limit is None ==> forall|q: int| 0 <= q < old.len() && !(#[trigger] old[q]).completed ==> shown.contains(old[q])
            })
            &&& (!all && done ==> {
                &&& scope == ListScope::Done
                &&& forall|j: int| 0 <= j < shown.len() ==> (#[trigger] shown[j]).completed
                &&& page.total == old.filter(|t: TodoView| t.completed).len()
            })
            &&& (all ==> scope == ListScope::All && page.total == old.len())
        },
{
    broadcast use vstd::seq_lib::group_to_multiset_ensures, vstd::seq_lib::group_filter_ensures;

    let scope = if all { ListScope::All } else if done { ListScope::Done } else { ListScope::Pending };
    let f = old.filter(|t: TodoView| in_scope(scope, t));
    law_sort_desc(f);
    let sorted = sort_desc(f);
    if let Ok(Outcome::Listed { scope: sc, quick, page }) = r {
        let shown = view_of(page.shown@);
        assert(shown == limited(sorted, limit));
        assert(sorted.len() == f.len()) by {
            vstd::seq_lib::to_multiset_len(sorted);
            vstd::seq_lib::to_multiset_len(f);
        }
        assert forall|j: int| 0 <= j < shown.len() implies in_scope(scope, #[trigger] shown[j]) && f.contains(shown[j]) by {
            assert(shown[j] == sorted[j]);
            assert(sorted.to_multiset().count(sorted[j]) > 0);
            assert(f.to_multiset().count(sorted[j]) > 0);
        }
        if !all && !done {
            assert((|t: TodoView| in_scope(scope, t)) =~= (|t: TodoView| !t.completed));
            assert(old.filter(|t: TodoView| in_scope(scope, t)) == old.filter(|t: TodoView| !t.completed));
            if limit is None {
                assert forall|q: int| 0 <= q < old.len() && !(#[trigger] old[q]).completed implies shown.contains(old[q]) by {
                    old.lemma_filter_contains_rev(|t: TodoView| in_scope(scope, t), old[q]);
                    assert(f.to_multiset().count(old[q]) > 0);
                    assert(sorted.to_multiset().count(old[q]) > 0);
                }
            }
        }
        if !all && done {
            assert((|t: TodoView| in_scope(scope, t)) =~= (|t: TodoView| t.completed));
            assert(old.filter(|t: TodoView| in_scope(scope, t)) == old.filter(|t: TodoView| t.completed));
        }
        if all {
            assert(old.filter(|t: TodoView| in_scope(scope, t)) =~= old) by {
                reveal(Seq::filter);
                lemma_filter_all(old);
            }
        }
    }
}

proof fn lemma_filter_all(s: Seq<TodoView>)
    ensures
        s.filter(|t: TodoView| in_scope(ListScope::All, t)) == s,
    decreases s.len(),
{
    reveal(Seq::filter);
    if s.len() > 0 {
        lemma_filter_all(s.drop_last());
        assert(s.drop_last().push(s.last()) =~= s);
    }
}

} // verus!
