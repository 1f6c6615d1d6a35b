use vstd::prelude::*;
use crate::editor::{box_height, scroll_to_show, InputState, InputView};
use crate::model::TodoView;
use crate::storage::{
    changed_at, clear_effect, first_with_id, has_id, mark_effect, search_hit, status_set, toggle_effect,
    unlink_effect,
};
use crate::text::{law_trim_idempotent, lowercased, trimmed};
use crate::tui::{edit_key, input_key, is_save, lemma_visible_indices, visible_indices, Filter, Flow, Key, KeyPress, TuiView};

verus! {

/// Setting the completion state that an item already has changes nothing: a
/// second `set_completed_by_id` with the same id and state leaves the items
/// as the first left them.
pub proof fn law_mark_twice(a: Seq<TodoView>, b: Seq<TodoView>, c: Seq<TodoView>, id: u64, completed: bool, t1: TodoView, t2: TodoView)
    requires
        mark_effect(a, b, id, completed, Ok(t1)),
        mark_effect(b, c, id, completed, Ok(t2)),
    ensures
        c == b,
        t2 == t1,
{
    let i = choose|i: int| {
        &&& first_with_id(a, id, i)
        &&& t1 == b[i]
        &&& if a[i].completed == completed {
            b == a
        } else {
            changed_at(a, b, i) && status_set(a[i], t1, completed)
        }
    };
    let j = choose|j: int| {
        &&& first_with_id(b, id, j)
        &&& t2 == c[j]
        &&& if b[j].completed == completed {
            c == b
        } else {
            changed_at(b, c, j) && status_set(b[j], t2, completed)
        }
    };
    assert forall|q: int| 0 <= q < j implies b[q].id != id by {}
    if j < i {
        assert(b[j].id == a[j].id);
    }
    if i < j {
        assert(b[i].id == id);
    }
    assert(i == j);
}

/// Toggling the same item twice gives it back its completion state and
/// leaves its id, title and creation time and every other item as they were.
pub proof fn law_toggle_twice(a: Seq<TodoView>, b: Seq<TodoView>, c: Seq<TodoView>, index: int)
    requires
        toggle_effect(a, b, index, Ok(())),
        toggle_effect(b, c, index, Ok(())),
    ensures
        c.len() == a.len(),
        forall|j: int| 0 <= j < a.len() && j != index ==> c[j] == a[j],
        c[index].completed == a[index].completed,
        c[index].id == a[index].id,
        c[index].title == a[index].title,
        c[index].created_at == a[index].created_at,
        !a[index].completed ==> c[index].completed_at is None,
{
}

/// After completed items are cleared, no completed item is left and every
/// pending item is, in its order.
pub proof fn law_clear_leaves_pending(a: Seq<TodoView>, b: Seq<TodoView>, n: usize)
    requires
        clear_effect(a, b, Ok(n)),
    ensures
        forall|j: int| 0 <= j < b.len() ==> !(#[trigger] b[j]).completed,
        forall|j: int| 0 <= j < a.len() && !(#[trigger] a[j]).completed ==> b.contains(a[j]),
{
    broadcast use vstd::seq_lib::group_filter_ensures;
    assert forall|j: int| 0 <= j < b.len() implies !(#[trigger] b[j]).completed by {
        let p = |t: TodoView| !t.completed;
        a.lemma_filter_pred(p, j);
    }
}

/// Where the ids are distinct, deleting an item by its id leaves no item
/// with that id, and one item fewer.
pub proof fn law_unlink_removes(a: Seq<TodoView>, b: Seq<TodoView>, id: u64, t: TodoView)
    requires
        unlink_effect(a, b, id, Ok(t)),
        forall|i: int, j: int| 0 <= i < j < a.len() ==> a[i].id != a[j].id,
    ensures
        !has_id(b, id),
        b.len() == a.len() - 1,
        t.id == id,
{
    let i = choose|i: int| first_with_id(a, id, i) && t == a[i] && b == a.remove(i);
    if has_id(b, id) {
        let k = choose|k: int| 0 <= k < b.len() && b[k].id == id;
        if k < i {
            assert(b[k] == a[k]);
        } else {
            assert(b[k] == a[k + 1]);
        }
    }
}

/// A keyword that is empty once trimmed and lowercased finds every item.
pub proof fn law_search_empty_keyword(s: Seq<TodoView>, keyword: Seq<char>)
    requires
        lowercased(trimmed(keyword)).len() == 0,
    ensures
        s.filter(|t: TodoView| search_hit(t, lowercased(trimmed(keyword)))) == s,
    decreases s.len(),
{
    reveal(Seq::filter);
    if s.len() > 0 {
        law_search_empty_keyword(s.drop_last(), keyword);
        assert(s.drop_last().push(s.last()) =~= s);
    }
}

/// The pending and the completed items together are all items: the two
/// counts of the interface's header add up to the total.
pub proof fn law_filters_partition(s: Seq<TodoView>)
    ensures
        visible_indices(s, Filter::Pending).len() + visible_indices(s, Filter::Completed).len() == s.len(),
    decreases s.len(),
{
    if s.len() > 0 {
        law_filters_partition(s.drop_last());
    }
}

/// The list position of the item at a list position is that position, and
/// the item at the list position of a shown item is that item.
pub proof fn law_visible_roundtrip(s: Seq<TodoView>, filter: Filter, p: int)
    requires
        0 <= p < visible_indices(s, filter).len(),
    ensures
        forall|q: int|
            0 <= q < visible_indices(s, filter).len() && visible_indices(s, filter)[q] == visible_indices(s, filter)[p]
                ==> q == p,
{
    lemma_visible_indices(s, filter);
    assert forall|q: int|
        0 <= q < visible_indices(s, filter).len() && visible_indices(s, filter)[q] == visible_indices(s, filter)[p]
        implies q == p by {
        if q < p {
            assert(visible_indices(s, filter)[q] < visible_indices(s, filter)[p]);
        }
        if p < q {
            assert(visible_indices(s, filter)[p] < visible_indices(s, filter)[q]);
        }
    }
}

/// After the cursor is brought into view, its line is among the lines
/// shown.
pub proof fn law_cursor_shown(top: int, line: int, height: int)
    requires
        0 <= top,
        0 <= line,
    ensures
        scroll_to_show(top, line, box_height(height)) <= line < scroll_to_show(top, line, box_height(height))
            + box_height(height),
{
}

/// Typing a character and then deleting the character before the cursor
/// gives back the text and the cursor.
pub proof fn law_type_then_backspace(a: InputView, c: char, w: int, h: int)
    requires
        0 <= a.cursor <= a.text.len(),
    ensures
        edit_key(edit_key(a, KeyPress { key: Key::Char(c), ctrl: false }, w, h), KeyPress { key: Key::Backspace, ctrl: false }, w, h).text
            == a.text,
        edit_key(edit_key(a, KeyPress { key: Key::Char(c), ctrl: false }, w, h), KeyPress { key: Key::Backspace, ctrl: false }, w, h).cursor
            == a.cursor,
{
    let b = edit_key(a, KeyPress { key: Key::Char(c), ctrl: false }, w, h);
    assert(b.text == a.text.insert(a.cursor, c));
    assert(b.text.remove(a.cursor) =~= a.text);
}

/// Switching the list twice shows the list it started from.
pub proof fn law_tab_twice(f: Filter)
    ensures
        (if (if f == Filter::Pending { Filter::Completed } else { Filter::Pending }) == Filter::Pending {
            Filter::Completed
        } else {
            Filter::Pending
        }) == f,
{
}

/// Marking a pending item that has no completion time as done and then as
/// not done gives back the items as they were.
pub proof fn law_done_then_undo(a: Seq<TodoView>, b: Seq<TodoView>, c: Seq<TodoView>, id: u64, t1: TodoView, t2: TodoView, i: int)
    requires
        first_with_id(a, id, i),
        !a[i].completed,
        a[i].completed_at is None,
        mark_effect(a, b, id, true, Ok(t1)),
        mark_effect(b, c, id, false, Ok(t2)),
    ensures
        c == a,
{
    let p = choose|p: int| {
        &&& first_with_id(a, id, p)
        &&& t1 == b[p]
        &&& if a[p].completed == true {
            b == a
        } else {
            changed_at(a, b, p) && status_set(a[p], t1, true)
        }
    };
    assert(p == i) by {
        if p < i {
            assert(a[p].id != id);
        }
        if i < p {
            assert(a[i].id != id);
        }
    }
    let q = choose|q: int| {
        &&& first_with_id(b, id, q)
        &&& t2 == c[q]
        &&& if b[q].completed == false {
            c == b
        } else {
            changed_at(b, c, q) && status_set(b[q], t2, false)
        }
    };
    assert(q == i) by {
        if q < i {
            assert(b[q] == a[q]);
        }
        if i < q {
            assert(b[i].id == id);
        }
    }
    assert(c[i] == a[i]);
    assert(c =~= a);
}

/// Saving the input box stores its text trimmed: a new item gets it as its
/// title, and the edited item does too.
pub proof fn law_save_stores_trimmed(s: TuiView, a: InputView, s2: TuiView, old: Seq<TodoView>, new: Seq<TodoView>, k: KeyPress, w: int, h: int)
    requires
        input_key(s, a, s2, old, new, k, w, h, Ok(Flow::Continue)),
        is_save(k),
        trimmed(a.text).len() > 0,
    ensures
        s2.input is None,
        a.mode is Creating ==> new.len() == old.len() + 1 && new.drop_last() == old && new.last().title == trimmed(a.text)
            && !new.last().completed,
        a.mode matches InputState::Editing(i) ==> new.len() == old.len() && new[i as int].title == trimmed(a.text),
{
    law_trim_idempotent(a.text);
}

} // verus!
