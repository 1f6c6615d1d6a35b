use vstd::prelude::*;
use crate::listing::{in_scope, limited, list_items, sort_desc, stats, ListPage, ListScope, Stats};
use crate::model::{DbStep, Todo, TodoError, TodoView, view_of};
use crate::storage::{
    add_effect, first_with_id, has_id, outcome, search_hit, status_set, changed_at, view_of_refs,
    TodoStore,
};
use crate::text::{law_trim_idempotent, lowercased, trim, trimmed};

verus! {

/// The command line: JSON output, the quick add (`-n`), the quick listing
/// of pending items (`-l`), and the subcommand.
pub struct Cli {
    pub json: bool,
    pub new_title: Option<String>,
    pub list: bool,
    pub command: Option<Commands>,
}

/// The subcommands.
pub enum Commands {
    /// Adds one item per title (the titles are read from standard input,
    /// one per line, where the only title is "-").
    Add { titles: Vec<String> },
    /// Marks the items completed.
    Done { ids: Vec<u64> },
    /// Marks the items pending again.
    Undo { ids: Vec<u64> },
    /// Deletes the items.
    Rm { ids: Vec<u64> },
    /// Gives an item a new title.
    Edit { id: u64, title: String },
    /// Lists items: all of them, the completed ones, or (by default) the
    /// pending ones, up to a limit.
    List { all: bool, done: bool, limit: Option<usize> },
    /// Lists the items that match a keyword.
    Search { keyword: String },
    /// Deletes the completed items.
    Clear { done: bool },
    /// Counts the items.
    Stats,
}

/// What a command did, for printing.
pub enum Outcome {
    Added(Vec<Todo>),
    Completed(Vec<Todo>),
    Reopened(Vec<Todo>),
    Removed(Vec<Todo>),
    Edited(Todo),
    /// A listing; `quick` for the `-l` listing, which keeps the store order.
    Listed { scope: ListScope, quick: bool, page: ListPage },
    Found(Vec<Todo>),
    Cleared(usize),
    Counted(Stats),
    /// No command: the full-screen interface is to run.
    Interactive,
}

/// The titles that hold more than white space, in order.
pub open spec fn nonblank(titles: Seq<Seq<char>>) -> Seq<Seq<char>> {
    titles.filter(|t: Seq<char>| trimmed(t).len() > 0)
}

/// The titles as character sequences.
pub open spec fn titles_view(titles: Seq<String>) -> Seq<Seq<char>> {
    titles.map_values(|t: String| t@)
}

/// The outcome of an operation that hands out items, by their views.
pub open spec fn vec_outcome(r: Result<Vec<Todo>, TodoError>) -> Result<Seq<TodoView>, TodoError> {
    match r {
        Ok(v) => Ok(view_of(v@)),
        Err(e) => Err(e),
    }
}

/// The items appended to `old` are new, pending items titled by the trimmed
/// titles, in order.
pub open spec fn appended(old: Seq<TodoView>, new: Seq<TodoView>, titles: Seq<Seq<char>>) -> bool {
    &&& new.len() == old.len() + titles.len()
    &&& new.take(old.len() as int) == old
    &&& forall|k: int| 0 <= k < titles.len() ==> {
        &&& (#[trigger] new[old.len() + k]).title == trimmed(titles[k])
        &&& !new[old.len() + k].completed
        &&& new[old.len() + k].completed_at is None
    }
}

/// What adding the items of `titles` does: each title is trimmed, blank ones
/// are skipped, and each other is added; the first refusal of the database
/// stops it, keeping what was added before; where nothing is to be added,
/// that is an error.
pub open spec fn adds_effect(old: Seq<TodoView>, new: Seq<TodoView>, titles: Seq<Seq<char>>, r: Result<Seq<TodoView>, TodoError>) -> bool {
    let nb = nonblank(titles);
    &&& (nb.len() == 0 <==> r matches Err(TodoError::NothingAdded))
    &&& (r matches Err(TodoError::NothingAdded) ==> new == old)
    &&& (r matches Ok(v) ==> appended(old, new, nb) && v == new.skip(old.len() as int))
    &&& (r matches Err(e) ==> (!(e is NothingAdded) ==> {
        &&& e.is_database(DbStep::Insert)
        &&& exists|k: int| 0 <= k < nb.len() && appended(old, new, nb.take(k))
    }))
}

/// Adds one item per title that holds more than white space.
pub fn add_titles(store: &mut TodoStore, titles: &Vec<String>) -> (r: Result<Vec<Todo>, TodoError>)
    ensures
        adds_effect(old(store)@, final(store)@, titles_view(titles@), vec_outcome(r)),
{
    let ghost old_items = old(store)@;
    let ghost tv = titles_view(titles@);
    let mut added: Vec<Todo> = Vec::new();
    let mut i: usize = 0;
    proof {
        reveal(Seq::filter);
        assert(tv.take(0) =~= Seq::<Seq<char>>::empty());
        assert(old_items.take(old_items.len() as int) =~= old_items);
        assert(old_items.skip(old_items.len() as int) =~= Seq::<TodoView>::empty());
        assert(view_of(added@) =~= Seq::<TodoView>::empty());
    }
    while i < titles.len()
        invariant
            i <= titles@.len(),
            tv == titles_view(titles@),
            old_items == old(store)@,
            appended(old_items, store@, nonblank(tv.take(i as int))),
            view_of(added@) == store@.skip(old_items.len() as int),
        decreases titles@.len() - i,
    {
        proof { reveal(Seq::filter); }
        let ghost nb0 = nonblank(tv.take(i as int));
        assert(tv.take(i + 1).drop_last() =~= tv.take(i as int));
        assert(tv.take(i + 1).last() == titles@[i as int]@);
        let ghost before = store@;
        let t = trim(titles[i].as_str());
        proof { law_trim_idempotent(titles@[i as int]@); }
        if t.unicode_len() > 0 {
            let res = store.add(t.to_string());
            match res {
                Ok(item) => {
                    let c = item.copy();
                    added.push(c);
                    proof {
                        let nb1 = nb0.push(titles@[i as int]@);
                        assert(nonblank(tv.take(i + 1)) == nb1);
                        assert forall|k: int| 0 <= k < nb1.len() implies {
                            &&& (#[trigger] store@[old_items.len() + k]).title == trimmed(nb1[k])
                            &&& !store@[old_items.len() + k].completed
                            &&& store@[old_items.len() + k].completed_at is None
                        } by {
                            if k < nb0.len() {
                                assert(store@[old_items.len() + k] == before[old_items.len() + k]);
                            }
                        }
                        assert(store@.take(old_items.len() as int) =~= before.take(old_items.len() as int));
                        assert(view_of(added@) =~= view_of(added@.drop_last()).push(c@));
                        assert(store@.skip(old_items.len() as int) =~= before.skip(old_items.len() as int).push(c@));
                    }
                },
                Err(e) => {
                    proof {
                        lemma_nonblank_prefix(tv, i as int);
                        assert(appended(old_items, store@, nonblank(tv).take(nb0.len() as int)));
                    }
                    return Err(e);
                },
            }
        }
        i = i + 1;
    }
    assert(tv.take(i as int) =~= tv);
    if added.len() == 0 {
        assert(store@ =~= store@.take(old_items.len() as int));
        return Err(TodoError::NothingAdded);
    }
    Ok(added)
}

/// The blank-free titles of a prefix are a prefix of those of all titles.
proof fn lemma_nonblank_prefix(tv: Seq<Seq<char>>, i: int)
    requires
        0 <= i < tv.len(),
        trimmed(tv[i]).len() > 0,
    ensures
        nonblank(tv.take(i)).len() < nonblank(tv).len(),
        nonblank(tv).take(nonblank(tv.take(i)).len() as int) == nonblank(tv.take(i)),
{
    let p = |t: Seq<char>| trimmed(t).len() > 0;
    assert(tv =~= tv.take(i) + tv.skip(i));
    Seq::filter_distributes_over_add(tv.take(i), tv.skip(i), p);
    reveal(Seq::filter);
    assert(tv.skip(i) =~= seq![tv[i]] + tv.skip(i + 1));
    Seq::filter_distributes_over_add(seq![tv[i]], tv.skip(i + 1), p);
    assert(seq![tv[i]].drop_last() =~= Seq::<Seq<char>>::empty());
    assert(seq![tv[i]].filter(p) =~= seq![tv[i]]);
    assert(nonblank(tv) == nonblank(tv.take(i)) + (seq![tv[i]] + tv.skip(i + 1).filter(p)));
    assert(nonblank(tv).take(nonblank(tv.take(i)).len() as int) =~= nonblank(tv.take(i)));
}

/// Some id of `ids` names the item at `j` (it is the first with that id).
pub open spec fn touched(s: Seq<TodoView>, ids: Seq<u64>, j: int) -> bool {
    exists|k: int| 0 <= k < ids.len() && #[trigger] first_with_id(s, ids[k], j)
}

/// `t` is the item with `id` as it stands in `new`: the first item with that
/// id in `old`, at the same place in `new`.
pub open spec fn handed_out(old: Seq<TodoView>, new: Seq<TodoView>, id: u64, t: TodoView) -> bool {
    exists|j: int| first_with_id(old, id, j) && t == #[trigger] new[j]
}

/// What setting the completion state of the items with `ids`, one after the
/// other, does: only items that the ids name change, each into the state
/// asked for; on success every named item is in that state and the items
/// handed out are those of the ids, in order; the first id that names no item
/// or that the database refuses stops it.
pub open spec fn marks_effect(old: Seq<TodoView>, new: Seq<TodoView>, ids: Seq<u64>, completed: bool, r: Result<Seq<TodoView>, TodoError>) -> bool {
    &&& new.len() == old.len()
    &&& forall|j: int| 0 <= j < old.len() ==> (#[trigger] new[j] == old[j] || (touched(old, ids, j) && old[j].completed
        != completed && status_set(old[j], new[j], completed)))
    &&& (r matches Ok(v) ==> {
        &&& v.len() == ids.len()
        &&& forall|k: int| 0 <= k < ids.len() ==> (#[trigger] v[k]).id == ids[k] && v[k].completed == completed
        &&& forall|k: int| 0 <= k < ids.len() ==> handed_out(old, new, ids[k], #[trigger] v[k])
        &&& forall|j: int| 0 <= j < old.len() && touched(old, ids, j) ==> (#[trigger] new[j]).completed == completed
    })
    &&& (r matches Err(e) ==> exists|k: int| 0 <= k < ids.len() && {
        ||| (e matches TodoError::NoSuchId(x) && x == ids[k] && !has_id(old, x))
        ||| e.is_database(DbStep::UpdateStatus(Some(ids[k])))
    })
}

proof fn lemma_first_unique(s: Seq<TodoView>, id: u64, i: int, j: int)
    requires
        first_with_id(s, id, i),
        first_with_id(s, id, j),
    ensures
        i == j,
{
    if i < j {
        assert(s[i].id == id);
    }
    if j < i {
        assert(s[j].id == id);
    }
}

/// Items with the same ids in the same places have their first items with an
/// id in the same places.
proof fn lemma_same_ids_first(a: Seq<TodoView>, b: Seq<TodoView>, id: u64, j: int)
    requires
        a.len() == b.len(),
        forall|i: int| #![trigger a[i]] #![trigger b[i]] 0 <= i < a.len() ==> a[i].id == b[i].id,
    ensures
        first_with_id(a, id, j) <==> first_with_id(b, id, j),
        has_id(a, id) <==> has_id(b, id),
{
    if has_id(a, id) {
        let i = choose|i: int| 0 <= i < a.len() && a[i].id == id;
        assert(b[i].id == id);
    }
    if has_id(b, id) {
        let i = choose|i: int| 0 <= i < b.len() && b[i].id == id;
        assert(a[i].id == id);
    }
}

/// Sets the completion state of the items with `ids`, one after the other.
pub fn mark_all(store: &mut TodoStore, ids: &Vec<u64>, completed: bool) -> (r: Result<Vec<Todo>, TodoError>)
    ensures
        marks_effect(old(store)@, final(store)@, ids@, completed, vec_outcome(r)),
{
    let ghost old_items = old(store)@;
    let mut done: Vec<Todo> = Vec::new();
    let mut i: usize = 0;
    while i < ids.len()
        invariant
            i <= ids@.len(),
            old_items == old(store)@,
            store@.len() == old_items.len(),
            forall|j: int| 0 <= j < old_items.len() ==> (#[trigger] store@[j]).id == old_items[j].id,
            forall|j: int| 0 <= j < old_items.len() ==> (#[trigger] store@[j] == old_items[j] || (touched(
                old_items,
                ids@.take(i as int),
                j,
            ) && old_items[j].completed != completed && status_set(old_items[j], store@[j], completed))),
            forall|j: int|
                0 <= j < old_items.len() && touched(old_items, ids@.take(i as int), j) ==> (#[trigger] store@[j]).completed
                    == completed,
            done@.len() == i,
            forall|k: int| 0 <= k < i ==> (#[trigger] done@[k]).id == ids@[k] && done@[k].completed == completed,
            forall|k: int| 0 <= k < i ==> handed_out(old_items, store@, ids@[k], (#[trigger] done@[k])@),
        decreases ids@.len() - i,
    {
        let id = ids[i];
        let ghost cur = store@;
        let ghost pre = ids@.take(i as int);
        let ghost post = ids@.take(i + 1);
        assert(post.drop_last() =~= pre);
        assert forall|j: int| #![trigger first_with_id(old_items, id, j)] true implies (first_with_id(cur, id, j) <==> first_with_id(old_items, id, j)) by {
            lemma_same_ids_first(cur, old_items, id, j);
        }
        assert forall|j: int| touched(old_items, pre, j) implies touched(old_items, post, j) by {
            let k = choose|k: int| 0 <= k < pre.len() && #[trigger] first_with_id(old_items, pre[k], j);
            assert(post[k] == pre[k]);
        }
        match store.set_completed_by_id(id, completed) {
            Ok(t) => {
                let c = t.copy();
                proof {
                    let p = choose|p: int| {
                        &&& first_with_id(cur, id, p)
                        &&& t@ == store@[p]
                        &&& if cur[p].completed == completed {
                            store@ == cur
                        } else {
                            changed_at(cur, store@, p) && status_set(cur[p], t@, completed)
                        }
                    };
                    lemma_same_ids_first(cur, old_items, id, p);
                    assert(first_with_id(old_items, post[i as int], p));
                    assert forall|j: int| 0 <= j < old_items.len() && touched(old_items, post, j) implies (#[trigger] store@[j]).completed
                        == completed by {
                        let k = choose|k: int| 0 <= k < post.len() && #[trigger] first_with_id(old_items, post[k], j);
                        if k < i {
                            assert(pre[k] == post[k]);
                            assert(touched(old_items, pre, j));
                        } else {
                            lemma_first_unique(old_items, id, j, p);
                        }
                    }
                    assert forall|k: int| 0 <= k < i implies handed_out(old_items, store@, ids@[k], (#[trigger] done@[k])@) by {
                        let j = choose|j: int| first_with_id(old_items, ids@[k], j) && done@[k]@ == #[trigger] cur[j];
                        if j == p {
                            assert(pre[k] == ids@[k]);
                            assert(touched(old_items, pre, j));
                            assert(cur[p].completed == completed);
                        }
                        assert(store@[j] == cur[j]);
                    }
                    assert(handed_out(old_items, store@, ids@[i as int], c@));
                }
                done.push(c);
            },
            Err(e) => {
                proof {
                    lemma_same_ids_first(cur, old_items, id, 0);
                    assert(ids@[i as int] == id);
                    assert forall|j: int| touched(old_items, pre, j) implies touched(old_items, ids@, j) by {
                        let k = choose|k: int| 0 <= k < pre.len() && #[trigger] first_with_id(old_items, pre[k], j);
                        assert(ids@[k] == pre[k]);
                    }
                }
                return Err(e);
            },
        }
        i = i + 1;
    }
    assert(ids@.take(i as int) =~= ids@);
    proof {
        assert(view_of(done@).len() == done@.len());
        assert forall|k: int| 0 <= k < ids@.len() implies handed_out(old_items, store@, ids@[k], #[trigger] view_of(done@)[k]) by {
            assert(view_of(done@)[k] == done@[k]@);
        }
        assert forall|k: int| 0 <= k < ids@.len() implies (#[trigger] view_of(done@)[k]).id == ids@[k] && view_of(done@)[k].completed == completed by {
            assert(view_of(done@)[k] == done@[k]@);
        }
    }
    Ok(done)
}

/// `s` without its first item with `id` (unchanged where there is none).
pub open spec fn without_id(s: Seq<TodoView>, id: u64) -> Seq<TodoView> {
    if has_id(s, id) {
        s.remove(choose|i: int| first_with_id(s, id, i))
    } else {
        s
    }
}

/// `s` without the first item of each id of `ids`, taken one after the other.
pub open spec fn without_ids(s: Seq<TodoView>, ids: Seq<u64>) -> Seq<TodoView>
    decreases ids.len(),
{
    if ids.len() == 0 {
        s
    } else {
        without_id(without_ids(s, ids.drop_last()), ids.last())
    }
}

/// The item that deleting `ids[k]` takes away, after the ids before it have
/// been deleted: the first item with that id left.
pub open spec fn removed_at(old: Seq<TodoView>, ids: Seq<u64>, k: int, t: TodoView) -> bool {
    exists|j: int|
        first_with_id(without_ids(old, ids.take(k)), ids[k], j) && t == #[trigger] without_ids(old, ids.take(k))[j]
}

/// What deleting the items with `ids`, one after the other, does: on success
/// the items are gone and are handed out in order, each as it was when it
/// was deleted; the first id that names no item left or that the database
/// refuses stops it, keeping the deletions before.
pub open spec fn removes_effect(old: Seq<TodoView>, new: Seq<TodoView>, ids: Seq<u64>, r: Result<Seq<TodoView>, TodoError>) -> bool {
    &&& (r matches Ok(v) ==> {
        &&& new == without_ids(old, ids)
        &&& v.len() == ids.len()
        &&& forall|k: int| 0 <= k < ids.len() ==> (#[trigger] v[k]).id == ids[k]
        &&& forall|k: int| 0 <= k < ids.len() ==> removed_at(old, ids, k, #[trigger] v[k])
    })
    &&& (r matches Err(e) ==> exists|k: int| 0 <= k < ids.len() && new == without_ids(old, ids.take(k)) && {
        ||| (e matches TodoError::NoSuchId(x) && x == ids[k] && !has_id(new, x))
        ||| e.is_database(DbStep::Delete(Some(ids[k])))
    })
}

/// Deletes the items with `ids`, one after the other.
pub fn remove_all(store: &mut TodoStore, ids: &Vec<u64>) -> (r: Result<Vec<Todo>, TodoError>)
    ensures
        removes_effect(old(store)@, final(store)@, ids@, vec_outcome(r)),
{
    let ghost old_items = old(store)@;
    let mut removed: Vec<Todo> = Vec::new();
    let mut i: usize = 0;
    assert(ids@.take(0) =~= Seq::<u64>::empty());
    while i < ids.len()
        invariant
            i <= ids@.len(),
            old_items == old(store)@,
            store@ == without_ids(old_items, ids@.take(i as int)),
            removed@.len() == i,
            forall|k: int| 0 <= k < i ==> (#[trigger] removed@[k]).id == ids@[k],
            forall|k: int| 0 <= k < i ==> removed_at(old_items, ids@, k, (#[trigger] removed@[k])@),
        decreases ids@.len() - i,
    {
        let id = ids[i];
        let ghost cur = store@;
        assert(ids@.take(i + 1).drop_last() =~= ids@.take(i as int));
        match store.remove_by_id(id) {
            Ok(t) => {
                proof {
                    let p = choose|p: int| first_with_id(cur, id, p) && t@ == cur[p] && store@ == cur.remove(p);
                    let q = choose|q: int| first_with_id(cur, id, q);
                    lemma_first_unique(cur, id, p, q);
                    assert(has_id(cur, id));
                    assert(cur == without_ids(old_items, ids@.take(i as int)));
                    assert(removed_at(old_items, ids@, i as int, t@));
                }
                removed.push(t);
            },
            Err(e) => {
                return Err(e);
            },
        }
        i = i + 1;
    }
    assert(ids@.take(i as int) =~= ids@);
    proof {
        assert forall|k: int| 0 <= k < ids@.len() implies (#[trigger] view_of(removed@)[k]).id == ids@[k] by {
            assert(view_of(removed@)[k] == removed@[k]@);
        }
        assert forall|k: int| 0 <= k < ids@.len() implies removed_at(old_items, ids@, k, #[trigger] view_of(removed@)[k]) by {
            assert(view_of(removed@)[k] == removed@[k]@);
        }
    }
    Ok(removed)
}

/// Copies of the borrowed items, in order.
pub fn copy_refs(items: &Vec<&Todo>) -> (r: Vec<Todo>)
    ensures
        view_of(r@) == view_of_refs(items@),
{
    let mut r: Vec<Todo> = Vec::new();
    let mut i: usize = 0;
    while i < items.len()
        invariant
            i <= items@.len(),
            view_of(r@) == view_of_refs(items@.take(i as int)),
        decreases items@.len() - i,
    {
        let c = items[i].copy();
        r.push(c);
        assert(view_of_refs(items@.take(i + 1)) =~= view_of_refs(items@.take(i as int)).push(items@[i as int]@));
        assert(view_of(r@) =~= view_of(r@.drop_last()).push(c@));
        i = i + 1;
    }
    assert(items@.take(i as int) =~= items@);
    r
}

/// The pending items, in store order.
pub fn pending_items(items: &[Todo]) -> (r: Vec<Todo>)
    ensures
        view_of(r@) == view_of(items@).filter(|t: TodoView| !t.completed),
{
    let ghost s = view_of(items@);
    let mut r: Vec<Todo> = Vec::new();
    let mut i: usize = 0;
    while i < items.len()
        invariant
            i <= items@.len(),
            s == view_of(items@),
            view_of(r@) == s.take(i as int).filter(|t: TodoView| !t.completed),
        decreases items@.len() - i,
    {
        proof { reveal(Seq::filter); }
        assert(s.take(i + 1).drop_last() =~= s.take(i as int));
        assert(s.take(i + 1).last() == items@[i as int]@);
        if !items[i].completed {
            let c = items[i].copy();
            r.push(c);
            assert(view_of(r@) =~= view_of(r@.drop_last()).push(c@));
        }
        i = i + 1;
    }
    assert(s.take(i as int) =~= s);
    r
}

/// The items that an outcome hands out, for the outcomes that hand out a
/// list of items.
pub open spec fn items_outcome(r: Result<Outcome, TodoError>) -> Result<Seq<TodoView>, TodoError> {
    match r {
        Ok(Outcome::Added(v)) => Ok(view_of(v@)),
        Ok(Outcome::Completed(v)) => Ok(view_of(v@)),
        Ok(Outcome::Reopened(v)) => Ok(view_of(v@)),
        Ok(Outcome::Removed(v)) => Ok(view_of(v@)),
        Ok(Outcome::Found(v)) => Ok(view_of(v@)),
        Ok(Outcome::Edited(t)) => Ok(seq![t@]),
        Ok(_) => Ok(seq![]),
        Err(e) => Err(e),
    }
}

/// The scope that the options of `list` ask for.
pub open spec fn list_scope(all: bool, done: bool) -> ListScope {
    if all {
        ListScope::All
    } else if done {
        ListScope::Done
    } else {
        ListScope::Pending
    }
}

/// The page of a listing holds these items under this limit.
pub open spec fn page_of(page: ListPage, items: Seq<TodoView>, limit: Option<usize>) -> bool {
    &&& page.total == items.len()
    &&& page.limit == limit
    &&& view_of(page.shown@) == limited(items, limit)
}

/// What a subcommand does to the items and what it hands back.
pub open spec fn command_effect(cmd: Option<Commands>, old: Seq<TodoView>, new: Seq<TodoView>, r: Result<Outcome, TodoError>) -> bool {
    match cmd {
        None => new == old && r matches Ok(Outcome::Interactive),
        Some(Commands::Add { titles }) => {
            &&& adds_effect(old, new, titles_view(titles@), items_outcome(r))
            &&& (r is Ok ==> r matches Ok(Outcome::Added(_)))
        },
        Some(Commands::Done { ids }) => {
            &&& marks_effect(old, new, ids@, true, items_outcome(r))
            &&& (r is Ok ==> r matches Ok(Outcome::Completed(_)))
        },
        Some(Commands::Undo { ids }) => {
            &&& marks_effect(old, new, ids@, false, items_outcome(r))
            &&& (r is Ok ==> r matches Ok(Outcome::Reopened(_)))
        },
        Some(Commands::Rm { ids }) => {
            &&& removes_effect(old, new, ids@, items_outcome(r))
            &&& (r is Ok ==> r matches Ok(Outcome::Removed(_)))
        },
        Some(Commands::Edit { id, title }) => {
            &&& crate::storage::edit_effect(
                old,
                new,
                id,
                title@,
                match r {
                    Ok(Outcome::Edited(t)) => Ok(t@),
                    Ok(_) => Err(TodoError::NothingAdded),
                    Err(e) => Err(e),
                },
            )
            &&& (r is Ok ==> r matches Ok(Outcome::Edited(_)))
        },
        Some(Commands::List { all, done, limit }) => {
            &&& new == old
            &&& r matches Ok(Outcome::Listed { scope, quick, page }) && scope == list_scope(all, done) && !quick
                && page_of(page, sort_desc(old.filter(|t: TodoView| in_scope(list_scope(all, done), t))), limit)
        },
        Some(Commands::Search { keyword }) => {
            &&& new == old
            &&& r matches Ok(Outcome::Found(v)) && view_of(v@) == old.filter(
                |t: TodoView| search_hit(t, lowercased(trimmed(keyword@))),
            )
        },
        Some(Commands::Clear { done }) => {
            &&& crate::storage::clear_effect(
                old,
                new,
                match r {
                    Ok(Outcome::Cleared(n)) => Ok(n),
                    Ok(_) => Ok(0),
                    Err(e) => Err(e),
                },
            )
            &&& (r is Ok ==> r matches Ok(Outcome::Cleared(_)))
        },
        Some(Commands::Stats) => {
            &&& new == old
            &&& r matches Ok(Outcome::Counted(st)) && st.pending == old.filter(|t: TodoView| !t.completed).len()
                && st.completed == old.filter(|t: TodoView| t.completed).len() && st.total == old.len()
        },
    }
}

/// Carries out the command line on the store: the quick add, else the quick
/// listing (the first ten pending items in store order), else the subcommand.
pub fn run(store: &mut TodoStore, cli: Cli) -> (r: Result<Outcome, TodoError>)
    ensures
        cli.new_title matches Some(t) ==> {
            &&& add_effect(old(store)@, final(store)@, t@, outcome(r))
            &&& (r matches Ok(o) ==> o matches Outcome::Added(v) && view_of(v@) == seq![final(store)@.last()])
        },
        cli.new_title is None && cli.list ==> {
            &&& final(store)@ == old(store)@
            &&& r matches Ok(Outcome::Listed { scope, quick, page }) && scope == ListScope::Pending && quick && page_of(
                page,
                old(store)@.filter(|t: TodoView| !t.completed),
                Some(10),
            )
        },
        cli.new_title is None && !cli.list ==> command_effect(cli.command, old(store)@, final(store)@, r),
        cli.new_title is None && (cli.list || cli.command is None || cli.command matches Some(Commands::List { .. })
            || cli.command matches Some(Commands::Search { .. }) || cli.command matches Some(Commands::Stats))
            ==> final(store).events() == old(store).events(),
{
    if let Some(title) = cli.new_title {
        let ghost before = store@;
        let res = store.add(title);
        match res {
            Ok(t) => {
                let c = t.copy();
                let mut v: Vec<Todo> = Vec::new();
                v.push(c);
                assert(view_of(v@) =~= seq![store@.last()]);
                return Ok(Outcome::Added(v));
            },
            Err(e) => { return Err(e); },
        }
    }
    if cli.list {
        let items = pending_items(store.items());
        let page = ListPage::new(items, Some(10));
        return Ok(Outcome::Listed { scope: ListScope::Pending, quick: true, page });
    }
    match cli.command {
        None => Ok(Outcome::Interactive),
        Some(Commands::Add { titles }) => {
            let added = add_titles(store, &titles)?;
            Ok(Outcome::Added(added))
        },
        Some(Commands::Done { ids }) => {
            let v = mark_all(store, &ids, true)?;
            Ok(Outcome::Completed(v))
        },
        Some(Commands::Undo { ids }) => {
            let v = mark_all(store, &ids, false)?;
            Ok(Outcome::Reopened(v))
        },
        Some(Commands::Rm { ids }) => {
            let v = remove_all(store, &ids)?;
            Ok(Outcome::Removed(v))
        },
        Some(Commands::Edit { id, title }) => {
            let t = store.update_title_by_id(id, title)?;
            Ok(Outcome::Edited(t.copy()))
        },
        Some(Commands::List { all, done, limit }) => {
            let scope = if all {
                ListScope::All
            } else if done {
                ListScope::Done
            } else {
                ListScope::Pending
            };
            let items = list_items(store.items(), scope);
            let page = ListPage::new(items, limit);
            Ok(Outcome::Listed { scope, quick: false, page })
        },
        Some(Commands::Search { keyword }) => {
            let found = store.search(keyword.as_str());
            Ok(Outcome::Found(copy_refs(&found)))
        },
        Some(Commands::Clear { done: _ }) => {
            let n = store.clear_completed()?;
            Ok(Outcome::Cleared(n))
        },
        Some(Commands::Stats) => Ok(Outcome::Counted(stats(store.items()))),
    }
}

} // verus!
