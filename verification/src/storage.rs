use vstd::prelude::*;
use crate::clock::{now_stamp, parse_rfc3339, rfc3339_instant};
use crate::db::{Db, Event, RawRow, SqlValue, SqlValueView, values_view};
use crate::model::{DbStep, Stamp, StampView, Todo, TodoError, TodoView, view_of, opt_stamp_view};
use crate::text::{chars_of, contains_chars, contains_seq, decimal, decimal_chars, lowercased, seq_eq, to_lowercase, trim, trimmed};

verus! {

/// The statements that create the table and its index where they are missing.
pub const SCHEMA: &'static str = "PRAGMA foreign_keys = ON;
             CREATE TABLE IF NOT EXISTS todos (
                 id INTEGER PRIMARY KEY AUTOINCREMENT,
                 title TEXT NOT NULL,
                 completed INTEGER NOT NULL DEFAULT 0,
                 created_at TEXT NOT NULL,
                 completed_at TEXT
             );
             CREATE INDEX IF NOT EXISTS idx_todos_completed_created
                 ON todos (completed, created_at);";

/// The statement that adds an item: its title and its creation time.
pub const INSERT_SQL: &'static str = "INSERT INTO todos (title, completed, created_at) VALUES (?1, 0, ?2)";

/// The statement that sets the completion state and time of the item with an
/// id.
pub const SET_STATUS_SQL: &'static str = "UPDATE todos SET completed = ?1, completed_at = ?2 WHERE id = ?3";

/// The statement that sets the title of the item with an id.
pub const SET_TITLE_SQL: &'static str = "UPDATE todos SET title = ?1 WHERE id = ?2";

/// The statement that deletes the item with an id.
pub const DELETE_SQL: &'static str = "DELETE FROM todos WHERE id = ?1";

/// The statement that deletes every completed item.
pub const CLEAR_SQL: &'static str = "DELETE FROM todos WHERE completed = 1";

/// The query that reads every item, in the order of the ids.
pub const SELECT_ALL: &'static str = "SELECT id, title, completed, created_at, completed_at
             FROM todos ORDER BY id ASC";

/// The stamp read from `text`, where chrono reads it as RFC 3339.
pub open spec fn parsed_stamp(text: Seq<char>) -> Option<StampView> {
    match rfc3339_instant(text) {
        Some(v) => Some(StampView { secs: v.0, nanos: v.1, text }),
        None => None,
    }
}

/// The stamp of a todo agrees with its text: what loading from the database
/// guarantees of every item.
pub open spec fn stamps_read_back(t: TodoView) -> bool {
    &&& parsed_stamp(t.created_at.text) == Some(t.created_at)
    &&& (t.completed_at matches Some(c) ==> parsed_stamp(c.text) == Some(c))
}

/// The item that a row of the table stands for, where its times are RFC 3339
/// text and its id is not negative.
pub open spec fn row_item(row: RawRow) -> Option<TodoView> {
    match parsed_stamp(row.created_at@) {
        None => None,
        Some(created) => {
            let done_at: Option<Option<StampView>> = match row.completed_at {
                None => Some(None),
                Some(c) => match parsed_stamp(c@) {
                    None => None,
                    Some(s) => Some(Some(s)),
                },
            };
            match done_at {
                None => None,
                Some(at) => if row.id < 0 {
                    None
                } else {
                    Some(TodoView {
                        id: row.id as u64,
                        title: row.title@,
                        completed: row.completed != 0,
                        created_at: created,
                        completed_at: at,
                    })
                },
            }
        },
    }
}

/// `e` is the error that reading `row` gives: the first of an unreadable
/// creation time, an unreadable completion time and a negative id.
pub open spec fn row_error(row: RawRow, e: TodoError) -> bool {
    if parsed_stamp(row.created_at@) is None {
        e matches TodoError::BadTime(s) && s@ == row.created_at@
    } else if row.completed_at matches Some(c) && parsed_stamp(c@) is None {
        e matches TodoError::BadTime(s) && (row.completed_at matches Some(c) && s@ == c@)
    } else {
        e == TodoError::IdOutOfRange(row.id) && row.id < 0
    }
}

/// `e` is an error that loading the items can give: SQLite failed the query
/// or a row, a stored time is not RFC 3339 text, or a stored id is negative.
pub open spec fn load_error(e: TodoError) -> bool {
    ||| e.is_database(DbStep::Query)
    ||| (e matches TodoError::BadTime(s) && parsed_stamp(s@) is None)
    ||| (e matches TodoError::IdOutOfRange(x) && x < 0)
}

/// A row handed out by SQLite converts without error.
pub open spec fn row_good(row: Result<RawRow, rusqlite::Error>) -> bool {
    row matches Ok(r) && row_item(r) is Some
}

/// `e` is what reading the failed `row` gives.
pub open spec fn row_failure(row: Result<RawRow, rusqlite::Error>, e: TodoError) -> bool {
    match row {
        Err(_) => e.is_database(DbStep::Query),
        Ok(r) => row_error(r, e),
    }
}

/// The items that well-read rows stand for, in order.
pub open spec fn rows_items(rows: Seq<Result<RawRow, rusqlite::Error>>) -> Seq<TodoView> {
    rows.map_values(|row: Result<RawRow, rusqlite::Error>| match row {
        Ok(r) => row_item(r).unwrap(),
        Err(_) => row_item(arbitrary()).unwrap(),
    })
}

/// Reads a stored time.
pub fn read_stamp(text: &String) -> (r: Result<Stamp, TodoError>)
    ensures
        r matches Ok(s) ==> parsed_stamp(text@) == Some(s@),
        r matches Err(e) ==> parsed_stamp(text@) is None && (e matches TodoError::BadTime(t) && t@ == text@),
        parsed_stamp(text@) is None ==> r is Err,
{
    match parse_rfc3339(text.as_str()) {
        Ok(v) => Ok(Stamp { secs: v.0, nanos: v.1, text: text.clone() }),
        Err(_) => Err(TodoError::BadTime(text.clone())),
    }
}

/// The item that one row of the table stands for.
pub fn todo_from_row(row: &RawRow) -> (r: Result<Todo, TodoError>)
    ensures
        row_item(*row) is Some <==> r is Ok,
        r matches Ok(t) ==> row_item(*row) == Some(t@),
        r matches Err(e) ==> row_error(*row, e),
{
    let created_at = read_stamp(&row.created_at)?;
    let completed_at = match &row.completed_at {
        None => None,
        Some(c) => Some(read_stamp(c)?),
    };
    if row.id < 0 {
        return Err(TodoError::IdOutOfRange(row.id));
    }
    let t = Todo {
        id: row.id as u64,
        title: row.title.clone(),
        completed: row.completed != 0,
        created_at,
        completed_at,
    };
    proof {
        assert(opt_stamp_view(t.completed_at) == match row.completed_at {
            None => None,
            Some(c) => parsed_stamp(c@),
        });
    }
    Ok(t)
}

/// Converts the rows of the table, in order, stopping at the first row that
/// SQLite could not read or that does not convert.
pub fn todos_from_rows(rows: Vec<Result<RawRow, rusqlite::Error>>) -> (r: Result<Vec<Todo>, TodoError>)
    ensures
        r is Ok <==> forall|i: int| 0 <= i < rows@.len() ==> row_good(#[trigger] rows@[i]),
        r matches Ok(v) ==> view_of(v@) == rows_items(rows@),
        r matches Err(e) ==> exists|k: int|
            0 <= k < rows@.len() && (forall|i: int| 0 <= i < k ==> row_good(#[trigger] rows@[i]))
                && row_failure(#[trigger] rows@[k], e),
{
    let ghost all = rows@;
    let mut items: Vec<Todo> = Vec::new();
    for row in it: rows
        invariant
            it.seq() == all,
            forall|j: int| 0 <= j < it.index() ==> row_good(#[trigger] all[j]),
            view_of(items@) == rows_items(all.take(it.index() as int)),
    {
        let ghost i = it.index() as int;
        assert(row == all[i]);
        match row {
            Err(e) => {
                assert(row_failure(all[i], TodoError::Database(DbStep::Query, e)));
                return Err(TodoError::Database(DbStep::Query, e));
            },
            Ok(row) => {
                match todo_from_row(&row) {
                    Err(e) => {
                        assert(row_failure(all[i], e));
                        return Err(e);
                    },
                    Ok(t) => {
                        items.push(t);
                        assert(rows_items(all.take(i + 1)) =~= rows_items(all.take(i)).push(row_item(row).unwrap()));
                        assert(view_of(items@) =~= view_of(items@.drop_last()).push(t@));
                    },
                }
            },
        }
    }
    assert(all.take(all.len() as int) =~= all);
    Ok(items)
}

/// The items that a result hands out, by their views.
pub open spec fn items_result(r: Result<Vec<Todo>, TodoError>) -> Result<Seq<TodoView>, TodoError> {
    match r {
        Ok(v) => Ok(view_of(v@)),
        Err(e) => Err(e),
    }
}

/// `ev` is the query of all rows, and `r` what reading its rows gives: the
/// error of SQLite where the query failed; otherwise the items of the rows,
/// in order, where every row converts, else the error of the first row that
/// SQLite could not read or that does not convert.
pub open spec fn loaded(ev: Event, r: Result<Seq<TodoView>, TodoError>) -> bool {
    match ev {
        Event::Query { sql, rows } => sql == SELECT_ALL@ && rows_loaded(rows, r),
        _ => false,
    }
}

/// `r` is what reading the rows of a query gives (see `loaded`).
pub open spec fn rows_loaded(rows: Option<Seq<Result<RawRow, rusqlite::Error>>>, r: Result<Seq<TodoView>, TodoError>) -> bool {
    match rows {
        None => match r {
            Err(e) => e.is_database(DbStep::Query),
            Ok(_) => false,
        },
        Some(rs) => {
            &&& (r is Ok <==> forall|i: int| 0 <= i < rs.len() ==> row_good(#[trigger] rs[i]))
            &&& (r matches Ok(v) ==> v == rows_items(rs))
            &&& (r matches Err(e) ==> exists|k: int|
                0 <= k < rs.len() && (forall|i: int| 0 <= i < k ==> row_good(#[trigger] rs[i])) && row_failure(
                    #[trigger] rs[k],
                    e,
                ))
        },
    }
}

/// `new` is `old` with one more exchange.
pub open spec fn one_more(old: Seq<Event>, new: Seq<Event>) -> bool {
    new.len() == old.len() + 1 && new.drop_last() == old
}

/// One exchange more is one more.
proof fn lemma_one_more(old: Seq<Event>, e: Event)
    ensures
        one_more(old, old.push(e)),
        old.push(e).last() == e,
{
    assert(old.push(e).drop_last() =~= old);
}

/// The items of the table, read with the query of all rows.
pub fn load_items(db: &mut Db) -> (r: Result<Vec<Todo>, TodoError>)
    ensures
        one_more(old(db).events(), final(db).events()),
        loaded(final(db).events().last(), items_result(r)),
        r matches Ok(v) ==> forall|i: int| 0 <= i < v@.len() ==> stamps_read_back(#[trigger] view_of(v@)[i]),
        r matches Err(e) ==> load_error(e),
{
    let ghost before = db.events();
    let res = db.select(SELECT_ALL);
    proof { lemma_one_more(before, db.events().last()); }
    match res {
        Err(e) => {
            assert(db.events().last() == Event::Query { sql: SELECT_ALL@, rows: None });
            Err(TodoError::Database(DbStep::Query, e))
        },
        Ok(rows) => {
            let ghost all = rows@;
            assert(db.events().last() == Event::Query { sql: SELECT_ALL@, rows: Some(all) });
            let r = todos_from_rows(rows);
            proof {
                if let Ok(v) = &r {
                    assert(view_of(v@).len() == v@.len());
                    assert(rows_items(all).len() == all.len());
                    assert forall|i: int| 0 <= i < v@.len() implies stamps_read_back(#[trigger] view_of(v@)[i]) by {
                        assert(row_good(all[i]));
                        assert(view_of(v@)[i] == rows_items(all)[i]);
                    }
                }
                if let Err(e) = &r {
                    let k = choose|k: int|
                        0 <= k < all.len() && (forall|i: int| 0 <= i < k ==> row_good(#[trigger] all[i]))
                            && row_failure(#[trigger] all[k], *e);
                    assert(row_failure(all[k], *e));
                }
                let seen: Option<Seq<Result<RawRow, rusqlite::Error>>> = Some(all);
                assert(seen matches Some(rs) && rs == all);
                assert(rows_loaded(seen, items_result(r)));
            }
            r
        },
    }
}

/// `t` is `old` with the given completion state; it has a completion time
/// exactly when it is completed, and is otherwise unchanged.
pub open spec fn status_set(old: TodoView, t: TodoView, completed: bool) -> bool {
    &&& t.id == old.id
    &&& t.title == old.title
    &&& t.created_at == old.created_at
    &&& t.completed == completed
    &&& (t.completed_at is Some <==> completed)
}

/// `t` is `old` with the given title.
pub open spec fn title_set(old: TodoView, t: TodoView, title: Seq<char>) -> bool {
    t == TodoView { title, ..old }
}

/// `new` is `old` but for the item at `i`.
pub open spec fn changed_at(old: Seq<TodoView>, new: Seq<TodoView>, i: int) -> bool {
    &&& new.len() == old.len()
    &&& 0 <= i < old.len()
    &&& forall|j: int| 0 <= j < old.len() && j != i ==> new[j] == old[j]
}

/// `i` is the position of the first item with the given id.
pub open spec fn first_with_id(s: Seq<TodoView>, id: u64, i: int) -> bool {
    &&& 0 <= i < s.len()
    &&& s[i].id == id
    &&& forall|j: int| 0 <= j < i ==> s[j].id != id
}

/// Some item has the given id.
pub open spec fn has_id(s: Seq<TodoView>, id: u64) -> bool {
    exists|i: int| 0 <= i < s.len() && s[i].id == id
}

/// The views of a sequence of borrowed items, in order.
pub open spec fn view_of_refs(items: Seq<&Todo>) -> Seq<TodoView> {
    items.map_values(|t: &Todo| t@)
}

/// The outcome of an operation without its value.
pub open spec fn outcome<T>(r: Result<T, TodoError>) -> Result<(), TodoError> {
    match r {
        Ok(_) => Ok(()),
        Err(e) => Err(e),
    }
}

/// What adding an item with `title` does: an empty trimmed title is refused;
/// otherwise a new item with the trimmed title, not completed, is appended,
/// unless the database refuses it; on any error nothing changes.
pub open spec fn add_effect(old: Seq<TodoView>, new: Seq<TodoView>, title: Seq<char>, r: Result<(), TodoError>) -> bool {
    &&& (trimmed(title).len() == 0 <==> r matches Err(TodoError::EmptyTitle))
    &&& (r is Err ==> new == old)
    &&& (r matches Err(e) ==> e is EmptyTitle || e.is_database(DbStep::Insert))
    &&& (r is Ok ==> {
        &&& new.len() == old.len() + 1
        &&& new.drop_last() == old
        &&& new.last().title == trimmed(title)
        &&& !new.last().completed
        &&& new.last().completed_at is None
    })
}

/// What flipping the completion state of the item at `index` does.
pub open spec fn toggle_effect(old: Seq<TodoView>, new: Seq<TodoView>, index: int, r: Result<(), TodoError>) -> bool {
    &&& (index >= old.len() <==> r matches Err(TodoError::NoSuchIndex))
    &&& (r is Err ==> new == old)
    &&& (r matches Err(e) ==> e is NoSuchIndex || e.is_database(DbStep::UpdateStatus(None)))
    &&& (r is Ok ==> changed_at(old, new, index) && status_set(old[index], new[index], !old[index].completed))
}

/// What giving the item at `index` the trimmed `title` does.
pub open spec fn retitle_effect(old: Seq<TodoView>, new: Seq<TodoView>, index: int, title: Seq<char>, r: Result<(), TodoError>) -> bool {
    &&& (trimmed(title).len() == 0 <==> r matches Err(TodoError::EmptyTitle))
    &&& (trimmed(title).len() != 0 && index >= old.len() <==> r matches Err(TodoError::NoSuchIndex))
    &&& (r is Err ==> new == old)
    &&& (r matches Err(e) ==> e is EmptyTitle || e is NoSuchIndex || e.is_database(DbStep::UpdateTitle(None)))
    &&& (r is Ok ==> changed_at(old, new, index) && title_set(old[index], new[index], trimmed(title)))
}

/// What deleting the item at `index` does.
pub open spec fn remove_effect(old: Seq<TodoView>, new: Seq<TodoView>, index: int, r: Result<(), TodoError>) -> bool {
    &&& (index >= old.len() <==> r matches Err(TodoError::NoSuchIndex))
    &&& (r is Err ==> new == old)
    &&& (r matches Err(e) ==> e is NoSuchIndex || e.is_database(DbStep::Delete(None)))
    &&& (r is Ok ==> new == old.remove(index))
}

/// The value of an outcome that hands out an item.
pub open spec fn item_outcome(r: Result<&Todo, TodoError>) -> Result<TodoView, TodoError> {
    match r {
        Ok(t) => Ok(t@),
        Err(e) => Err(e),
    }
}

/// What setting the completion state of the item with `id` does: the first
/// item with that id gets the state (an item already in it is left as it is)
/// and is handed out; no item with the id, or a refusal of the database, is an
/// error that changes nothing.
pub open spec fn mark_effect(old: Seq<TodoView>, new: Seq<TodoView>, id: u64, completed: bool, r: Result<TodoView, TodoError>) -> bool {
    &&& (!has_id(old, id) <==> (r matches Err(TodoError::NoSuchId(x)) && x == id))
    &&& (r matches Err(TodoError::NoSuchId(x)) ==> x == id)
    &&& (r is Err ==> new == old)
    &&& (r matches Err(e) ==> e is NoSuchId || e.is_database(DbStep::UpdateStatus(Some(id))))
    &&& (r matches Ok(t) ==> exists|i: int| {
        &&& first_with_id(old, id, i)
        &&& t == new[i]
        &&& if old[i].completed == completed {
            new == old
        } else {
            changed_at(old, new, i) && status_set(old[i], t, completed)
        }
    })
}

/// What giving the item with `id` the trimmed `title` does.
pub open spec fn edit_effect(old: Seq<TodoView>, new: Seq<TodoView>, id: u64, title: Seq<char>, r: Result<TodoView, TodoError>) -> bool {
    &&& (trimmed(title).len() == 0 <==> r matches Err(TodoError::EmptyTitle))
    &&& (trimmed(title).len() != 0 && !has_id(old, id) ==> (r matches Err(TodoError::NoSuchId(x)) && x == id))
    &&& (r matches Err(TodoError::NoSuchId(x)) ==> x == id && !has_id(old, id))
    &&& (r is Err ==> new == old)
    &&& (r matches Err(e) ==> e is EmptyTitle || e is NoSuchId || e.is_database(DbStep::UpdateTitle(Some(id))))
    &&& (r matches Ok(t) ==> exists|i: int| {
        &&& first_with_id(old, id, i)
        &&& t == new[i]
        &&& changed_at(old, new, i)
        &&& title_set(old[i], t, trimmed(title))
    })
}

/// What deleting the item with `id` does: the first item with that id is
/// removed and handed out.
pub open spec fn unlink_effect(old: Seq<TodoView>, new: Seq<TodoView>, id: u64, r: Result<TodoView, TodoError>) -> bool {
    &&& (!has_id(old, id) <==> (r matches Err(TodoError::NoSuchId(x)) && x == id))
    &&& (r matches Err(TodoError::NoSuchId(x)) ==> x == id)
    &&& (r is Err ==> new == old)
    &&& (r matches Err(e) ==> e is NoSuchId || e.is_database(DbStep::Delete(Some(id))))
    &&& (r matches Ok(t) ==> exists|i: int| {
        &&& first_with_id(old, id, i)
        &&& t == old[i]
        &&& new == old.remove(i)
    })
}

/// What deleting the completed items does: the pending ones stay, in order.
pub open spec fn clear_effect(old: Seq<TodoView>, new: Seq<TodoView>, r: Result<usize, TodoError>) -> bool {
    &&& (r is Err ==> new == old)
    &&& (r matches Err(e) ==> e.is_database(DbStep::ClearCompleted))
    &&& (r is Ok ==> new == old.filter(|t: TodoView| !t.completed))
}

/// The values bound to the insert of an item: its title and the text of its
/// creation time.
pub open spec fn insert_values(title: Seq<char>, created: Seq<char>) -> Seq<SqlValueView> {
    seq![SqlValueView::Text(title), SqlValueView::Text(created)]
}

/// The values bound to setting the completion state of the item with `id`:
/// 1 or 0, the text of the completion time or NULL, and the id.
pub open spec fn status_values(id: u64, completed: bool, at: Option<Seq<char>>) -> Seq<SqlValueView> {
    seq![
        SqlValueView::Int(if completed { 1 } else { 0 }),
        match at {
            Some(t) => SqlValueView::Text(t),
            None => SqlValueView::Null,
        },
        SqlValueView::Int(id as i64),
    ]
}

/// The values bound to setting the title of the item with `id`.
pub open spec fn title_values(id: u64, title: Seq<char>) -> Seq<SqlValueView> {
    seq![SqlValueView::Text(title), SqlValueView::Int(id as i64)]
}

/// The value bound to deleting the item with `id`.
pub open spec fn delete_values(id: u64) -> Seq<SqlValueView> {
    seq![SqlValueView::Int(id as i64)]
}

/// `new` is `old` with one statement more: `sql` with `values`, which
/// SQLite ran (reporting a count of changed rows) exactly where `ok`.
pub open spec fn sent_once(old: Seq<Event>, new: Seq<Event>, sql: Seq<char>, values: Seq<SqlValueView>, ok: bool) -> bool {
    &&& one_more(old, new)
    &&& new.last() matches Event::Sent { sql: s, values: v, changed: c } && s == sql && v == values && (c is Some
        <==> ok)
}

/// The text of a completion time, if there is one.
pub open spec fn at_text(s: Option<StampView>) -> Option<Seq<char>> {
    match s {
        Some(t) => Some(t.text),
        None => None,
    }
}

/// `new` is `old` with the statement sent that sets the completion state of
/// the item with `id`, with a completion time exactly where it is completed:
/// where SQLite ran it (`ok`), the time `at_now` that the item now holds.
pub open spec fn status_sent(old: Seq<Event>, new: Seq<Event>, id: u64, completed: bool, ok: bool, at_now: Option<Seq<char>>) -> bool {
    exists|at: Option<Seq<char>>|
        sent_once(old, new, SET_STATUS_SQL@, #[trigger] status_values(id, completed, at), ok) && (at is Some
            <==> completed) && (ok ==> at == at_now)
}

/// What adding an item with `title` hands to SQLite: nothing where the
/// trimmed title is empty; otherwise the insert of the trimmed title and a
/// creation time, and, where it succeeded, the request of the new rowid,
/// which is the id of the new item, whose creation time was inserted.
pub open spec fn add_sent(old: Seq<Event>, new: Seq<Event>, title: Seq<char>, r: Result<TodoView, TodoError>) -> bool {
    &&& (trimmed(title).len() == 0 ==> new == old)
    &&& (r matches Err(e) && e.is_database(DbStep::Insert) ==> exists|created: Seq<char>|
        sent_once(old, new, INSERT_SQL@, #[trigger] insert_values(trimmed(title), created), false))
    &&& (r matches Ok(t) ==> {
        &&& new.len() == old.len() + 2
        &&& sent_once(old, new.drop_last(), INSERT_SQL@, insert_values(trimmed(title), t.created_at.text), true)
        &&& new.last() matches Event::RowId(rowid) && t.id == rowid as u64
    })
}

/// What flipping the item at `index` hands to SQLite: nothing for a position
/// past the end; otherwise the new state of that item's row.
pub open spec fn toggle_sent(old: Seq<Event>, new: Seq<Event>, items: Seq<TodoView>, after: Seq<TodoView>, index: int, r: Result<(), TodoError>) -> bool {
    &&& (index >= items.len() ==> new == old)
    &&& (0 <= index < items.len() ==> status_sent(
        old,
        new,
        items[index].id,
        !items[index].completed,
        r is Ok,
        at_text(after[index].completed_at),
    ))
}

/// What giving the item at `index` a new title hands to SQLite: nothing for
/// an empty trimmed title or a position past the end; otherwise the trimmed
/// title for that item's row.
pub open spec fn retitle_sent(old: Seq<Event>, new: Seq<Event>, items: Seq<TodoView>, index: int, title: Seq<char>, r: Result<(), TodoError>) -> bool {
    &&& (trimmed(title).len() == 0 || index >= items.len() ==> new == old)
    &&& (trimmed(title).len() != 0 && 0 <= index < items.len() ==> sent_once(
        old,
        new,
        SET_TITLE_SQL@,
        title_values(items[index].id, trimmed(title)),
        r is Ok,
    ))
}

/// What deleting the item at `index` hands to SQLite: nothing for a position
/// past the end; otherwise the deletion of that item's row.
pub open spec fn remove_sent(old: Seq<Event>, new: Seq<Event>, items: Seq<TodoView>, index: int, r: Result<(), TodoError>) -> bool {
    &&& (index >= items.len() ==> new == old)
    &&& (0 <= index < items.len() ==> sent_once(old, new, DELETE_SQL@, delete_values(items[index].id), r is Ok))
}

/// What setting the completion state of the item with `id` hands to SQLite:
/// nothing where no item has the id or where the first one with it already
/// has the state (which then succeeds with the items unchanged); otherwise
/// the new state of the row with the id.
pub open spec fn mark_sent(old: Seq<Event>, new: Seq<Event>, items: Seq<TodoView>, after: Seq<TodoView>, id: u64, completed: bool, r: Result<TodoView, TodoError>) -> bool {
    &&& (!has_id(items, id) ==> new == old)
    &&& forall|i: int| #[trigger] first_with_id(items, id, i) ==> if items[i].completed == completed {
        new == old && after == items && r == Ok::<TodoView, TodoError>(items[i])
    } else {
        status_sent(old, new, id, completed, r is Ok, at_text(after[i].completed_at))
    }
}

/// What giving the item with `id` a new title hands to SQLite: nothing for
/// an empty trimmed title or where no item has the id; otherwise the trimmed
/// title for the row with the id.
pub open spec fn edit_sent(old: Seq<Event>, new: Seq<Event>, items: Seq<TodoView>, id: u64, title: Seq<char>, r: Result<TodoView, TodoError>) -> bool {
    &&& (trimmed(title).len() == 0 || !has_id(items, id) ==> new == old)
    &&& (trimmed(title).len() != 0 && has_id(items, id) ==> sent_once(
        old,
        new,
        SET_TITLE_SQL@,
        title_values(id, trimmed(title)),
        r is Ok,
    ))
}

/// What deleting the item with `id` hands to SQLite: nothing where no item
/// has the id; otherwise the deletion of the row with the id.
pub open spec fn unlink_sent(old: Seq<Event>, new: Seq<Event>, items: Seq<TodoView>, id: u64, r: Result<TodoView, TodoError>) -> bool {
    &&& (!has_id(items, id) ==> new == old)
    &&& (has_id(items, id) ==> sent_once(old, new, DELETE_SQL@, delete_values(id), r is Ok))
}

/// What deleting the completed items hands to SQLite: the deletion of every
/// completed row; the count returned is the count SQLite reported.
pub open spec fn clear_sent(old: Seq<Event>, new: Seq<Event>, r: Result<usize, TodoError>) -> bool {
    &&& sent_once(old, new, CLEAR_SQL@, seq![], r is Ok)
    &&& (r matches Ok(n) ==> new.last() matches Event::Sent { changed, .. } && changed == Some(n))
}

/// The to-do items of one database, held in memory in the order in which
/// they were loaded and added, beside the open database that each change is
/// written to.
pub struct TodoStore {
    db: Db,
    data: Vec<Todo>,
    readings: Ghost<Seq<StampView>>,
}

/// `new` is `old` with one more reading of the clock.
pub open spec fn read_once(old: Seq<StampView>, new: Seq<StampView>) -> bool {
    new.len() == old.len() + 1 && new.drop_last() == old
}

/// What setting the completion state of the item with `id` to `completed`
/// does to the clock and to what is sent, where the state changes:
/// completing reads the clock once, and that reading is the completion time
/// that the item then holds (`after`, where SQLite accepted the change) and
/// the time sent to SQLite; reopening reads nothing and sends NULL.
pub open spec fn stamp_effect(
    old_r: Seq<StampView>,
    new_r: Seq<StampView>,
    old_ev: Seq<Event>,
    new_ev: Seq<Event>,
    id: u64,
    completed: bool,
    ok: bool,
    after: TodoView,
) -> bool {
    &&& (completed ==> read_once(old_r, new_r))
    &&& (!completed ==> new_r == old_r)
    &&& (ok && completed ==> after.completed_at == Some(new_r.last()))
    &&& sent_once(
        old_ev,
        new_ev,
        SET_STATUS_SQL@,
        status_values(id, completed, if completed { Some(new_r.last().text) } else { None }),
        ok,
    )
}

impl View for TodoStore {
    type V = Seq<TodoView>;

    closed spec fn view(&self) -> Seq<TodoView> {
        view_of(self.data@)
    }
}

impl TodoStore {
    /// The exchanges that this store has had with its database since it
    /// opened it, in order.
    pub closed spec fn events(&self) -> Seq<Event> {
        self.db.events()
    }

    /// The readings of the clock that this store has taken since it was
    /// opened, in order.
    pub closed spec fn readings(&self) -> Seq<StampView> {
        self.readings@
    }

    /// Reads the current time from the clock.
    fn read_clock(&mut self) -> (r: Stamp)
        ensures
            final(self).readings() == old(self).readings().push(r@),
            final(self)@ == old(self)@,
            final(self).events() == old(self).events(),
            r.nanos < 2_000_000_000,
    {
        let s = now_stamp();
        self.readings = Ghost(self.readings@.push(s@));
        s
    }

    /// Opens the database at `path`, creates the table where it is missing,
    /// and loads every item: the items are those of the rows that the query
    /// of all rows gave, in order.
    pub fn open(path: &std::path::PathBuf) -> (r: Result<TodoStore, TodoError>)
        ensures
            r matches Ok(s) ==> {
                &&& s.events().len() == 2
                &&& s.events()[0] == Event::Batch { sql: SCHEMA@, ok: true }
                &&& loaded(s.events()[1], Ok(s@))
                &&& s.readings() == Seq::<StampView>::empty()
            },
            r matches Ok(s) ==> forall|i: int| 0 <= i < s@.len() ==> stamps_read_back(#[trigger] s@[i]),
            r matches Err(e) ==> e.is_database(DbStep::Open) || e.is_database(DbStep::Init) || load_error(e),
    {
        let mut db = match Db::open(path) {
            Ok(d) => d,
            Err(e) => { return Err(TodoError::Database(DbStep::Open, e)); },
        };
        match db.run_batch(SCHEMA) {
            Ok(()) => {},
            Err(e) => { return Err(TodoError::Database(DbStep::Init, e)); },
        }
        let ghost batch = db.events();
        assert(batch == seq![Event::Batch { sql: SCHEMA@, ok: true }]);
        let data = load_items(&mut db)?;
        assert(db.events()[0] == db.events().drop_last()[0]);
        let s = TodoStore { db, data, readings: Ghost(Seq::empty()) };
        assert(s.events()[1] == s.events().last());
        Ok(s)
    }

    /// The items, in the order in which they were loaded and added.
    pub fn items(&self) -> (r: &[Todo])
        ensures
            view_of(r@) == self@,
    {
        self.data.as_slice()
    }

    fn replace_at(&mut self, index: usize, t: Todo)
        requires
            index < old(self)@.len(),
        ensures
            final(self)@ == old(self)@.update(index as int, t@),
            final(self).events() == old(self).events(),
            final(self).readings() == old(self).readings(),
    {
        self.data.remove(index);
        self.data.insert(index, t);
        assert(view_of(self.data@) =~= view_of(old(self).data@).update(index as int, t@));
    }

    /// Adds an item with the trimmed `title`, not completed, created now.
    pub fn add(&mut self, title: String) -> (r: Result<&Todo, TodoError>)
        ensures
            add_effect(old(self)@, final(self)@, title@, outcome(r)),
            add_sent(old(self).events(), final(self).events(), title@, item_outcome(r)),
            r matches Ok(t) ==> final(self)@ == old(self)@.push(t@),
            trimmed(title@).len() == 0 ==> final(self).readings() == old(self).readings(),
            trimmed(title@).len() != 0 ==> read_once(old(self).readings(), final(self).readings()),
            r matches Ok(t) ==> t.created_at@ == final(self).readings().last(),
    {
        let t = trim(title.as_str());
        if t.unicode_len() == 0 {
            return Err(TodoError::EmptyTitle);
        }
        let title = t.to_string();
        let created_at = self.read_clock();
        assert(self.readings().drop_last() =~= old(self).readings());
        let mut values: Vec<SqlValue> = Vec::new();
        values.push(SqlValue::Text(title.clone()));
        values.push(SqlValue::Text(created_at.text.clone()));
        assert(values_view(values@) =~= insert_values(title@, created_at.text@));
        let ghost before = self.events();
        let ghost pre = self.events();
        let res = self.db.send(INSERT_SQL, values);
        proof { lemma_one_more(pre, self.events().last()); assert(self.events() == pre.push(self.events().last())); }
        match res {
            Err(e) => {
                assert(sent_once(before, self.events(), INSERT_SQL@, insert_values(title@, created_at.text@), false));
                return Err(TodoError::Database(DbStep::Insert, e));
            },
            Ok(_) => {},
        }
        let ghost sent = self.events();
        let id = self.db.last_insert_rowid() as u64;
        assert(self.events().drop_last() == sent);
        let item = Todo { id, title, completed: false, created_at, completed_at: None };
        self.data.push(item);
        assert(view_of(self.data@) =~= view_of(old(self).data@).push(self.data@.last()@));
        assert(self@.drop_last() =~= old(self)@);
        let n = self.data.len();
        Ok(&self.data[n - 1])
    }

    /// Writes the completion state of the item at `index` (and the time of
    /// completion, or none) to the database, and then to memory.
    fn write_status(&mut self, index: usize, completed: bool, id_named: Option<u64>) -> (r: Result<(), TodoError>)
        requires
            index < old(self)@.len(),
        ensures
            r is Ok ==> changed_at(old(self)@, final(self)@, index as int)
                && status_set(old(self)@[index as int], final(self)@[index as int], completed),
            r matches Err(e) ==> final(self)@ == old(self)@ && e.is_database(DbStep::UpdateStatus(id_named)),
            stamp_effect(
                old(self).readings(),
                final(self).readings(),
                old(self).events(),
                final(self).events(),
                old(self)@[index as int].id,
                completed,
                r is Ok,
                final(self)@[index as int],
            ),
            status_sent(
                old(self).events(),
                final(self).events(),
                old(self)@[index as int].id,
                completed,
                r is Ok,
                at_text(final(self)@[index as int].completed_at),
            ),
    {
        let completed_at = if completed { Some(self.read_clock()) } else { None };
        proof {
            if completed {
                assert(self.readings().drop_last() =~= old(self).readings());
            }
        }
        let id = self.data[index].id;
        let flag: i64 = if completed { 1 } else { 0 };
        let at_value = match &completed_at {
            Some(s) => SqlValue::Text(s.text.clone()),
            None => SqlValue::Null,
        };
        let mut values: Vec<SqlValue> = Vec::new();
        values.push(SqlValue::Int(flag));
        values.push(at_value);
        values.push(SqlValue::Int(id as i64));
        let ghost at = at_text(opt_stamp_view(completed_at));
        assert(values_view(values@) =~= status_values(id, completed, at));
        let ghost before = self.events();
        let ghost pre = self.events();
        let res = self.db.send(SET_STATUS_SQL, values);
        proof { lemma_one_more(pre, self.events().last()); assert(self.events() == pre.push(self.events().last())); }
        match res {
            Err(e) => {
                assert(sent_once(before, self.events(), SET_STATUS_SQL@, status_values(id, completed, at), false));
                return Err(TodoError::Database(DbStep::UpdateStatus(id_named), e));
            },
            Ok(_) => {},
        }
        assert(sent_once(before, self.events(), SET_STATUS_SQL@, status_values(id, completed, at), true));
        let old_item = &self.data[index];
        let t = Todo {
            id: old_item.id,
            title: old_item.title.clone(),
            completed,
            created_at: old_item.created_at.copy(),
            completed_at,
        };
        self.replace_at(index, t);
        Ok(())
    }

    /// Flips the completion state of the item at `index`; a completed item
    /// gets the current time as its completion time, a reopened one none.
    pub fn toggle(&mut self, index: usize) -> (r: Result<(), TodoError>)
        ensures
            toggle_effect(old(self)@, final(self)@, index as int, r),
            toggle_sent(old(self).events(), final(self).events(), old(self)@, final(self)@, index as int, r),
            index >= old(self)@.len() ==> final(self).readings() == old(self).readings(),
            index < old(self)@.len() ==> stamp_effect(
                old(self).readings(),
                final(self).readings(),
                old(self).events(),
                final(self).events(),
                old(self)@[index as int].id,
                !old(self)@[index as int].completed,
                r is Ok,
                final(self)@[index as int],
            ),
    {
        if index >= self.data.len() {
            return Err(TodoError::NoSuchIndex);
        }
        let completed = !self.data[index].completed;
        self.write_status(index, completed, None)
    }

    /// Replaces the title of the item at `index` with the trimmed `title`.
    pub fn update_title(&mut self, index: usize, title: String) -> (r: Result<(), TodoError>)
        ensures
            retitle_effect(old(self)@, final(self)@, index as int, title@, r),
            retitle_sent(old(self).events(), final(self).events(), old(self)@, index as int, title@, r),
            final(self).readings() == old(self).readings(),
    {
        let t = trim(title.as_str());
        if t.unicode_len() == 0 {
            return Err(TodoError::EmptyTitle);
        }
        if index >= self.data.len() {
            return Err(TodoError::NoSuchIndex);
        }
        self.write_title(index, t, None)
    }

    /// Writes `title` as the title of the item at `index`, to the database
    /// and then to memory.
    fn write_title(&mut self, index: usize, title: &str, id_named: Option<u64>) -> (r: Result<(), TodoError>)
        requires
            index < old(self)@.len(),
        ensures
            r is Ok ==> changed_at(old(self)@, final(self)@, index as int)
                && title_set(old(self)@[index as int], final(self)@[index as int], title@),
            r matches Err(e) ==> final(self)@ == old(self)@ && e.is_database(DbStep::UpdateTitle(id_named)),
            sent_once(
                old(self).events(),
                final(self).events(),
                SET_TITLE_SQL@,
                title_values(old(self)@[index as int].id, title@),
                r is Ok,
            ),
            final(self).readings() == old(self).readings(),
    {
        let id = self.data[index].id;
        let mut values: Vec<SqlValue> = Vec::new();
        values.push(SqlValue::Text(title.to_string()));
        values.push(SqlValue::Int(id as i64));
        assert(values_view(values@) =~= title_values(id, title@));
        let ghost before = self.events();
        let ghost pre = self.events();
        let res = self.db.send(SET_TITLE_SQL, values);
        proof { lemma_one_more(pre, self.events().last()); assert(self.events() == pre.push(self.events().last())); }
        match res {
            Err(e) => { return Err(TodoError::Database(DbStep::UpdateTitle(id_named), e)); },
            Ok(_) => {},
        }
        let ghost sent = self.events();
        let old_item = &self.data[index];
        let t = Todo {
            id: old_item.id,
            title: title.to_string(),
            completed: old_item.completed,
            created_at: old_item.created_at.copy(),
            completed_at: crate::model::copy_opt_stamp(&old_item.completed_at),
        };
        self.replace_at(index, t);
        assert(final(self)@[index as int] =~= TodoView { title: title@, ..old(self)@[index as int] });
        assert(self.events() == sent);
        Ok(())
    }

    /// Reads every item from the database again, in place of those in memory.
    pub fn reload(&mut self) -> (r: Result<(), TodoError>)
        ensures
            r is Err ==> final(self)@ == old(self)@,
            r matches Err(e) ==> load_error(e),
            r is Ok ==> forall|i: int| 0 <= i < final(self)@.len() ==> stamps_read_back(#[trigger] final(self)@[i]),
            final(self).readings() == old(self).readings(),
            one_more(old(self).events(), final(self).events()),
            loaded(
                final(self).events().last(),
                match r {
                    Ok(_) => Ok(final(self)@),
                    Err(e) => Err(e),
                },
            ),
    {
        let data = load_items(&mut self.db)?;
        self.data = data;
        Ok(())
    }

    /// The first item with the given id.
    pub fn get_by_id(&self, id: u64) -> (r: Option<&Todo>)
        ensures
            r is None <==> !has_id(self@, id),
            r matches Some(t) ==> exists|i: int| first_with_id(self@, id, i) && t@ == self@[i],
    {
        match self.find_index_by_id(id) {
            Some(i) => Some(&self.data[i]),
            None => None,
        }
    }

    /// The position of the first item with the given id.
    pub fn find_index_by_id(&self, id: u64) -> (r: Option<usize>)
        ensures
            r is None <==> !has_id(self@, id),
            r matches Some(i) ==> first_with_id(self@, id, i as int),
    {
        let mut i: usize = 0;
        while i < self.data.len()
            invariant
                i <= self@.len(),
                self@.len() == self.data@.len(),
                    forall|j: int| 0 <= j < i ==> self@[j].id != id,
            decreases self.data@.len() - i,
        {
            if self.data[i].id == id {
                assert(self@[i as int].id == id);
                return Some(i);
            }
            i = i + 1;
        }
        None
    }

    /// Sets the completion state of the item with the given id. An item that
    /// is already in that state is left as it is and nothing is written.
    pub fn set_completed_by_id(&mut self, id: u64, completed: bool) -> (r: Result<&Todo, TodoError>)
        ensures
            mark_effect(old(self)@, final(self)@, id, completed, item_outcome(r)),
            mark_sent(old(self).events(), final(self).events(), old(self)@, final(self)@, id, completed, item_outcome(r)),
            !has_id(old(self)@, id) ==> final(self).readings() == old(self).readings(),
            forall|i: int| #[trigger] first_with_id(old(self)@, id, i) ==> if old(self)@[i].completed == completed {
                final(self).readings() == old(self).readings()
            } else {
                stamp_effect(
                    old(self).readings(),
                    final(self).readings(),
                    old(self).events(),
                    final(self).events(),
                    id,
                    completed,
                    r is Ok,
                    final(self)@[i],
                )
            },
    {
        let index = match self.find_index_by_id(id) {
            Some(i) => i,
            None => { return Err(TodoError::NoSuchId(id)); },
        };
        if self.data[index].completed == completed {
            return Ok(&self.data[index]);
        }
        self.write_status(index, completed, Some(id))?;
        Ok(&self.data[index])
    }

    /// Replaces the title of the item with the given id by the trimmed `title`.
    pub fn update_title_by_id(&mut self, id: u64, title: String) -> (r: Result<&Todo, TodoError>)
        ensures
            edit_effect(old(self)@, final(self)@, id, title@, item_outcome(r)),
            edit_sent(old(self).events(), final(self).events(), old(self)@, id, title@, item_outcome(r)),
            final(self).readings() == old(self).readings(),
    {
        let t = trim(title.as_str());
        if t.unicode_len() == 0 {
            return Err(TodoError::EmptyTitle);
        }
        let index = match self.find_index_by_id(id) {
            Some(i) => i,
            None => { return Err(TodoError::NoSuchId(id)); },
        };
        self.write_title(index, t, Some(id))?;
        Ok(&self.data[index])
    }

    /// Deletes the first item with the given id and returns it.
    pub fn remove_by_id(&mut self, id: u64) -> (r: Result<Todo, TodoError>)
        ensures
            unlink_effect(
                old(self)@,
                final(self)@,
                id,
                match r {
                    Ok(t) => Ok(t@),
                    Err(e) => Err(e),
                },
            ),
            unlink_sent(
                old(self).events(),
                final(self).events(),
                old(self)@,
                id,
                match r {
                    Ok(t) => Ok(t@),
                    Err(e) => Err(e),
                },
            ),
            final(self).readings() == old(self).readings(),
    {
        let index = match self.find_index_by_id(id) {
            Some(i) => i,
            None => { return Err(TodoError::NoSuchId(id)); },
        };
        let mut values: Vec<SqlValue> = Vec::new();
        values.push(SqlValue::Int(id as i64));
        assert(values_view(values@) =~= delete_values(id));
        let ghost pre = self.events();
        let res = self.db.send(DELETE_SQL, values);
        proof { lemma_one_more(pre, self.events().last()); assert(self.events() == pre.push(self.events().last())); }
        match res {
            Err(e) => { return Err(TodoError::Database(DbStep::Delete(Some(id)), e)); },
            Ok(_) => {},
        }
        let t = self.data.remove(index);
        assert(view_of(self.data@) =~= view_of(old(self).data@).remove(index as int));
        Ok(t)
    }

    /// Deletes every completed item. The count is the number of rows that
    /// the database deleted, which includes completed rows that another
    /// process wrote since the last load.
    pub fn clear_completed(&mut self) -> (r: Result<usize, TodoError>)
        ensures
            clear_effect(old(self)@, final(self)@, r),
            clear_sent(old(self).events(), final(self).events(), r),
            final(self).readings() == old(self).readings(),
    {
        let values: Vec<SqlValue> = Vec::new();
        assert(values_view(values@) =~= Seq::<SqlValueView>::empty());
        let ghost pre = self.events();
        let res = self.db.send(CLEAR_SQL, values);
        proof { lemma_one_more(pre, self.events().last()); assert(self.events() == pre.push(self.events().last())); }
        match res {
            Err(e) => { return Err(TodoError::Database(DbStep::ClearCompleted, e)); },
            Ok(count) => {
                self.keep_pending();
                Ok(count)
            },
        }
    }

    fn keep_pending(&mut self)
        ensures
            final(self)@ == old(self)@.filter(|t: TodoView| !t.completed),
            final(self).events() == old(self).events(),
            final(self).readings() == old(self).readings(),
    {
        let ghost s = old(self)@;
        let mut kept: Vec<Todo> = Vec::new();
        let mut rest: Vec<Todo> = Vec::new();
        std::mem::swap(&mut rest, &mut self.data);
        let ghost all = rest@;
        assert(view_of(all) == s);
        for t in it: rest
            invariant
                it.seq() == all,
                view_of(kept@) == view_of(all.take(it.index() as int)).filter(|t: TodoView| !t.completed),
        {
            proof { reveal(Seq::filter); }
            let ghost i = it.index() as int;
            assert(view_of(all.take(i + 1)).drop_last() =~= view_of(all.take(i)));
            assert(view_of(all.take(i + 1)).last() == all[i]@);
            if !t.completed {
                kept.push(t);
                assert(view_of(kept@) =~= view_of(kept@.drop_last()).push(all[i]@));
            }
        }
        assert(all.take(all.len() as int) =~= all);
        self.data = kept;
    }

    /// The items whose lowercased title contains the trimmed, lowercased
    /// keyword, or whose id written in decimal is that keyword; every item
    /// where the keyword is empty.
    pub fn search(&self, keyword: &str) -> (r: Vec<&Todo>)
        ensures
            view_of_refs(r@) == self@.filter(|t: TodoView| search_hit(t, lowercased(trimmed(keyword@)))),
    {
        let kw = to_lowercase(trim(keyword));
        let kw_chars = chars_of(kw.as_str());
        let mut r: Vec<&Todo> = Vec::new();
        let mut i: usize = 0;
        while i < self.data.len()
            invariant
                i <= self.data@.len(),
                kw_chars@ == lowercased(trimmed(keyword@)),
                view_of_refs(r@) == view_of(self.data@.take(i as int)).filter(
                    |t: TodoView| search_hit(t, lowercased(trimmed(keyword@))),
                ),
            decreases self.data@.len() - i,
        {
            proof { reveal(Seq::filter); }
            let t = &self.data[i];
            assert(view_of(self.data@.take(i + 1)).drop_last() =~= view_of(self.data@.take(i as int)));
            assert(view_of(self.data@.take(i + 1)).last() == t@);
            if is_search_hit(t, &kw_chars) {
                r.push(t);
                assert(view_of_refs(r@) =~= view_of_refs(r@.drop_last()).push(t@));
            }
            i = i + 1;
        }
        assert(self.data@.take(self.data@.len() as int) =~= self.data@);
        r
    }

    /// Deletes the item at `index`.
    pub fn remove(&mut self, index: usize) -> (r: Result<(), TodoError>)
        ensures
            remove_effect(old(self)@, final(self)@, index as int, r),
            remove_sent(old(self).events(), final(self).events(), old(self)@, index as int, r),
            final(self).readings() == old(self).readings(),
    {
        if index >= self.data.len() {
            return Err(TodoError::NoSuchIndex);
        }
        let id = self.data[index].id;
        let mut values: Vec<SqlValue> = Vec::new();
        values.push(SqlValue::Int(id as i64));
        assert(values_view(values@) =~= delete_values(id));
        let ghost pre = self.events();
        let res = self.db.send(DELETE_SQL, values);
        proof { lemma_one_more(pre, self.events().last()); assert(self.events() == pre.push(self.events().last())); }
        match res {
            Err(e) => { return Err(TodoError::Database(DbStep::Delete(None), e)); },
            Ok(_) => {},
        }
        self.data.remove(index);
        assert(view_of(self.data@) =~= view_of(old(self).data@).remove(index as int));
        Ok(())
    }
}

/// An item matches a search keyword (already trimmed and lowercased): the
/// keyword is empty, or its lowercased title contains it, or it is the id
/// written in decimal.
pub open spec fn search_hit(t: TodoView, kw: Seq<char>) -> bool {
    kw.len() == 0 || contains_seq(lowercased(t.title), kw) || decimal(t.id as nat) == kw
}

fn is_search_hit(t: &Todo, kw: &Vec<char>) -> (r: bool)
    ensures
        r == search_hit(t@, kw@),
{
    if kw.len() == 0 {
        return true;
    }
    let title = chars_of(to_lowercase(t.title.as_str()).as_str());
    title_matches(&title, t.id, kw)
}

/// Whether an item whose lowercased title is `lower_title` and whose id is
/// `id` matches the keyword `kw`, already trimmed and lowercased: the keyword
/// is empty, occurs in the title, or is the id written in decimal.
pub fn title_matches(lower_title: &Vec<char>, id: u64, kw: &Vec<char>) -> (r: bool)
    ensures
        r == (kw@.len() == 0 || contains_seq(lower_title@, kw@) || decimal(id as nat) == kw@),
{
    if kw.len() == 0 {
        return true;
    }
    if contains_chars(lower_title, kw) {
        return true;
    }
    let digits = decimal_chars(id);
    seq_eq(&digits, kw)
}

} // verus!
