use vstd::prelude::*;

verus! {

/// A point in time as kept by the store: the instant as whole seconds since
/// the Unix epoch plus the nanoseconds into that second, and the RFC 3339 text
/// that the database holds for it.
#[derive(Debug, Clone)]
pub struct Stamp {
    pub secs: i64,
    pub nanos: u32,
    pub text: String,
}

#[verifier::ext_equal]
pub struct StampView {
    pub secs: i64,
    pub nanos: u32,
    pub text: Seq<char>,
}

impl View for Stamp {
    type V = StampView;

    open spec fn view(&self) -> StampView {
        StampView { secs: self.secs, nanos: self.nanos, text: self.text@ }
    }
}

impl StampView {
    /// The instant, by which stamps are ordered.
    pub open spec fn instant(self) -> (i64, u32) {
        (self.secs, self.nanos)
    }
}

/// `a` is strictly earlier than `b`.
pub open spec fn earlier(a: (i64, u32), b: (i64, u32)) -> bool {
    a.0 < b.0 || (a.0 == b.0 && a.1 < b.1)
}

/// The view of a stamp that may be missing.
pub open spec fn opt_stamp_view(s: Option<Stamp>) -> Option<StampView> {
    match s {
        Some(t) => Some(t@),
        None => None,
    }
}

impl Stamp {
    /// A copy of the stamp.
    pub fn copy(&self) -> (r: Stamp)
        ensures
            r@ == self@,
    {
        Stamp { secs: self.secs, nanos: self.nanos, text: self.text.clone() }
    }
}

/// One to-do item.
#[derive(Debug, Clone)]
pub struct Todo {
    pub id: u64,
    pub title: String,
    pub completed: bool,
    pub created_at: Stamp,
    pub completed_at: Option<Stamp>,
}

#[verifier::ext_equal]
pub struct TodoView {
    pub id: u64,
    pub title: Seq<char>,
    pub completed: bool,
    pub created_at: StampView,
    pub completed_at: Option<StampView>,
}

impl View for Todo {
    type V = TodoView;

    open spec fn view(&self) -> TodoView {
        TodoView {
            id: self.id,
            title: self.title@,
            completed: self.completed,
            created_at: self.created_at@,
            completed_at: opt_stamp_view(self.completed_at),
        }
    }
}

/// The views of a sequence of items, in order.
pub open spec fn view_of(items: Seq<Todo>) -> Seq<TodoView> {
    items.map_values(|t: Todo| t@)
}

/// A copy of a stamp that may be missing.
pub fn copy_opt_stamp(s: &Option<Stamp>) -> (r: Option<Stamp>)
    ensures
        opt_stamp_view(r) == opt_stamp_view(*s),
{
    match s {
        Some(t) => Some(t.copy()),
        None => None,
    }
}

impl Todo {
    /// A copy of the item.
    pub fn copy(&self) -> (r: Todo)
        ensures
            r@ == self@,
    {
        Todo {
            id: self.id,
            title: self.title.clone(),
            completed: self.completed,
            created_at: self.created_at.copy(),
            completed_at: copy_opt_stamp(&self.completed_at),
        }
    }
}

/// The step of the work with the database that failed.
#[derive(Debug, Clone, Copy, PartialEq, Eq)]
pub enum DbStep {
    Open,
    Init,
    Query,
    Insert,
    /// Writing the completion state; the id where the item was named by it.
    UpdateStatus(Option<u64>),
    /// Writing a new title; the id where the item was named by it.
    UpdateTitle(Option<u64>),
    /// Deleting an item; the id where the item was named by it.
    Delete(Option<u64>),
    ClearCompleted,
}

/// Why an operation of the library did not take place.
#[derive(Debug)]
pub enum TodoError {
    /// The title is empty once surrounding white space is removed.
    EmptyTitle,
    /// No item stands at the given position of the list.
    NoSuchIndex,
    /// No item has the given id.
    NoSuchId(u64),
    /// None of the given titles held anything but white space.
    NothingAdded,
    /// A stored time is not RFC 3339 text.
    BadTime(String),
    /// A stored id is negative.
    IdOutOfRange(i64),
    /// SQLite reported an error.
    Database(DbStep, rusqlite::Error),
}

impl TodoError {
    /// The error is one that SQLite reported at `step`.
    pub open spec fn is_database(&self, step: DbStep) -> bool {
        match self {
            TodoError::Database(s, _) => *s == step,
            _ => false,
        }
    }
}

} // verus!
