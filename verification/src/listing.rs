use vstd::prelude::*;
use crate::model::{earlier, Todo, TodoView, view_of};

verus! {

/// Which items a listing takes.
#[derive(Debug, Clone, Copy, PartialEq, Eq, Structural)]
pub enum ListScope {
    All,
    Done,
    Pending,
}

/// The listing of `scope` takes the item.
pub open spec fn in_scope(scope: ListScope, t: TodoView) -> bool {
    match scope {
        ListScope::All => true,
        ListScope::Done => t.completed,
        ListScope::Pending => !t.completed,
    }
}

/// The instant by which a listing orders an item: when it was completed (or
/// created, where no completion time is kept) for a completed item, when it
/// was created for a pending one.
pub open spec fn sort_key(t: TodoView) -> (i64, u32) {
    if t.completed {
        match t.completed_at {
            Some(c) => c.instant(),
            None => t.created_at.instant(),
        }
    } else {
        t.created_at.instant()
    }
}

/// `x` placed into the latest-first `s`: before the first item that is
/// strictly earlier, so that it follows the items of the same instant.
pub open spec fn insert_desc(s: Seq<TodoView>, x: TodoView) -> Seq<TodoView>
    decreases s.len(),
{
    if s.len() == 0 {
        seq![x]
    } else if earlier(sort_key(s[0]), sort_key(x)) {
        seq![x] + s
    } else {
        seq![s[0]] + insert_desc(s.drop_first(), x)
    }
}

/// `s` ordered latest first, items of the same instant keeping their order
/// (a stable sort by descending key).
pub open spec fn sort_desc(s: Seq<TodoView>) -> Seq<TodoView>
    decreases s.len(),
{
    if s.len() == 0 {
        seq![]
    } else {
        insert_desc(sort_desc(s.drop_last()), s.last())
    }
}

fn key_of(t: &Todo) -> (r: (i64, u32))
    ensures
        r == sort_key(t@),
{
    if t.completed {
        match &t.completed_at {
            Some(c) => (c.secs, c.nanos),
            None => (t.created_at.secs, t.created_at.nanos),
        }
    } else {
        (t.created_at.secs, t.created_at.nanos)
    }
}

fn is_earlier(a: (i64, u32), b: (i64, u32)) -> (r: bool)
    ensures
        r == earlier(a, b),
{
    a.0 < b.0 || (a.0 == b.0 && a.1 < b.1)
}

proof fn lemma_insert_at(s: Seq<TodoView>, x: TodoView, p: int)
    requires
        0 <= p <= s.len(),
        forall|q: int| 0 <= q < p ==> !earlier(sort_key(#[trigger] s[q]), sort_key(x)),
        p < s.len() ==> earlier(sort_key(s[p]), sort_key(x)),
    ensures
        insert_desc(s, x) == s.insert(p, x),
    decreases p,
{
    if s.len() == 0 {
        assert(s.insert(p, x) =~= seq![x]);
    } else if p == 0 {
        assert(s.insert(p, x) =~= seq![x] + s);
    } else {
        let t = s.drop_first();
        assert forall|q: int| 0 <= q < p - 1 implies !earlier(sort_key(#[trigger] t[q]), sort_key(x)) by {
            assert(t[q] == s[q + 1]);
        }
        lemma_insert_at(t, x, p - 1);
        assert(s.insert(p, x) =~= seq![s[0]] + t.insert(p - 1, x));
    }
}

fn insert_sorted(v: &mut Vec<Todo>, x: Todo)
    ensures
        view_of(final(v)@) == insert_desc(view_of(old(v)@), x@),
{
    let kx = key_of(&x);
    let ghost s = view_of(v@);
    let mut p: usize = 0;
    while p < v.len() && !is_earlier(key_of(&v[p]), kx)
        invariant
            p <= v@.len(),
            s == view_of(v@),
            kx == sort_key(x@),
            forall|q: int| 0 <= q < p ==> !earlier(sort_key(#[trigger] s[q]), sort_key(x@)),
        decreases v@.len() - p,
    {
        p = p + 1;
    }
    proof { lemma_insert_at(s, x@, p as int); }
    v.insert(p, x);
    assert(view_of(v@) =~= s.insert(p as int, x@));
}

/// The items of the scope, latest first (items of the same instant in their
/// store order).
pub fn list_items(items: &[Todo], scope: ListScope) -> (r: Vec<Todo>)
    ensures
        view_of(r@) == sort_desc(view_of(items@).filter(|t: TodoView| in_scope(scope, t))),
{
    let ghost s = view_of(items@);
    let ghost f = s.filter(|t: TodoView| in_scope(scope, t));
    let mut r: Vec<Todo> = Vec::new();
    let mut i: usize = 0;
    while i < items.len()
        invariant
            i <= items@.len(),
            s == view_of(items@),
            view_of(r@) == sort_desc(s.take(i as int).filter(|t: TodoView| in_scope(scope, t))),
        decreases items@.len() - i,
    {
        proof { reveal(Seq::filter); }
        let ghost before = s.take(i as int).filter(|t: TodoView| in_scope(scope, t));
        assert(s.take(i + 1).drop_last() =~= s.take(i as int));
        assert(s.take(i + 1).last() == items@[i as int]@);
        let t = &items[i];
        let keep = match scope {
            ListScope::All => true,
            ListScope::Done => t.completed,
            ListScope::Pending => !t.completed,
        };
        if keep {
            let ghost after = before.push(t@);
            assert(after.drop_last() =~= before);
            insert_sorted(&mut r, t.copy());
            assert(sort_desc(after) == insert_desc(sort_desc(before), t@));
        }
        i = i + 1;
    }
    assert(s.take(i as int) =~= s);
    r
}

/// What a listing prints: the first items (up to the limit), how many items
/// there are, and the limit asked for.
pub struct ListPage {
    pub shown: Vec<Todo>,
    pub total: usize,
    pub limit: Option<usize>,
}

/// The first `limit` items of `s` (all where no limit is given).
pub open spec fn limited(s: Seq<TodoView>, limit: Option<usize>) -> Seq<TodoView> {
    match limit {
        Some(l) => if l < s.len() { s.take(l as int) } else { s },
        None => s,
    }
}

impl ListPage {
    /// Splits off the items that a listing with this limit shows.
    pub fn new(items: Vec<Todo>, limit: Option<usize>) -> (r: ListPage)
        ensures
            r.total == items@.len(),
            r.limit == limit,
            view_of(r.shown@) == limited(view_of(items@), limit),
    {
        let total = items.len();
        let mut shown = items;
        match limit {
            Some(l) => {
                if l < total {
                    shown.truncate(l);
                    assert(view_of(shown@) =~= view_of(items@).take(l as int));
                }
            },
            None => {},
        }
        ListPage { shown, total, limit }
    }

    /// Some items are left out: a limit was given and there are more items.
    pub fn is_cut(&self) -> (r: bool)
        ensures
            r == (self.limit matches Some(l) && self.total > l),
    {
        match self.limit {
            Some(l) => self.total > l,
            None => false,
        }
    }
}

/// How many items are pending, how many completed, and how many in all.
#[derive(Debug, Clone, Copy, PartialEq, Eq, Structural)]
pub struct Stats {
    pub pending: usize,
    pub completed: usize,
    pub total: usize,
}

/// The counts of the items.
pub fn stats(items: &[Todo]) -> (r: Stats)
    ensures
        r.pending == view_of(items@).filter(|t: TodoView| !t.completed).len(),
        r.completed == view_of(items@).filter(|t: TodoView| t.completed).len(),
        r.total == items@.len(),
        r.pending + r.completed == r.total,
{
    let ghost s = view_of(items@);
    let mut pending: usize = 0;
    let mut completed: usize = 0;
    let mut i: usize = 0;
    while i < items.len()
        invariant
            i <= items@.len(),
            s == view_of(items@),
            pending == s.take(i as int).filter(|t: TodoView| !t.completed).len(),
            completed == s.take(i as int).filter(|t: TodoView| t.completed).len(),
            pending + completed == i,
        decreases items@.len() - i,
    {
        proof { reveal(Seq::filter); }
        assert(s.take(i + 1).drop_last() =~= s.take(i as int));
        assert(s.take(i + 1).last() == items@[i as int]@);
        if items[i].completed {
            completed = completed + 1;
        } else {
            pending = pending + 1;
        }
        i = i + 1;
    }
    assert(s.take(i as int) =~= s);
    Stats { pending, completed, total: items.len() }
}

/// Latest first: no item is strictly earlier than one after it.
pub open spec fn sorted_latest_first(s: Seq<TodoView>) -> bool {
    forall|i: int, j: int| 0 <= i < j < s.len() ==> !earlier(sort_key(#[trigger] s[i]), sort_key(#[trigger] s[j]))
}

proof fn lemma_insert_desc(s: Seq<TodoView>, x: TodoView)
    requires
        sorted_latest_first(s),
    ensures
        sorted_latest_first(insert_desc(s, x)),
        insert_desc(s, x).to_multiset() == s.to_multiset().insert(x),
    decreases s.len(),
{
    broadcast use vstd::seq_lib::group_to_multiset_ensures, vstd::multiset::group_multiset_axioms;

    if s.len() == 0 {
        assert(seq![x] =~= Seq::<TodoView>::empty().push(x));
    } else if earlier(sort_key(s[0]), sort_key(x)) {
        vstd::seq_lib::lemma_multiset_commutative(seq![x], s);
        assert(seq![x] =~= Seq::<TodoView>::empty().push(x));
        let r = seq![x] + s;
        assert forall|i: int, j: int| 0 <= i < j < r.len() implies !earlier(sort_key(#[trigger] r[i]), sort_key(#[trigger] r[j])) by {
            if i == 0 {
                assert(r[j] == s[j - 1]);
                if j - 1 > 0 {
                    assert(!earlier(sort_key(s[0]), sort_key(s[j - 1])));
                }
            } else {
                assert(r[i] == s[i - 1] && r[j] == s[j - 1]);
            }
        }
        assert(r.to_multiset() =~= s.to_multiset().insert(x));
    } else {
        let rest = s.drop_first();
        assert forall|i: int, j: int| 0 <= i < j < rest.len() implies !earlier(sort_key(#[trigger] rest[i]), sort_key(#[trigger] rest[j])) by {
            assert(rest[i] == s[i + 1] && rest[j] == s[j + 1]);
        }
        lemma_insert_desc(rest, x);
        let r0 = insert_desc(rest, x);
        let r = seq![s[0]] + r0;
        assert forall|j: int| 0 <= j < r0.len() implies !earlier(sort_key(s[0]), sort_key(#[trigger] r0[j])) by {
            assert(r0.contains(r0[j]));
            assert(r0.to_multiset().count(r0[j]) > 0);
            if r0[j] != x {
                assert(rest.to_multiset().count(r0[j]) > 0);
                assert(rest.contains(r0[j]));
                let k = choose|k: int| 0 <= k < rest.len() && rest[k] == r0[j];
                assert(s[k + 1] == r0[j]);
            }
        }
        assert forall|i: int, j: int| 0 <= i < j < r.len() implies !earlier(sort_key(#[trigger] r[i]), sort_key(#[trigger] r[j])) by {
            if i == 0 {
                assert(r[j] == r0[j - 1]);
            } else {
                assert(r[i] == r0[i - 1] && r[j] == r0[j - 1]);
            }
        }
        vstd::seq_lib::lemma_multiset_commutative(seq![s[0]], r0);
        vstd::seq_lib::lemma_multiset_commutative(seq![s[0]], rest);
        assert(s =~= seq![s[0]] + rest);
        assert(seq![s[0]] =~= Seq::<TodoView>::empty().push(s[0]));
        assert(r.to_multiset() =~= s.to_multiset().insert(x));
    }
}

/// A listing is ordered latest first and holds exactly the items it was made
/// of, each as often.
pub proof fn law_sort_desc(s: Seq<TodoView>)
    ensures
        sorted_latest_first(sort_desc(s)),
        sort_desc(s).to_multiset() == s.to_multiset(),
    decreases s.len(),
{
    broadcast use vstd::seq_lib::group_to_multiset_ensures;

    if s.len() > 0 {
        law_sort_desc(s.drop_last());
        lemma_insert_desc(sort_desc(s.drop_last()), s.last());
        assert(s.drop_last().push(s.last()) =~= s);
    }
}

/// A page never shows more items than its limit, nor more than there are.
pub proof fn law_page_bounded(s: Seq<TodoView>, limit: Option<usize>)
    ensures
        limited(s, limit).len() <= s.len(),
        limit matches Some(l) ==> limited(s, limit).len() <= l,
        limit matches Some(l) ==> (s.len() <= l ==> limited(s, limit) == s),
{
}

} // verus!

verus! {

/// Where `x` goes in `s`: before the first item that is strictly earlier.
proof fn lemma_insert_point(s: Seq<TodoView>, x: TodoView) -> (p: int)
    ensures
        0 <= p <= s.len(),
        forall|q: int| 0 <= q < p ==> !earlier(sort_key(#[trigger] s[q]), sort_key(x)),
        p < s.len() ==> earlier(sort_key(s[p]), sort_key(x)),
    decreases s.len(),
{
    if s.len() == 0 || earlier(sort_key(s[0]), sort_key(x)) {
        0
    } else {
        let t = s.drop_first();
        let q = lemma_insert_point(t, x);
        assert forall|a: int| 0 <= a < q + 1 implies !earlier(sort_key(#[trigger] s[a]), sort_key(x)) by {
            if a > 0 {
                assert(s[a] == t[a - 1]);
            }
        }
        if q < t.len() {
            assert(s[q + 1] == t[q]);
        }
        q + 1
    }
}

/// Keeping only the items that none of which passes leaves nothing.
proof fn lemma_filter_none(s: Seq<TodoView>, key: (i64, u32))
    requires
        forall|q: int| 0 <= q < s.len() ==> sort_key(#[trigger] s[q]) != key,
    ensures
        s.filter(|t: TodoView| sort_key(t) == key) == Seq::<TodoView>::empty(),
    decreases s.len(),
{
    reveal(Seq::filter);
    if s.len() > 0 {
        let t = s.drop_last();
        assert forall|q: int| 0 <= q < t.len() implies sort_key(#[trigger] t[q]) != key by {
            assert(t[q] == s[q]);
        }
        lemma_filter_none(t, key);
        assert(sort_key(s[s.len() - 1]) != key);
    }
}

/// A listing keeps the items of each instant in the order in which they
/// came: of the items with a given sort instant, the latest-first order
/// holds the same ones, in the same order, as the items it was made of.
pub proof fn law_sort_stable(s: Seq<TodoView>, key: (i64, u32))
    ensures
        sort_desc(s).filter(|t: TodoView| sort_key(t) == key) == s.filter(|t: TodoView| sort_key(t) == key),
    decreases s.len(),
{
    let pk = |t: TodoView| sort_key(t) == key;
    if s.len() > 0 {
        let d = s.drop_last();
        let x = s.last();
        law_sort_stable(d, key);
        law_sort_desc(d);
        let r = sort_desc(d);
        let p = lemma_insert_point(r, x);
        lemma_insert_at(r, x, p);
        assert(sort_desc(s) == insert_desc(r, x));
        assert(r.insert(p, x) =~= r.take(p) + (seq![x] + r.skip(p)));
        assert(r =~= r.take(p) + r.skip(p));
        Seq::filter_distributes_over_add(r.take(p), seq![x] + r.skip(p), pk);
        Seq::filter_distributes_over_add(seq![x], r.skip(p), pk);
        Seq::filter_distributes_over_add(r.take(p), r.skip(p), pk);
        if sort_key(x) == key {
            assert forall|q: int| 0 <= q < r.skip(p).len() implies sort_key(#[trigger] r.skip(p)[q]) != key by {
                assert(r.skip(p)[q] == r[p + q]);
                if q > 0 {
                    assert(!earlier(sort_key(r[p]), sort_key(r[p + q])));
                }
            }
            lemma_filter_none(r.skip(p), key);
        }
        reveal(Seq::filter);
        assert(seq![x].drop_last() =~= Seq::<TodoView>::empty());
        assert(s.drop_last() == d);
        assert(sort_desc(s).filter(pk) == r.take(p).filter(pk) + (seq![x].filter(pk) + r.skip(p).filter(pk)));
        assert(r.filter(pk) == r.take(p).filter(pk) + r.skip(p).filter(pk));
        if sort_key(x) == key {
            assert(seq![x].filter(pk) == seq![x]);
            assert(sort_desc(s).filter(pk) =~= r.filter(pk).push(x));
            assert(s.filter(pk) == d.filter(pk).push(x));
        } else {
            assert(Seq::<TodoView>::empty().filter(pk) =~= Seq::<TodoView>::empty());
            assert(seq![x].last() == x);
            assert(seq![x].filter(pk) =~= Seq::<TodoView>::empty());
            assert(sort_desc(s).filter(pk) =~= r.filter(pk));
            assert(s.filter(pk) == d.filter(pk));
        }
    }
}

} // verus!
