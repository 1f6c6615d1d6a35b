use vstd::prelude::*;
use crate::text::{chars_of, push_char};

verus! {

/// The display width in columns that `unicode_width::UnicodeWidthChar::width`
/// gives `c`, or `None` for a control character.
pub uninterp spec fn char_columns(c: char) -> Option<usize>;

/// The display width in columns that `unicode_width::UnicodeWidthStr::width`
/// gives the string `s` (which accounts for sequences such as emoji with
/// modifiers, not only for single characters).
pub uninterp spec fn str_columns(s: Seq<char>) -> usize;

/// Calls `unicode_width::UnicodeWidthChar::width`. Beside naming the result,
/// states what its source shows: printable ASCII is one column wide, the C0
/// and C1 control codes (and DEL) have no width, and every character from
/// U+00A0 on has one.
#[verifier::external_body]
pub(crate) fn char_width(c: char) -> (r: Option<usize>)
    ensures
        r == char_columns(c),
        ' ' <= c <= '~' ==> r == Some(1usize),
        (c < ' ' || ('\u{7f}' <= c && c < '\u{a0}')) ==> r is None,
        '\u{a0}' <= c ==> r is Some,
{
    unicode_width::UnicodeWidthChar::width(c)
}

/// Calls `unicode_width::UnicodeWidthStr::width`.
#[verifier::external_body]
pub(crate) fn str_width(s: &str) -> (r: usize)
    ensures
        r == str_columns(s@),
{
    unicode_width::UnicodeWidthStr::width(s)
}

/// The columns a character counts for when a title is shortened: its
/// display width, and none for a control character.
pub open spec fn col0(c: char) -> int {
    match char_columns(c) {
        Some(w) => w as int,
        None => 0,
    }
}

/// The columns of each character of `s`, as shortening counts them.
pub open spec fn widths0_of(s: Seq<char>) -> Seq<int> {
    s.map_values(|c: char| col0(c))
}

/// The widths as integers.
pub open spec fn ints(ws: Seq<usize>) -> Seq<int> {
    ws.map_values(|w: usize| w as int)
}

/// How many leading characters, of the widths `ws`, fit into `budget`
/// columns, taking them one by one until the next would not fit.
pub open spec fn cut_len(ws: Seq<int>, budget: int) -> nat
    decreases ws.len(),
{
    if ws.len() == 0 || ws[0] > budget {
        0
    } else {
        1 + cut_len(ws.drop_first(), budget - ws[0])
    }
}

/// The columns of those characters.
pub open spec fn cut_width(ws: Seq<int>, budget: int) -> int
    decreases ws.len(),
{
    if ws.len() == 0 || ws[0] > budget {
        0
    } else {
        ws[0] + cut_width(ws.drop_first(), budget - ws[0])
    }
}

/// The mark put at the end of shortened text.
pub open spec fn ellipsis() -> Seq<char> {
    seq!['.', '.', '.']
}

/// The characters `s`, of the widths `ws` and `total` columns in all, fitted
/// into `max_width` columns, and the columns the result takes: `s` itself
/// where it fits; otherwise as many leading characters as fit into three
/// columns less, followed by "..." (just "..." where the width is at most
/// three).
pub open spec fn truncate_with(s: Seq<char>, ws: Seq<int>, total: int, max_width: int) -> (Seq<char>, int) {
    if total <= max_width {
        (s, total)
    } else if max_width <= 3 {
        (ellipsis(), 3)
    } else {
        let k = cut_len(ws, max_width - 3);
        (s.take(k as int) + ellipsis(), cut_width(ws, max_width - 3) + 3)
    }
}

/// `s` fitted into `max_width` columns by its display widths.
pub open spec fn truncate_spec(s: Seq<char>, max_width: int) -> (Seq<char>, int) {
    truncate_with(s, widths0_of(s), str_columns(s) as int, max_width)
}

/// Shortens `s` to at most `max_width` columns (or to "..." where fewer than
/// four are available), and returns the columns the result takes.
pub fn truncate_to_width(s: &str, max_width: usize) -> (r: (String, usize))
    ensures
        r.0@ == truncate_spec(s@, max_width as int).0,
        r.1 as int == truncate_spec(s@, max_width as int).1,
{
    let total = str_width(s);
    let chars = chars_of(s);
    let mut widths: Vec<usize> = Vec::new();
    let mut i: usize = 0;
    while i < chars.len()
        invariant
            i <= chars@.len(),
            ints(widths@) == widths0_of(chars@.take(i as int)),
        decreases chars@.len() - i,
    {
        let w = match char_width(chars[i]) {
            Some(w) => w,
            None => 0,
        };
        widths.push(w);
        assert(ints(widths@) =~= ints(widths@.drop_last()).push(w as int));
        assert(widths0_of(chars@.take(i + 1)) =~= widths0_of(chars@.take(i as int)).push(col0(chars@[i as int])));
        i = i + 1;
    }
    assert(chars@.take(i as int) =~= chars@);
    truncate_chars(&chars, &widths, total, max_width)
}

/// Shortens the characters `chars`, of the widths `widths` and `total`
/// columns in all, to at most `max_width` columns, and returns the columns
/// the result takes.
pub fn truncate_chars(chars: &Vec<char>, widths: &Vec<usize>, total: usize, max_width: usize) -> (r: (String, usize))
    requires
        widths@.len() == chars@.len(),
    ensures
        r.0@ == truncate_with(chars@, ints(widths@), total as int, max_width as int).0,
        r.1 as int == truncate_with(chars@, ints(widths@), total as int, max_width as int).1,
{
    if total <= max_width {
        return (crate::editor::string_of(chars), total);
    }
    if max_width <= 3 {
        let dots = "...".to_string();
        proof { reveal_strlit("..."); }
        assert(dots@ =~= ellipsis());
        return (dots, 3);
    }
    let ghost ws = ints(widths@);
    let target = max_width - 3;
    let mut current_width: usize = 0;
    let mut result = String::new();
    let mut i: usize = 0;
    assert(ws.skip(0) =~= ws);
    loop
        invariant
            widths@.len() == chars@.len(),
            ws == ints(widths@),
            i <= chars@.len(),
            current_width <= target,
            cut_len(ws, target as int) == i + cut_len(ws.skip(i as int), target - current_width),
            cut_width(ws, target as int) == current_width + cut_width(ws.skip(i as int), target - current_width),
            result@ == chars@.take(i as int),
        ensures
            i <= chars@.len(),
            current_width <= target,
            cut_len(ws, target as int) == i,
            cut_width(ws, target as int) == current_width,
            result@ == chars@.take(i as int),
        decreases chars@.len() - i,
    {
        if i == chars.len() {
            assert(ws.skip(i as int).len() == 0);
            break;
        }
        let c = chars[i];
        let cw = widths[i];
        assert(ws.skip(i as int)[0] == cw as int);
        if cw > target - current_width {
            break;
        }
        assert(ws.skip(i as int).drop_first() =~= ws.skip(i + 1));
        push_char(&mut result, c);
        assert(chars@.take(i + 1) =~= chars@.take(i as int).push(c));
        current_width = current_width + cw;
        i = i + 1;
    }
    let ghost kept = result@;
    result.append("...");
    proof { reveal_strlit("..."); }
    assert(result@ =~= kept + ellipsis());
    (result, current_width + 3)
}

proof fn lemma_cut_width(ws: Seq<int>, budget: int)
    requires
        budget >= 0,
        forall|i: int| 0 <= i < ws.len() ==> #[trigger] ws[i] >= 0,
    ensures
        0 <= cut_width(ws, budget) <= budget,
        cut_len(ws, budget) <= ws.len(),
    decreases ws.len(),
{
    if ws.len() > 0 && ws[0] <= budget {
        let t = ws.drop_first();
        assert forall|i: int| 0 <= i < t.len() implies #[trigger] t[i] >= 0 by {
            assert(t[i] == ws[i + 1]);
        }
        lemma_cut_width(t, budget - ws[0]);
    }
}

/// A shortened title takes at most the columns it was given (three, for
/// "...", where it was given fewer), and a title that fits is not changed.
pub proof fn law_truncate_fits(s: Seq<char>, max_width: int)
    requires
        max_width >= 0,
    ensures
        truncate_spec(s, max_width).1 <= if max_width < 3 { 3 } else { max_width },
        str_columns(s) <= max_width ==> truncate_spec(s, max_width).0 == s,
        str_columns(s) > max_width && max_width > 3 ==> truncate_spec(s, max_width).0 == s.take(
            cut_len(widths0_of(s), max_width - 3) as int,
        ) + ellipsis(),
{
    if str_columns(s) > max_width && max_width > 3 {
        lemma_cut_width(widths0_of(s), max_width - 3);
    }
}

} // verus!
