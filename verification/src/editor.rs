use vstd::prelude::*;
use core::ops::Range;
use crate::text::{chars_of, push_char};
use crate::width::{char_columns, char_width};

verus! {

/// The columns a character takes in the input box: its display width, and
/// one column for a control character.
pub open spec fn col(c: char) -> int {
    match char_columns(c) {
        Some(w) => w as int,
        None => 1,
    }
}

/// The columns of each character of `s`.
pub open spec fn widths_of(s: Seq<char>) -> Seq<int> {
    s.map_values(|c: char| col(c))
}

/// The widths as integers.
pub open spec fn ints(ws: Seq<usize>) -> Seq<int> {
    ws.map_values(|w: usize| w as int)
}

/// The total of a run of widths.
pub open spec fn sum_of(ws: Seq<int>) -> int
    decreases ws.len(),
{
    if ws.len() == 0 {
        0
    } else {
        sum_of(ws.drop_last()) + ws.last()
    }
}

/// The columns of each character, as the input box counts them.
pub fn column_widths(chars: &Vec<char>) -> (r: Vec<usize>)
    ensures
        r@.len() == chars@.len(),
        ints(r@) == widths_of(chars@),
{
    let mut r: Vec<usize> = Vec::new();
    let mut i: usize = 0;
    while i < chars.len()
        invariant
            i <= chars@.len(),
            ints(r@) == widths_of(chars@.take(i as int)),
        decreases chars@.len() - i,
    {
        let w = match char_width(chars[i]) {
            Some(w) => w,
            None => 1,
        };
        r.push(w);
        assert(ints(r@) =~= ints(r@.drop_last()).push(w as int));
        assert(widths_of(chars@.take(i + 1)) =~= widths_of(chars@.take(i as int)).push(col(chars@[i as int])));
        i = i + 1;
    }
    assert(chars@.take(i as int) =~= chars@);
    r
}

/// Where the wrapping of a text stands after some of its characters.
pub struct WrapState {
    /// The finished lines.
    pub lines: Seq<Seq<char>>,
    /// The character ranges of the finished lines (a line broken by a
    /// newline includes it).
    pub ranges: Seq<(int, int)>,
    /// The line being filled.
    pub cur: Seq<char>,
    /// Its columns.
    pub width: int,
    /// The index of its first character.
    pub start: int,
    /// Line and column of the cursor, once passed.
    pub cursor: Option<(int, int)>,
}

/// The wrapping before any character.
pub open spec fn wrap_start() -> WrapState {
    WrapState { lines: seq![], ranges: seq![], cur: seq![], width: 0, start: 0, cursor: None }
}

/// The finished line, its range, and a fresh line starting at `next`.
pub open spec fn break_line(s: WrapState, end: int, next: int) -> WrapState {
    WrapState {
        lines: s.lines.push(s.cur),
        ranges: s.ranges.push((s.start, end)),
        cur: seq![],
        width: 0,
        start: next,
        cursor: s.cursor,
    }
}

/// A character `cw` columns wide does not fit on a line that already holds
/// something.
pub open spec fn overflows(s: WrapState, cw: int, max_width: int) -> bool {
    s.width + cw > max_width && s.width > 0
}

/// Wrapping one more character, the one at `i`, whose width is `ws[i]`: the
/// cursor is noted when it stands before it; a newline ends the line (and
/// belongs to its range); a character that does not fit starts a new line,
/// on which it is placed.
pub open spec fn wrap_step(s: WrapState, chars: Seq<char>, ws: Seq<int>, max_width: int, cursor: int, i: int) -> WrapState {
    let c = chars[i];
    let s1 = if i == cursor {
        WrapState { cursor: Some((s.lines.len() as int, s.width)), ..s }
    } else {
        s
    };
    if c == '\n' {
        break_line(s1, i + 1, i + 1)
    } else {
        let s2 = if overflows(s1, ws[i], max_width) {
            break_line(s1, i, i)
        } else {
            s1
        };
        WrapState { cur: s2.cur.push(c), width: s2.width + ws[i], ..s2 }
    }
}

/// The wrapping after the first `n` characters.
pub open spec fn wrap_prefix(chars: Seq<char>, ws: Seq<int>, max_width: int, cursor: int, n: nat) -> WrapState
    decreases n,
{
    if n == 0 {
        wrap_start()
    } else {
        wrap_step(wrap_prefix(chars, ws, max_width, cursor, (n - 1) as nat), chars, ws, max_width, cursor, n - 1)
    }
}

/// A wrapped text as plain values.
#[verifier::ext_equal]
pub struct WrappedView {
    pub lines: Seq<Seq<char>>,
    pub cursor_line: int,
    pub cursor_col: int,
    pub ranges: Seq<(int, int)>,
}

/// The width wrapping works with: at least one column.
pub open spec fn box_width(max_width: int) -> int {
    if max_width < 1 { 1 } else { max_width }
}

/// `chars`, whose characters have the widths `ws`, wrapped to lines of at
/// most `max_width` columns (a character wider than that gets a line of its
/// own), breaking at each newline, with the line and column in front of the
/// character at `cursor` (at the end of the text where `cursor` is past it).
pub open spec fn wrap_with(chars: Seq<char>, ws: Seq<int>, max_width: int, cursor: int) -> WrappedView {
    let s = wrap_prefix(chars, ws, box_width(max_width), cursor, chars.len());
    let at: (int, int) = match s.cursor {
        Some(p) => p,
        None => if cursor >= chars.len() { (s.lines.len() as int, s.width) } else { (0, 0) },
    };
    WrappedView {
        lines: s.lines.push(s.cur),
        cursor_line: at.0,
        cursor_col: at.1,
        ranges: s.ranges.push((s.start, chars.len() as int)),
    }
}

/// The text wrapped with the display widths of its characters.
pub open spec fn wrap_spec(chars: Seq<char>, max_width: int, cursor: int) -> WrappedView {
    wrap_with(chars, widths_of(chars), max_width, cursor)
}

/// A text of the input box broken into display lines, with the cursor's line
/// and column, and the character range of each line.
#[derive(Debug, PartialEq, Eq)]
pub struct WrappedInput {
    pub lines: Vec<String>,
    pub cursor_line: usize,
    pub cursor_col: usize,
    pub line_char_ranges: Vec<Range<usize>>,
}

/// The display lines as character sequences.
pub open spec fn lines_view(lines: Seq<String>) -> Seq<Seq<char>> {
    lines.map_values(|l: String| l@)
}

/// The character ranges as pairs of start and end.
pub open spec fn ranges_view(ranges: Seq<Range<usize>>) -> Seq<(int, int)> {
    ranges.map_values(|r: Range<usize>| (r.start as int, r.end as int))
}

impl View for WrappedInput {
    type V = WrappedView;

    open spec fn view(&self) -> WrappedView {
        WrappedView {
            lines: lines_view(self.lines@),
            cursor_line: self.cursor_line as int,
            cursor_col: self.cursor_col as int,
            ranges: ranges_view(self.line_char_ranges@),
        }
    }
}

/// Wraps `text` to lines of `max_width` columns (at least one), and finds the
/// line and column of the character at `cursor_char_idx`.
pub fn wrap_input_text(text: &str, max_width: usize, cursor_char_idx: usize) -> (r: WrappedInput)
    ensures
        r@ == wrap_spec(text@, max_width as int, cursor_char_idx as int),
{
    let chars = chars_of(text);
    let widths = column_widths(&chars);
    wrap_chars(&chars, &widths, max_width, cursor_char_idx)
}

/// Wraps the characters `chars`, whose widths are `widths`, to lines of
/// `max_width` columns (at least one), and finds the line and column of the
/// character at `cursor_char_idx`.
pub fn wrap_chars(chars: &Vec<char>, widths: &Vec<usize>, max_width: usize, cursor_char_idx: usize) -> (r: WrappedInput)
    requires
        widths@.len() == chars@.len(),
    ensures
        r@ == wrap_with(chars@, ints(widths@), max_width as int, cursor_char_idx as int),
{
    let ghost requested = max_width as int;
    let ghost ws = ints(widths@);
    let max_width = if max_width < 1 { 1 } else { max_width };
    let ghost w = max_width as int;
    let ghost cur_idx = cursor_char_idx as int;
    let mut lines: Vec<String> = Vec::new();
    let mut line_char_ranges: Vec<Range<usize>> = Vec::new();
    let mut current_line = String::new();
    let mut current_width: usize = 0;
    let mut line_start_char: usize = 0;
    let mut cursor_pos: Option<(usize, usize)> = None;
    let mut i: usize = 0;
    while i < chars.len()
        invariant
            widths@.len() == chars@.len(),
            ws == ints(widths@),
            w == max_width as int,
            w >= 1,
            cur_idx == cursor_char_idx as int,
            i <= chars@.len(),
            ({
                let s = wrap_prefix(chars@, ws, w, cur_idx, i as nat);
                &&& lines_view(lines@) == s.lines
                &&& ranges_view(line_char_ranges@) == s.ranges
                &&& current_line@ == s.cur
                &&& current_width as int == s.width
                &&& line_start_char as int == s.start
                &&& match cursor_pos {
                    Some(p) => s.cursor == Some((p.0 as int, p.1 as int)),
                    None => s.cursor is None,
                }
            }),
            lines@.len() <= i,
            line_start_char <= i,
        decreases chars@.len() - i,
    {
        let ghost s0 = wrap_prefix(chars@, ws, w, cur_idx, i as nat);
        let c = chars[i];
        if i == cursor_char_idx {
            cursor_pos = Some((lines.len(), current_width));
        }
        if c == '\n' {
            let line = current_line;
            lines.push(line);
            line_char_ranges.push(line_start_char..i + 1);
            current_line = String::new();
            current_width = 0;
            line_start_char = i + 1;
            proof {
                assert(lines_view(lines@) =~= lines_view(lines@.drop_last()).push(lines@.last()@));
                assert(ranges_view(line_char_ranges@) =~= ranges_view(line_char_ranges@.drop_last()).push(
                    (line_char_ranges@.last().start as int, line_char_ranges@.last().end as int),
                ));
            }
        } else {
            let cw = widths[i];
            assert(ws[i as int] == cw as int);
            if current_width > 0 && (current_width > max_width || cw > max_width - current_width) {
                let line = current_line;
                lines.push(line);
                line_char_ranges.push(line_start_char..i);
                current_line = String::new();
                current_width = 0;
                line_start_char = i;
                proof {
                    assert(lines_view(lines@) =~= lines_view(lines@.drop_last()).push(lines@.last()@));
                    assert(ranges_view(line_char_ranges@) =~= ranges_view(line_char_ranges@.drop_last()).push(
                        (line_char_ranges@.last().start as int, line_char_ranges@.last().end as int),
                    ));
                }
            }
            push_char(&mut current_line, c);
            current_width = current_width + cw;
        }
        i = i + 1;
        assert(wrap_prefix(chars@, ws, w, cur_idx, i as nat) == wrap_step(s0, chars@, ws, w, cur_idx, i - 1));
    }
    if cursor_pos.is_none() && cursor_char_idx >= chars.len() {
        cursor_pos = Some((lines.len(), current_width));
    }
    line_char_ranges.push(line_start_char..chars.len());
    lines.push(current_line);
    proof {
        assert(lines_view(lines@) =~= lines_view(lines@.drop_last()).push(lines@.last()@));
        assert(ranges_view(line_char_ranges@) =~= ranges_view(line_char_ranges@.drop_last()).push(
            (line_char_ranges@.last().start as int, line_char_ranges@.last().end as int),
        ));
    }
    let (cursor_line, cursor_col) = match cursor_pos {
        Some(p) => p,
        None => (0, 0),
    };
    let r = WrappedInput { lines, cursor_line, cursor_col, line_char_ranges };
    assert(box_width(requested) == w);
    assert(r@ =~= wrap_with(chars@, ws, requested, cur_idx));
    r
}

/// The character at `p` ends the walk along its line towards a column: it is
/// a newline, or it would reach past `target_col`.
pub open spec fn stops_at(chars: Seq<char>, ws: Seq<int>, start: int, p: int, target_col: int) -> bool {
    chars[p] == '\n' || sum_of(ws.subrange(start, p)) + ws[p] > target_col
}

/// The end of a line's range, cut to the text.
pub open spec fn range_end(chars: Seq<char>, range: (int, int)) -> int {
    if range.1 < chars.len() { range.1 } else { chars.len() as int }
}

/// The character index that column `target_col` of display line
/// `target_line` falls on, the characters having the widths `ws`: the first
/// character of the line that is a newline or would reach past the column;
/// the end of the line where there is none; the end of the text where the
/// line does not exist.
pub open spec fn char_at_with(chars: Seq<char>, ws: Seq<int>, ranges: Seq<(int, int)>, target_line: int, target_col: int) -> int {
    if target_line >= ranges.len() {
        chars.len() as int
    } else {
        let start = ranges[target_line].0;
        let end = range_end(chars, ranges[target_line]);
        if exists|p: int| start <= p < end && #[trigger] stops_at(chars, ws, start, p, target_col) {
            choose|p: int|
                start <= p < end && #[trigger] stops_at(chars, ws, start, p, target_col) && forall|q: int|
                    start <= q < p ==> !#[trigger] stops_at(chars, ws, start, q, target_col)
        } else if end > start && chars[end - 1] == '\n' {
            end - 1
        } else {
            end
        }
    }
}

/// The same, with the display widths of the characters.
pub open spec fn char_at_spec(chars: Seq<char>, ranges: Seq<(int, int)>, target_line: int, target_col: int) -> int {
    char_at_with(chars, widths_of(chars), ranges, target_line, target_col)
}

proof fn lemma_first_stop(chars: Seq<char>, ws: Seq<int>, start: int, end: int, target_col: int, p: int)
    requires
        start <= p < end,
        stops_at(chars, ws, start, p, target_col),
        forall|q: int| start <= q < p ==> !#[trigger] stops_at(chars, ws, start, q, target_col),
    ensures
        (choose|x: int|
            start <= x < end && #[trigger] stops_at(chars, ws, start, x, target_col) && forall|q: int|
                start <= q < x ==> !#[trigger] stops_at(chars, ws, start, q, target_col)) == p,
{
    let x = choose|x: int|
        start <= x < end && #[trigger] stops_at(chars, ws, start, x, target_col) && forall|q: int|
            start <= q < x ==> !#[trigger] stops_at(chars, ws, start, q, target_col);
    assert(start <= x < end && stops_at(chars, ws, start, x, target_col));
    if x < p {
        assert(!stops_at(chars, ws, start, x, target_col));
    }
    if x > p {
        assert(!stops_at(chars, ws, start, p, target_col));
    }
}

/// The character index that column `target_col` of display line
/// `target_line` of the wrapped `text` falls on.
pub fn char_at_line_col(text: &str, wrapped: &WrappedInput, target_line: usize, target_col: usize) -> (r: usize)
    requires
        target_line < wrapped@.ranges.len() ==> wrapped@.ranges[target_line as int].0 <= range_end(
            text@,
            wrapped@.ranges[target_line as int],
        ),
    ensures
        r == char_at_spec(text@, wrapped@.ranges, target_line as int, target_col as int),
{
    let chars = chars_of(text);
    let widths = column_widths(&chars);
    char_at_chars(&chars, &widths, wrapped, target_line, target_col)
}

/// The character index that column `target_col` of display line
/// `target_line` of `wrapped` falls on, the characters `chars` having the
/// widths `widths`.
pub fn char_at_chars(chars: &Vec<char>, widths: &Vec<usize>, wrapped: &WrappedInput, target_line: usize, target_col: usize) -> (r: usize)
    requires
        widths@.len() == chars@.len(),
        target_line < wrapped@.ranges.len() ==> wrapped@.ranges[target_line as int].0 <= range_end(
            chars@,
            wrapped@.ranges[target_line as int],
        ),
    ensures
        r == char_at_with(chars@, ints(widths@), wrapped@.ranges, target_line as int, target_col as int),
{
    if target_line >= wrapped.line_char_ranges.len() {
        return chars.len();
    }
    let ghost ws = ints(widths@);
    let range = &wrapped.line_char_ranges[target_line];
    let start = range.start;
    let end = if range.end < chars.len() { range.end } else { chars.len() };
    let ghost tl = target_line as int;
    let ghost tc = target_col as int;
    assert(wrapped@.ranges[tl] == (start as int, range.end as int));
    assert(end as int == range_end(chars@, wrapped@.ranges[tl]));
    let mut w: usize = 0;
    let mut p: usize = start;
    while p < end
        invariant
            widths@.len() == chars@.len(),
            ws == ints(widths@),
            start <= p <= end,
            end <= chars@.len(),
            w as int == sum_of(ws.subrange(start as int, p as int)),
            w <= target_col,
            tc == target_col as int,
            tl == target_line as int,
            0 <= tl < wrapped@.ranges.len(),
            wrapped@.ranges[tl].0 == start as int,
            end as int == range_end(chars@, wrapped@.ranges[tl]),
            forall|q: int| start <= q < p ==> !#[trigger] stops_at(chars@, ws, start as int, q, tc),
        decreases end - p,
    {
        let c = chars[p];
        if c == '\n' {
            assert(stops_at(chars@, ws, start as int, p as int, tc));
            proof { lemma_first_stop(chars@, ws, start as int, end as int, tc, p as int); }
            return p;
        }
        let cw = widths[p];
        assert(ws[p as int] == cw as int);
        if cw > target_col - w {
            assert(stops_at(chars@, ws, start as int, p as int, tc));
            proof { lemma_first_stop(chars@, ws, start as int, end as int, tc, p as int); }
            return p;
        }
        assert(ws.subrange(start as int, p + 1).drop_last() =~= ws.subrange(start as int, p as int));
        w = w + cw;
        p = p + 1;
    }
    if end > start && chars[end - 1] == '\n' {
        return end - 1;
    }
    end
}

/// Whether new text is being written or an item's title edited (at its
/// position in the store).
#[derive(Debug, Clone, Copy, PartialEq, Eq, Structural)]
pub enum InputState {
    Creating,
    Editing(usize),
}

/// The text being written in the input box, the cursor (a character index)
/// and the first display line shown.
#[derive(Debug, Clone, PartialEq, Eq)]
pub struct ActiveInput {
    pub mode: InputState,
    pub text: String,
    pub cursor: usize,
    pub scroll_top: usize,
}

/// The first line shown once the cursor's line `line` is brought into a view
/// of `height` lines that starts at `top`: it moves as little as it must.
pub open spec fn scroll_to_show(top: int, line: int, height: int) -> int {
    if line < top {
        line
    } else if line >= top + height {
        line + 1 - height
    } else {
        top
    }
}

/// The box height in lines that scrolling works with: at least one.
pub open spec fn box_height(height: int) -> int {
    if height < 1 { 1 } else { height }
}

/// Scrolls the input so that the cursor's line is among the `height` lines
/// shown (at least one) when the text is wrapped to `width` columns.
pub fn ensure_cursor_visible(input: &mut ActiveInput, width: usize, height: usize)
    ensures
        final(input).mode == old(input).mode,
        final(input).text == old(input).text,
        final(input).cursor == old(input).cursor,
        final(input).scroll_top == scroll_to_show(
            old(input).scroll_top as int,
            wrap_spec(old(input).text@, width as int, old(input).cursor as int).cursor_line,
            box_height(height as int),
        ),
{
    let height = if height < 1 { 1 } else { height };
    let wrapped = wrap_input_text(input.text.as_str(), width, input.cursor);
    if wrapped.cursor_line < input.scroll_top {
        input.scroll_top = wrapped.cursor_line;
    } else if wrapped.cursor_line - input.scroll_top >= height {
        input.scroll_top = wrapped.cursor_line - height + 1;
    }
}

/// The characters of a sequence as a string.
pub fn string_of(chars: &Vec<char>) -> (r: String)
    ensures
        r@ == chars@,
{
    let mut r = String::new();
    let mut i: usize = 0;
    while i < chars.len()
        invariant
            i <= chars@.len(),
            r@ == chars@.take(i as int),
        decreases chars@.len() - i,
    {
        push_char(&mut r, chars[i]);
        assert(chars@.take(i + 1) =~= chars@.take(i as int).push(chars@[i as int]));
        i = i + 1;
    }
    assert(chars@.take(i as int) =~= chars@);
    r
}

/// `text` with `c` inserted at character index `idx`.
pub fn insert_char_at(text: &String, idx: usize, c: char) -> (r: String)
    requires
        idx <= text@.len(),
    ensures
        r@ == text@.insert(idx as int, c),
{
    let mut chars = chars_of(text.as_str());
    chars.insert(idx, c);
    string_of(&chars)
}

/// `text` without the character at index `idx`.
pub fn remove_char_at(text: &String, idx: usize) -> (r: String)
    requires
        idx < text@.len(),
    ensures
        r@ == text@.remove(idx as int),
{
    let mut chars = chars_of(text.as_str());
    chars.remove(idx);
    string_of(&chars)
}

/// The input box as plain values.
#[verifier::ext_equal]
pub struct InputView {
    pub mode: InputState,
    pub text: Seq<char>,
    pub cursor: int,
    pub scroll_top: int,
}

impl View for ActiveInput {
    type V = InputView;

    open spec fn view(&self) -> InputView {
        InputView {
            mode: self.mode,
            text: self.text@,
            cursor: self.cursor as int,
            scroll_top: self.scroll_top as int,
        }
    }
}

/// Every finished range of a wrapping lies in order within the characters
/// seen so far, as does the start of the line being filled.
pub proof fn lemma_wrap_prefix_ranges(chars: Seq<char>, ws: Seq<int>, max_width: int, cursor: int, n: nat)
    requires
        n <= chars.len(),
    ensures
        ({
            let s = wrap_prefix(chars, ws, max_width, cursor, n);
            &&& 0 <= s.start <= n
            &&& forall|k: int| 0 <= k < s.ranges.len() ==> 0 <= #[trigger] s.ranges[k].0 <= s.ranges[k].1 <= s.start
        }),
    decreases n,
{
    if n > 0 {
        lemma_wrap_prefix_ranges(chars, ws, max_width, cursor, (n - 1) as nat);
        let s0 = wrap_prefix(chars, ws, max_width, cursor, (n - 1) as nat);
        assert(wrap_prefix(chars, ws, max_width, cursor, n) == wrap_step(s0, chars, ws, max_width, cursor, n - 1));
    }
}

/// Every range of a wrapped text lies in order within the text.
pub proof fn lemma_wrap_ranges(chars: Seq<char>, max_width: int, cursor: int)
    ensures
        forall|k: int|
            0 <= k < wrap_spec(chars, max_width, cursor).ranges.len() ==> 0 <= #[trigger] wrap_spec(
                chars,
                max_width,
                cursor,
            ).ranges[k].0 <= wrap_spec(chars, max_width, cursor).ranges[k].1 <= chars.len(),
{
    lemma_wrap_prefix_ranges(chars, widths_of(chars), box_width(max_width), cursor, chars.len());
}

/// Where the ranges lie within the text, the index that a line and column
/// fall on lies within it too.
pub proof fn lemma_char_at_in_text(chars: Seq<char>, ranges: Seq<(int, int)>, target_line: int, target_col: int)
    requires
        forall|k: int| 0 <= k < ranges.len() ==> 0 <= #[trigger] ranges[k].0 <= ranges[k].1 <= chars.len(),
        target_line >= 0,
    ensures
        0 <= char_at_spec(chars, ranges, target_line, target_col) <= chars.len(),
{
    let ws = widths_of(chars);
    if target_line < ranges.len() {
        let start = ranges[target_line].0;
        let end = range_end(chars, ranges[target_line]);
        if exists|p: int| start <= p < end && #[trigger] stops_at(chars, ws, start, p, target_col) {
            let w = choose|p: int| start <= p < end && #[trigger] stops_at(chars, ws, start, p, target_col);
            lemma_least_stop_exists(chars, ws, start, end, target_col, w);
        }
    }
}

/// Where some character stops the walk, a first one does.
#[verifier::rlimit(40)]
proof fn lemma_least_stop_exists(chars: Seq<char>, ws: Seq<int>, start: int, end: int, target_col: int, w: int)
    requires
        start <= w < end,
        stops_at(chars, ws, start, w, target_col),
    ensures
        exists|p: int|
            start <= p < end && #[trigger] stops_at(chars, ws, start, p, target_col) && forall|q: int|
                start <= q < p ==> !#[trigger] stops_at(chars, ws, start, q, target_col),
    decreases w - start,
{
    if exists|q: int| start <= q < w && #[trigger] stops_at(chars, ws, start, q, target_col) {
        let q = choose|q: int| start <= q < w && #[trigger] stops_at(chars, ws, start, q, target_col);
        lemma_least_stop_exists(chars, ws, start, end, target_col, q);
    } else {
        assert(start <= w < end && stops_at(chars, ws, start, w, target_col) && forall|q: int|
            start <= q < w ==> !#[trigger] stops_at(chars, ws, start, q, target_col));
    }
}

/// The text of a display line with range `r`: the characters of the range
/// without the newline that ends it.
pub open spec fn line_text(chars: Seq<char>, r: (int, int)) -> Seq<char> {
    if r.0 < r.1 && chars[r.1 - 1] == '\n' {
        chars.subrange(r.0, r.1 - 1)
    } else {
        chars.subrange(r.0, r.1)
    }
}

/// A line is within `max_width` columns, or all but its last character take
/// no columns.
pub open spec fn fits(line_ws: Seq<int>, max_width: int) -> bool {
    sum_of(line_ws) <= max_width || sum_of(line_ws.drop_last()) == 0
}

/// What holds of a wrapping after `n` characters: the ranges follow each
/// other from the first character to the start of the line being filled;
/// each finished line is the text of its range and fits; the line being
/// filled is the text since its start, holds no newline, fits, and its width
/// is its columns; and the cursor, once passed, is on a finished line or on
/// the line being filled.
pub open spec fn wrap_inv(chars: Seq<char>, ws: Seq<int>, max_width: int, n: int, s: WrapState) -> bool {
    &&& 0 <= s.start <= n <= chars.len()
    &&& s.ranges.len() == s.lines.len()
    &&& (s.ranges.len() == 0 ==> s.start == 0)
    &&& (s.ranges.len() > 0 ==> s.ranges[0].0 == 0 && s.ranges.last().1 == s.start)
    &&& forall|k: int| 0 <= k < s.ranges.len() - 1 ==> (#[trigger] s.ranges[k]).1 == s.ranges[k + 1].0
    &&& forall|k: int| 0 <= k < s.ranges.len() ==> (#[trigger] s.ranges[k]).0 <= s.ranges[k].1
    &&& forall|k: int| 0 <= k < s.lines.len() ==> #[trigger] s.lines[k] == line_text(chars, s.ranges[k])
    &&& forall|k: int| 0 <= k < s.lines.len() ==> fits(
        ws.subrange(s.ranges[k].0, s.ranges[k].0 + (#[trigger] s.lines[k]).len()),
        max_width,
    )
    &&& s.cur == chars.subrange(s.start, n)
    &&& !s.cur.contains('\n')
    &&& s.width == sum_of(ws.subrange(s.start, n))
    &&& fits(ws.subrange(s.start, n), max_width)
    &&& (s.cursor matches Some(p) ==> 0 <= p.0 <= s.lines.len())
}

proof fn lemma_sum_nonneg(ws: Seq<int>)
    requires
        forall|i: int| 0 <= i < ws.len() ==> #[trigger] ws[i] >= 0,
    ensures
        sum_of(ws) >= 0,
    decreases ws.len(),
{
    if ws.len() > 0 {
        lemma_sum_nonneg(ws.drop_last());
    }
}

#[verifier::rlimit(60)]
proof fn lemma_wrap_inv(chars: Seq<char>, ws: Seq<int>, max_width: int, cursor: int, n: nat)
    requires
        n <= chars.len(),
        ws.len() == chars.len(),
        max_width >= 1,
        forall|i: int| 0 <= i < ws.len() ==> #[trigger] ws[i] >= 0,
    ensures
        wrap_inv(chars, ws, max_width, n as int, wrap_prefix(chars, ws, max_width, cursor, n)),
    decreases n,
{
    if n == 0 {
        assert(chars.subrange(0, 0) =~= Seq::<char>::empty());
        assert(ws.subrange(0, 0) =~= Seq::<int>::empty());
    } else {
        let i = n - 1;
        let s0 = wrap_prefix(chars, ws, max_width, cursor, i as nat);
        lemma_wrap_inv(chars, ws, max_width, cursor, i as nat);
        let c = chars[i];
        let s1 = if i == cursor {
            WrapState { cursor: Some((s0.lines.len() as int, s0.width)), ..s0 }
        } else {
            s0
        };
        let s = wrap_prefix(chars, ws, max_width, cursor, n);
        assert(s == wrap_step(s0, chars, ws, max_width, cursor, i));
        if c == '\n' {
            assert(s == break_line(s1, i + 1, i + 1));
            assert(line_text(chars, (s1.start, i + 1)) =~= s1.cur);
            assert(chars.subrange(i + 1, n as int) =~= Seq::<char>::empty());
            assert(ws.subrange(i + 1, n as int) =~= Seq::<int>::empty());
            assert(ws.subrange(s1.start, s1.start + s1.cur.len()) =~= ws.subrange(s1.start, i));
            assert forall|k: int| 0 <= k < s.lines.len() implies fits(
                ws.subrange(s.ranges[k].0, s.ranges[k].0 + (#[trigger] s.lines[k]).len()),
                max_width,
            ) by {
                if k < s0.lines.len() {
                    assert(s.lines[k] == s0.lines[k] && s.ranges[k] == s0.ranges[k]);
                }
            }
        } else {
            let s2 = if overflows(s1, ws[i], max_width) {
                break_line(s1, i, i)
            } else {
                s1
            };
            if overflows(s1, ws[i], max_width) {
                assert(s1.start < i) by {
                    if s1.start == i {
                        assert(ws.subrange(i, i) =~= Seq::<int>::empty());
                    }
                }
                assert(chars[i - 1] == s1.cur.last());
                assert(line_text(chars, (s1.start, i)) =~= s1.cur);
                assert(chars.subrange(i, i) =~= Seq::<char>::empty());
                assert(ws.subrange(i, i) =~= Seq::<int>::empty());
                assert(ws.subrange(s1.start, s1.start + s1.cur.len()) =~= ws.subrange(s1.start, i));
                assert forall|k: int| 0 <= k < s2.lines.len() implies fits(
                    ws.subrange(s2.ranges[k].0, s2.ranges[k].0 + (#[trigger] s2.lines[k]).len()),
                    max_width,
                ) by {
                    if k < s0.lines.len() {
                        assert(s2.lines[k] == s0.lines[k] && s2.ranges[k] == s0.ranges[k]);
                    }
                }
            }
            assert(s2.cur.push(c) =~= chars.subrange(s2.start, n as int));
            let sub = ws.subrange(s2.start, n as int);
            assert(sub.drop_last() =~= ws.subrange(s2.start, i));
            assert(sum_of(sub) == sum_of(ws.subrange(s2.start, i)) + ws[i]);
            assert(s2.width == sum_of(ws.subrange(s2.start, i)));
            assert(fits(sub, max_width)) by {
                if s2.width == 0 {
                    assert(sum_of(sub.drop_last()) == 0);
                } else {
                    lemma_sum_nonneg(ws.subrange(s2.start, i));
                    assert(!overflows(s1, ws[i], max_width));
                    assert(s2 == s1);
                    assert(s1.width + ws[i] <= max_width);
                    assert(sum_of(sub) <= max_width);
                }
            }
            assert(!s2.cur.push(c).contains('\n')) by {
                if s2.cur.push(c).contains('\n') {
                    let k = choose|k: int| 0 <= k < s2.cur.push(c).len() && s2.cur.push(c)[k] == '\n';
                    if k < s2.cur.len() {
                        assert(s2.cur.contains('\n'));
                    }
                }
            }
        }
    }
}

/// The lines of a wrapped text cover it: the ranges follow each other from
/// its first character to its end, each line is the text of its range (less
/// the newline that ends it), each line fits the width of the box unless all
/// but its last character take no columns, and the cursor stands on one of
/// the lines.
pub proof fn law_wrap_covers_text(chars: Seq<char>, ws: Seq<int>, max_width: int, cursor: int)
    requires
        ws.len() == chars.len(),
        forall|i: int| 0 <= i < ws.len() ==> #[trigger] ws[i] >= 0,
    ensures
        ({
            let w = wrap_with(chars, ws, max_width, cursor);
            &&& w.lines.len() == w.ranges.len()
            &&& w.ranges.len() >= 1
            &&& w.ranges[0].0 == 0
            &&& w.ranges.last().1 == chars.len()
            &&& forall|k: int| 0 <= k < w.ranges.len() - 1 ==> (#[trigger] w.ranges[k]).1 == w.ranges[k + 1].0
            &&& forall|k: int| 0 <= k < w.lines.len() ==> #[trigger] w.lines[k] == line_text(chars, w.ranges[k])
            &&& forall|k: int| 0 <= k < w.lines.len() ==> fits(
                ws.subrange(w.ranges[k].0, w.ranges[k].0 + (#[trigger] w.lines[k]).len()),
                box_width(max_width),
            )
            &&& 0 <= w.cursor_line < w.lines.len()
        }),
{
    let mw = box_width(max_width);
    let s = wrap_prefix(chars, ws, mw, cursor, chars.len());
    lemma_wrap_inv(chars, ws, mw, cursor, chars.len());
    let w = wrap_with(chars, ws, max_width, cursor);
    assert(w.ranges == s.ranges.push((s.start, chars.len() as int)));
    assert(w.lines == s.lines.push(s.cur));
    assert forall|k: int| 0 <= k < w.ranges.len() - 1 implies (#[trigger] w.ranges[k]).1 == w.ranges[k + 1].0 by {
        if k < s.ranges.len() - 1 {
            assert(w.ranges[k] == s.ranges[k] && w.ranges[k + 1] == s.ranges[k + 1]);
        }
    }
    assert forall|k: int| 0 <= k < w.lines.len() implies #[trigger] w.lines[k] == line_text(chars, w.ranges[k]) by {
        if k == s.lines.len() {
            if s.start < chars.len() {
                assert(s.cur.last() == chars[chars.len() - 1]);
                assert(s.cur.contains(s.cur.last()));
            }
            assert(line_text(chars, (s.start, chars.len() as int)) =~= s.cur);
        } else {
            assert(w.lines[k] == s.lines[k] && w.ranges[k] == s.ranges[k]);
        }
    }
    assert forall|k: int| 0 <= k < w.lines.len() implies fits(
        ws.subrange(w.ranges[k].0, w.ranges[k].0 + (#[trigger] w.lines[k]).len()),
        mw,
    ) by {
        if k == s.lines.len() {
            assert(ws.subrange(s.start, s.start + s.cur.len()) =~= ws.subrange(s.start, chars.len() as int));
        } else {
            assert(w.lines[k] == s.lines[k] && w.ranges[k] == s.ranges[k]);
        }
    }
}

} // verus!

verus! {

/// What holds of the cursor after `n` characters are wrapped: it is noted
/// once passed; noted on the line being filled, it lies in that line before
/// its end; noted on a finished line, it lies within that line's range; and
/// its column is the width of the characters of its line before it.
pub open spec fn cursor_inv(chars: Seq<char>, ws: Seq<int>, cursor: int, n: int, s: WrapState) -> bool {
    &&& (s.cursor is None <==> cursor >= n)
    &&& (s.cursor matches Some(p) ==> if p.0 == s.lines.len() {
        &&& s.start <= cursor < n
        &&& p.1 == sum_of(ws.subrange(s.start, cursor))
    } else {
        &&& 0 <= p.0 < s.lines.len()
        &&& s.ranges[p.0].0 <= cursor <= s.ranges[p.0].1
        &&& p.1 == sum_of(ws.subrange(s.ranges[p.0].0, cursor))
        &&& forall|q: int| s.ranges[p.0].0 <= q < cursor ==> chars[q] != '\n'
    })
}

proof fn lemma_wrap_cursor_inv(chars: Seq<char>, ws: Seq<int>, max_width: int, cursor: int, n: nat)
    requires
        n <= chars.len(),
        ws.len() == chars.len(),
        max_width >= 1,
        forall|i: int| 0 <= i < ws.len() ==> #[trigger] ws[i] >= 0,
        cursor >= 0,
    ensures
        cursor_inv(chars, ws, cursor, n as int, wrap_prefix(chars, ws, max_width, cursor, n)),
    decreases n,
{
    if n > 0 {
        let i = n - 1;
        let s0 = wrap_prefix(chars, ws, max_width, cursor, i as nat);
        lemma_wrap_cursor_inv(chars, ws, max_width, cursor, i as nat);
        lemma_wrap_inv(chars, ws, max_width, cursor, i as nat);
        let s = wrap_prefix(chars, ws, max_width, cursor, n);
        assert(s == wrap_step(s0, chars, ws, max_width, cursor, i));
        let s1 = if i == cursor {
            WrapState { cursor: Some((s0.lines.len() as int, s0.width)), ..s0 }
        } else {
            s0
        };
        assert forall|q: int| s0.start <= q < i implies chars[q] != '\n' by {
            assert(s0.cur[q - s0.start] == chars[q]);
        }
        if chars[i] == '\n' {
            assert(s == break_line(s1, i + 1, i + 1));
        } else if overflows(s1, ws[i], max_width) {
            let s2 = break_line(s1, i, i);
            assert(s == WrapState { cur: s2.cur.push(chars[i]), width: s2.width + ws[i], ..s2 });
        }
    }
}

/// The cursor's line and column name it: the cursor lies within the range
/// of its line, and its column is the width of the characters of that line
/// before it.
pub proof fn law_wrap_cursor(chars: Seq<char>, ws: Seq<int>, max_width: int, cursor: int)
    requires
        ws.len() == chars.len(),
        forall|i: int| 0 <= i < ws.len() ==> #[trigger] ws[i] >= 0,
        0 <= cursor <= chars.len(),
    ensures
        ({
            let w = wrap_with(chars, ws, max_width, cursor);
            &&& 0 <= w.cursor_line < w.ranges.len()
            &&& w.ranges[w.cursor_line].0 <= cursor <= w.ranges[w.cursor_line].1
            &&& w.cursor_col == sum_of(ws.subrange(w.ranges[w.cursor_line].0, cursor))
            &&& forall|q: int| w.ranges[w.cursor_line].0 <= q < cursor ==> chars[q] != '\n'
        }),
{
    let mw = box_width(max_width);
    lemma_wrap_cursor_inv(chars, ws, mw, cursor, chars.len());
    lemma_wrap_inv(chars, ws, mw, cursor, chars.len());
    let s = wrap_prefix(chars, ws, mw, cursor, chars.len());
    let w = wrap_with(chars, ws, max_width, cursor);
    assert(w.ranges == s.ranges.push((s.start, chars.len() as int)));
    assert forall|q: int| s.start <= q < chars.len() implies chars[q] != '\n' by {
        assert(s.cur[q - s.start] == chars[q]);
    }
}

} // verus!

verus! {

proof fn lemma_sum_step(ws: Seq<int>, a: int, b: int)
    requires
        0 <= a <= b < ws.len(),
    ensures
        sum_of(ws.subrange(a, b + 1)) == sum_of(ws.subrange(a, b)) + ws[b],
{
    assert(ws.subrange(a, b + 1).drop_last() =~= ws.subrange(a, b));
}

proof fn lemma_sum_grows(ws: Seq<int>, a: int, b: int, c: int)
    requires
        0 <= a <= b <= c <= ws.len(),
        forall|i: int| 0 <= i < ws.len() ==> #[trigger] ws[i] >= 0,
    ensures
        sum_of(ws.subrange(a, b)) <= sum_of(ws.subrange(a, c)),
    decreases c - b,
{
    if b < c {
        lemma_sum_grows(ws, a, b, c - 1);
        lemma_sum_step(ws, a, c - 1);
    }
}

/// Where every character takes at least one column, the index that the
/// cursor's own line and column fall on is the cursor: moving to where the
/// cursor is shown leaves it where it is.
pub proof fn law_char_at_cursor(chars: Seq<char>, max_width: int, cursor: int)
    requires
        0 <= cursor <= chars.len(),
        forall|i: int| 0 <= i < chars.len() ==> col(#[trigger] chars[i]) >= 1,
    ensures
        ({
            let w = wrap_spec(chars, max_width, cursor);
            char_at_spec(chars, w.ranges, w.cursor_line, w.cursor_col) == cursor
        }),
{
    let ws = widths_of(chars);
    let w = wrap_spec(chars, max_width, cursor);
    assert forall|i: int| 0 <= i < ws.len() implies #[trigger] ws[i] >= 1 by {
        assert(ws[i] == col(chars[i]));
    }
    law_wrap_cursor(chars, ws, max_width, cursor);
    lemma_wrap_ranges(chars, max_width, cursor);
    let l = w.cursor_line;
    let start = w.ranges[l].0;
    let end = range_end(chars, w.ranges[l]);
    let tc = w.cursor_col;
    assert(end == w.ranges[l].1);
    assert forall|q: int| start <= q < cursor implies !#[trigger] stops_at(chars, ws, start, q, tc) by {
        lemma_sum_step(ws, start, q);
        lemma_sum_grows(ws, start, q + 1, cursor);
    }
    if cursor < end {
        assert(stops_at(chars, ws, start, cursor, tc));
        lemma_first_stop(chars, ws, start, end, tc, cursor);
    } else {
        if end > start {
            assert(chars[end - 1] != '\n');
        }
    }
}

} // verus!

verus! {

/// Where the cursor is does not change how a text is wrapped.
proof fn lemma_wrap_cursor_free(chars: Seq<char>, ws: Seq<int>, max_width: int, c1: int, c2: int, n: nat)
    requires
        n <= chars.len(),
    ensures
        ({
            let a = wrap_prefix(chars, ws, max_width, c1, n);
            let b = wrap_prefix(chars, ws, max_width, c2, n);
            a.lines == b.lines && a.ranges == b.ranges && a.cur == b.cur && a.width == b.width && a.start == b.start
        }),
    decreases n,
{
    if n > 0 {
        lemma_wrap_cursor_free(chars, ws, max_width, c1, c2, (n - 1) as nat);
        let a0 = wrap_prefix(chars, ws, max_width, c1, (n - 1) as nat);
        let b0 = wrap_prefix(chars, ws, max_width, c2, (n - 1) as nat);
        assert(wrap_prefix(chars, ws, max_width, c1, n) == wrap_step(a0, chars, ws, max_width, c1, n - 1));
        assert(wrap_prefix(chars, ws, max_width, c2, n) == wrap_step(b0, chars, ws, max_width, c2, n - 1));
    }
}

/// Once the wrapping passes the cursor at `p`, it has noted the line and
/// column that it stood at before the character at `p`.
proof fn lemma_cursor_noted(chars: Seq<char>, ws: Seq<int>, max_width: int, p: int, n: nat)
    requires
        0 <= p < n <= chars.len(),
    ensures
        wrap_prefix(chars, ws, max_width, p, n).cursor == Some(
            (
                wrap_prefix(chars, ws, max_width, p, p as nat).lines.len() as int,
                wrap_prefix(chars, ws, max_width, p, p as nat).width,
            ),
        ),
    decreases n,
{
    let s0 = wrap_prefix(chars, ws, max_width, p, (n - 1) as nat);
    assert(wrap_prefix(chars, ws, max_width, p, n) == wrap_step(s0, chars, ws, max_width, p, n - 1));
    if n - 1 > p {
        lemma_cursor_noted(chars, ws, max_width, p, (n - 1) as nat);
    }
}

/// Wrapping more characters only adds lines: the finished lines stay, and
/// the first new one starts where the line being filled started, and ends no
/// sooner than the characters then wrapped.
proof fn lemma_wrap_grows(chars: Seq<char>, ws: Seq<int>, max_width: int, cursor: int, n: nat, m: nat)
    requires
        n <= m <= chars.len(),
    ensures
        ({
            let a = wrap_prefix(chars, ws, max_width, cursor, n);
            let b = wrap_prefix(chars, ws, max_width, cursor, m);
            &&& a.ranges.len() <= b.ranges.len()
            &&& forall|k: int| 0 <= k < a.ranges.len() ==> b.ranges[k] == a.ranges[k]
            &&& b.ranges.len() > a.ranges.len() ==> b.ranges[a.ranges.len() as int].0 == a.start
                && b.ranges[a.ranges.len() as int].1 >= n
            &&& b.ranges.len() == a.ranges.len() ==> b.start == a.start
        }),
    decreases m,
{
    if m > n {
        lemma_wrap_grows(chars, ws, max_width, cursor, n, (m - 1) as nat);
        let t = wrap_prefix(chars, ws, max_width, cursor, (m - 1) as nat);
        assert(wrap_prefix(chars, ws, max_width, cursor, m) == wrap_step(t, chars, ws, max_width, cursor, m - 1));
    }
}

/// Every finished line holds at least one character, and an empty line
/// being filled follows a newline (unless it is the first).
proof fn lemma_wrap_shape(chars: Seq<char>, ws: Seq<int>, max_width: int, cursor: int, n: nat)
    requires
        n <= chars.len(),
        ws.len() == chars.len(),
        max_width >= 1,
        forall|i: int| 0 <= i < ws.len() ==> #[trigger] ws[i] >= 0,
    ensures
        ({
            let s = wrap_prefix(chars, ws, max_width, cursor, n);
            &&& forall|k: int| 0 <= k < s.ranges.len() ==> (#[trigger] s.ranges[k]).0 < s.ranges[k].1
            &&& s.cur.len() == 0 && s.ranges.len() > 0 ==> s.start >= 1 && chars[s.start - 1] == '\n'
        }),
    decreases n,
{
    if n > 0 {
        let i = n - 1;
        lemma_wrap_shape(chars, ws, max_width, cursor, i as nat);
        lemma_wrap_inv(chars, ws, max_width, cursor, i as nat);
        let s0 = wrap_prefix(chars, ws, max_width, cursor, i as nat);
        let s = wrap_prefix(chars, ws, max_width, cursor, n);
        assert(s == wrap_step(s0, chars, ws, max_width, cursor, i));
        let s1 = if i == cursor {
            WrapState { cursor: Some((s0.lines.len() as int, s0.width)), ..s0 }
        } else {
            s0
        };
        if chars[i] != '\n' && overflows(s1, ws[i], max_width) {
            assert(s1.start < i) by {
                if s1.start == i {
                    assert(ws.subrange(i, i) =~= Seq::<int>::empty());
                }
            }
        }
    }
}

} // verus!

verus! {

/// Where the walk along a line stops: within the line, no later than any
/// character that stops it, and past characters that each keep the width
/// walked within the column.
proof fn lemma_char_at_stop(chars: Seq<char>, ws: Seq<int>, ranges: Seq<(int, int)>, line: int, col: int)
    requires
        0 <= line < ranges.len(),
        0 <= ranges[line].0 <= ranges[line].1 <= chars.len(),
        ws.len() == chars.len(),
        forall|i: int| 0 <= i < ws.len() ==> #[trigger] ws[i] >= 0,
        col >= 0,
    ensures
        ({
            let p = char_at_with(chars, ws, ranges, line, col);
            &&& ranges[line].0 <= p <= ranges[line].1
            &&& forall|q: int| ranges[line].0 <= q < ranges[line].1 && #[trigger] stops_at(chars, ws, ranges[line].0, q, col)
                ==> p <= q
            &&& sum_of(ws.subrange(ranges[line].0, p)) <= col
        }),
{
    let start = ranges[line].0;
    let end = range_end(chars, ranges[line]);
    assert(end == ranges[line].1);
    let p = char_at_with(chars, ws, ranges, line, col);
    if exists|q: int| start <= q < end && #[trigger] stops_at(chars, ws, start, q, col) {
        let w = choose|q: int| start <= q < end && #[trigger] stops_at(chars, ws, start, q, col);
        lemma_least_stop_exists(chars, ws, start, end, col, w);
        assert(start <= p < end && forall|q: int| start <= q < p ==> !#[trigger] stops_at(chars, ws, start, q, col));
        if p > start {
            assert(!stops_at(chars, ws, start, p - 1, col));
            lemma_sum_step(ws, start, p - 1);
        } else {
            assert(ws.subrange(start, start) =~= Seq::<int>::empty());
        }
    } else {
        if end > start && chars[end - 1] == '\n' {
            assert(stops_at(chars, ws, start, end - 1, col));
        }
        assert(p == end);
        if p > start {
            assert(!stops_at(chars, ws, start, p - 1, col));
            lemma_sum_step(ws, start, p - 1);
        } else {
            assert(ws.subrange(start, start) =~= Seq::<int>::empty());
        }
    }
}

/// Lines that follow each other lie in order.
proof fn lemma_ranges_in_order(ranges: Seq<(int, int)>, k: int, j: int)
    requires
        0 <= k < j < ranges.len(),
        forall|a: int| 0 <= a < ranges.len() - 1 ==> (#[trigger] ranges[a]).1 == ranges[a + 1].0,
        forall|a: int| 0 <= a < ranges.len() ==> (#[trigger] ranges[a]).0 <= ranges[a].1,
    ensures
        ranges[k].1 <= ranges[j].0,
    decreases j - k,
{
    if j > k + 1 {
        lemma_ranges_in_order(ranges, k, j - 1);
    }
}

/// Moving to a line and column and wrapping the text again with the cursor
/// at the character found there puts the cursor on that line, at the width
/// of the characters of the line before it, which is within the column.
/// Excepted is the one place where the cursor shows elsewhere: the first
/// character of a line that began because the line before it was full,
/// where the cursor shows at the end of the line before.
pub proof fn law_char_at_round_trip(chars: Seq<char>, ws: Seq<int>, max_width: int, cursor: int, line: int, col: int)
    requires
        ws.len() == chars.len(),
        forall|i: int| 0 <= i < ws.len() ==> #[trigger] ws[i] >= 0,
        0 <= line < wrap_with(chars, ws, max_width, cursor).ranges.len(),
        col >= 0,
        ({
            let rs = wrap_with(chars, ws, max_width, cursor).ranges;
            let p = char_at_with(chars, ws, rs, line, col);
            p > rs[line].0 || line == 0 || chars[rs[line].0 - 1] == '\n'
        }),
    ensures
        ({
            let rs = wrap_with(chars, ws, max_width, cursor).ranges;
            let p = char_at_with(chars, ws, rs, line, col);
            let w = wrap_with(chars, ws, max_width, p);
            &&& w.cursor_line == line
            &&& w.cursor_col == sum_of(ws.subrange(rs[line].0, p))
            &&& w.cursor_col <= col
        }),
{
    let mw = box_width(max_width);
    let len = chars.len();
    let rs = wrap_with(chars, ws, max_width, cursor).ranges;
    let p = char_at_with(chars, ws, rs, line, col);
    law_wrap_covers_text(chars, ws, max_width, cursor);
    lemma_wrap_prefix_ranges(chars, ws, mw, cursor, len);
    lemma_wrap_inv(chars, ws, mw, cursor, len);
    lemma_wrap_shape(chars, ws, mw, cursor, len);
    let sf = wrap_prefix(chars, ws, mw, cursor, len);
    assert(rs == sf.ranges.push((sf.start, len as int)));
    assert forall|a: int| 0 <= a < rs.len() implies (#[trigger] rs[a]).0 <= rs[a].1 by {
        if a < sf.ranges.len() {
            assert(rs[a] == sf.ranges[a]);
        }
    }
    lemma_char_at_stop(chars, ws, rs, line, col);
    let last = rs.len() - 1;
    // the same wrapping, with the cursor at `p`
    lemma_wrap_cursor_free(chars, ws, mw, cursor, p, len);
    let w = wrap_with(chars, ws, max_width, p);
    assert(w.ranges == rs);
    if p < len {
        let sp = wrap_prefix(chars, ws, mw, p, p as nat);
        lemma_cursor_noted(chars, ws, mw, p, len);
        lemma_wrap_inv(chars, ws, mw, p, p as nat);
        lemma_wrap_shape(chars, ws, mw, p, p as nat);
        lemma_wrap_grows(chars, ws, mw, p, p as nat, len);
        lemma_wrap_cursor_free(chars, ws, mw, p, cursor, p as nat);
        let m = sp.ranges.len() as int;
        assert(w.cursor_line == m && w.cursor_col == sp.width);
        assert(rs[m].0 == sp.start && p <= rs[m].1) by {
            if m < sf.ranges.len() {
                assert(rs[m] == sf.ranges[m]);
            }
        }
        assert forall|k: int| 0 <= k < m implies rs[k] == sp.ranges[k] by {
            assert(rs[k] == sf.ranges[k]);
        }
        if m < line {
            lemma_ranges_in_order(rs, m, line);
            if m < line - 1 {
                lemma_ranges_in_order(rs, m + 1, line);
                assert(rs[m + 1] == sf.ranges[m + 1]);
            }
            assert(m == line - 1);
            assert(rs[m] == sf.ranges[m]);
            assert(sp.cur[sp.cur.len() - 1] == chars[p - 1]);
            assert(sp.cur.contains(chars[p - 1]));
            assert(false);
        }
        if m > line {
            lemma_ranges_in_order(rs, line, m);
            assert(rs[line] == sp.ranges[line]);
            if line < m - 1 {
                assert(rs[line + 1] == sp.ranges[line + 1]);
            }
            assert(line == m - 1);
            assert(sp.cur.len() == 0);
            assert(stops_at(chars, ws, rs[line].0, p - 1, col));
            assert(false);
        }
        assert(sp.start == rs[line].0);
    } else {
        assert(p == len);
        let sq = wrap_prefix(chars, ws, mw, p, len);
        lemma_wrap_cursor_inv(chars, ws, mw, p, len);
        assert(sq.cursor is None);
        assert(w.cursor_line == sf.ranges.len() && w.cursor_col == sf.width);
        if line < last {
            assert(rs[line] == sf.ranges[line]);
            if line < last - 1 {
                lemma_ranges_in_order(rs, line + 1, last);
                assert(rs[line + 1] == sf.ranges[line + 1]);
            }
            assert(line == last - 1);
            assert(sf.cur.len() == 0);
            assert(stops_at(chars, ws, rs[line].0, len - 1, col));
            assert(false);
        }
    }
}

} // verus!

verus! {

/// The excepted place of the round trip: where the character found at a
/// line and column is the first of a line that began because the line
/// before it was full (not after a newline), wrapping again with the cursor
/// there shows the cursor at the end of the line before, at the width of
/// that line's characters.
pub proof fn law_char_at_soft_break(chars: Seq<char>, ws: Seq<int>, max_width: int, cursor: int, line: int, col: int)
    requires
        ws.len() == chars.len(),
        forall|i: int| 0 <= i < ws.len() ==> #[trigger] ws[i] >= 0,
        0 < line < wrap_with(chars, ws, max_width, cursor).ranges.len(),
        col >= 0,
        ({
            let rs = wrap_with(chars, ws, max_width, cursor).ranges;
            &&& char_at_with(chars, ws, rs, line, col) == rs[line].0
            &&& chars[rs[line].0 - 1] != '\n'
        }),
    ensures
        ({
            let rs = wrap_with(chars, ws, max_width, cursor).ranges;
            let p = char_at_with(chars, ws, rs, line, col);
            let w = wrap_with(chars, ws, max_width, p);
            &&& w.cursor_line == line - 1
            &&& w.cursor_col == sum_of(ws.subrange(rs[line - 1].0, p))
        }),
{
    let mw = box_width(max_width);
    let len = chars.len();
    let rs = wrap_with(chars, ws, max_width, cursor).ranges;
    let p = char_at_with(chars, ws, rs, line, col);
    law_wrap_covers_text(chars, ws, max_width, cursor);
    lemma_wrap_prefix_ranges(chars, ws, mw, cursor, len);
    lemma_wrap_inv(chars, ws, mw, cursor, len);
    lemma_wrap_shape(chars, ws, mw, cursor, len);
    let sf = wrap_prefix(chars, ws, mw, cursor, len);
    assert(rs == sf.ranges.push((sf.start, len as int)));
    assert forall|a: int| 0 <= a < rs.len() implies (#[trigger] rs[a]).0 <= rs[a].1 by {
        if a < sf.ranges.len() {
            assert(rs[a] == sf.ranges[a]);
        }
    }
    let last = rs.len() - 1;
    lemma_wrap_cursor_free(chars, ws, mw, cursor, p, len);
    let w = wrap_with(chars, ws, max_width, p);
    assert(w.ranges == rs);
    if p < len {
        let sp = wrap_prefix(chars, ws, mw, p, p as nat);
        lemma_cursor_noted(chars, ws, mw, p, len);
        lemma_wrap_inv(chars, ws, mw, p, p as nat);
        lemma_wrap_shape(chars, ws, mw, p, p as nat);
        lemma_wrap_grows(chars, ws, mw, p, p as nat, len);
        lemma_wrap_cursor_free(chars, ws, mw, p, cursor, p as nat);
        let m = sp.ranges.len() as int;
        assert(w.cursor_line == m && w.cursor_col == sp.width);
        assert(rs[m].0 == sp.start && p <= rs[m].1) by {
            if m < sf.ranges.len() {
                assert(rs[m] == sf.ranges[m]);
            }
        }
        assert forall|k: int| 0 <= k < m implies rs[k] == sp.ranges[k] by {
            assert(rs[k] == sf.ranges[k]);
        }
        if m > line {
            lemma_ranges_in_order(rs, line, m);
            assert(rs[line] == sp.ranges[line]);
            assert(false);
        }
        if m == line {
            assert(sp.cur.len() == 0);
            assert(false);
        }
        if m < line - 1 {
            lemma_ranges_in_order(rs, m + 1, line);
            assert(rs[m + 1] == sf.ranges[m + 1]);
            assert(false);
        }
        assert(m == line - 1);
    } else {
        if line < last {
            assert(rs[line] == sf.ranges[line]);
            assert(false);
        }
        assert(sf.cur.len() == 0);
        assert(false);
    }
}

} // verus!

verus! {

/// The finished lines hold no newline, and each ends with a newline or was
/// broken because the character after it would not fit.
proof fn lemma_wrap_breaks(chars: Seq<char>, ws: Seq<int>, max_width: int, cursor: int, n: nat)
    requires
        n <= chars.len(),
        ws.len() == chars.len(),
        max_width >= 1,
        forall|i: int| 0 <= i < ws.len() ==> #[trigger] ws[i] >= 0,
    ensures
        ({
            let s = wrap_prefix(chars, ws, max_width, cursor, n);
            &&& forall|k: int| 0 <= k < s.lines.len() ==> !(#[trigger] s.lines[k]).contains('\n')
            &&& forall|k: int|
                0 <= k < s.ranges.len() ==> chars[(#[trigger] s.ranges[k]).1 - 1] == '\n' || (s.ranges[k].1 < n
                    && sum_of(ws.subrange(s.ranges[k].0, s.ranges[k].1)) + ws[s.ranges[k].1] > max_width)
        }),
    decreases n,
{
    if n > 0 {
        let i = n - 1;
        lemma_wrap_breaks(chars, ws, max_width, cursor, i as nat);
        lemma_wrap_inv(chars, ws, max_width, cursor, i as nat);
        lemma_wrap_shape(chars, ws, max_width, cursor, i as nat);
        let s0 = wrap_prefix(chars, ws, max_width, cursor, i as nat);
        let s = wrap_prefix(chars, ws, max_width, cursor, n);
        assert(s == wrap_step(s0, chars, ws, max_width, cursor, i));
        let s1 = if i == cursor {
            WrapState { cursor: Some((s0.lines.len() as int, s0.width)), ..s0 }
        } else {
            s0
        };
        if chars[i] == '\n' {
            assert(s == break_line(s1, i + 1, i + 1));
            assert forall|k: int| 0 <= k < s.ranges.len() implies chars[(#[trigger] s.ranges[k]).1 - 1] == '\n' || (
            s.ranges[k].1 < n && sum_of(ws.subrange(s.ranges[k].0, s.ranges[k].1)) + ws[s.ranges[k].1] > max_width) by {
                if k < s0.ranges.len() {
                    assert(s.ranges[k] == s0.ranges[k]);
                }
            }
            assert forall|k: int| 0 <= k < s.lines.len() implies !(#[trigger] s.lines[k]).contains('\n') by {
                if k < s0.lines.len() {
                    assert(s.lines[k] == s0.lines[k]);
                }
            }
        } else if overflows(s1, ws[i], max_width) {
            let s2 = break_line(s1, i, i);
            assert(s == WrapState { cur: s2.cur.push(chars[i]), width: s2.width + ws[i], ..s2 });
            assert forall|k: int| 0 <= k < s.ranges.len() implies chars[(#[trigger] s.ranges[k]).1 - 1] == '\n' || (
            s.ranges[k].1 < n && sum_of(ws.subrange(s.ranges[k].0, s.ranges[k].1)) + ws[s.ranges[k].1] > max_width) by {
                if k < s0.ranges.len() {
                    assert(s.ranges[k] == s0.ranges[k]);
                } else {
                    assert(s.ranges[k] == (s0.start, i));
                }
            }
            assert forall|k: int| 0 <= k < s.lines.len() implies !(#[trigger] s.lines[k]).contains('\n') by {
                if k < s0.lines.len() {
                    assert(s.lines[k] == s0.lines[k]);
                }
            }
        } else {
            assert(s.ranges == s0.ranges && s.lines == s0.lines);
        }
    }
}

/// No display line holds a newline, and the lines break greedily: every
/// line but the last ends with a newline, or was broken because the first
/// character of the next line would not have fit on it.
pub proof fn law_wrap_greedy(chars: Seq<char>, ws: Seq<int>, max_width: int, cursor: int)
    requires
        ws.len() == chars.len(),
        forall|i: int| 0 <= i < ws.len() ==> #[trigger] ws[i] >= 0,
    ensures
        ({
            let w = wrap_with(chars, ws, max_width, cursor);
            &&& forall|k: int| 0 <= k < w.lines.len() ==> !(#[trigger] w.lines[k]).contains('\n')
            &&& forall|k: int|
                0 <= k < w.ranges.len() - 1 ==> chars[(#[trigger] w.ranges[k]).1 - 1] == '\n' || sum_of(
                    ws.subrange(w.ranges[k].0, w.ranges[k].1),
                ) + ws[w.ranges[k].1] > box_width(max_width)
        }),
{
    let mw = box_width(max_width);
    let s = wrap_prefix(chars, ws, mw, cursor, chars.len());
    lemma_wrap_breaks(chars, ws, mw, cursor, chars.len());
    lemma_wrap_inv(chars, ws, mw, cursor, chars.len());
    let w = wrap_with(chars, ws, max_width, cursor);
    assert(w.ranges == s.ranges.push((s.start, chars.len() as int)));
    assert(w.lines == s.lines.push(s.cur));
    assert forall|k: int| 0 <= k < w.lines.len() implies !(#[trigger] w.lines[k]).contains('\n') by {
        if k < s.lines.len() {
            assert(w.lines[k] == s.lines[k]);
        }
    }
    assert forall|k: int| 0 <= k < w.ranges.len() - 1 implies chars[(#[trigger] w.ranges[k]).1 - 1] == '\n' || sum_of(
        ws.subrange(w.ranges[k].0, w.ranges[k].1),
    ) + ws[w.ranges[k].1] > mw by {
        assert(w.ranges[k] == s.ranges[k]);
    }
}

} // verus!
