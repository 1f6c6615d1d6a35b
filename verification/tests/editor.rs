use todo::editor::{
    char_at_line_col, ensure_cursor_visible, wrap_input_text, ActiveInput, InputState,
};
use todo::screen::{input_frame, list_row, one_line_title};
use todo::width::truncate_to_width;

#[test]
fn test_wrap_input_empty() {
    let wrapped = wrap_input_text("", 10, 0);
    assert_eq!(wrapped.lines, vec![""]);
    assert_eq!(wrapped.cursor_line, 0);
    assert_eq!(wrapped.cursor_col, 0);
}

#[test]
fn test_wrap_input_single_line() {
    let wrapped = wrap_input_text("hello", 10, 3);
    assert_eq!(wrapped.lines, vec!["hello"]);
    assert_eq!(wrapped.cursor_line, 0);
    assert_eq!(wrapped.cursor_col, 3);
}

#[test]
fn test_wrap_input_multi_line_ascii() {
    let text = "abcdefghij";
    let wrapped = wrap_input_text(text, 4, 6);
    assert_eq!(wrapped.lines, vec!["abcd", "efgh", "ij"]);
    assert_eq!(wrapped.cursor_line, 1);
    assert_eq!(wrapped.cursor_col, 2);
}

#[test]
fn test_wrap_input_cjk_boundary() {
    let text = "待办事项测试多行显示功能";
    let wrapped = wrap_input_text(text, 6, 4);
    assert_eq!(wrapped.lines, vec!["待办事", "项测试", "多行显", "示功能"]);
    assert_eq!(wrapped.cursor_line, 1);
    assert_eq!(wrapped.cursor_col, 2);
}

#[test]
fn test_wrap_input_with_newlines() {
    let text = "第一行\n第二行内容\n\n第四行";
    let wrapped = wrap_input_text(text, 20, 4);
    assert_eq!(wrapped.lines, vec!["第一行", "第二行内容", "", "第四行"]);
    assert_eq!(wrapped.cursor_line, 1);
    assert_eq!(wrapped.cursor_col, 0);
}

#[test]
fn test_ensure_cursor_visible_scrolling() {
    let mut input = ActiveInput {
        mode: InputState::Creating,
        text: "1\n2\n3\n4\n5\n6\n7".to_string(),
        cursor: 12,
        scroll_top: 0,
    };
    ensure_cursor_visible(&mut input, 20, 3);
    assert_eq!(input.scroll_top, 4);

    input.cursor = 0;
    ensure_cursor_visible(&mut input, 20, 3);
    assert_eq!(input.scroll_top, 0);
}

#[test]
fn test_char_at_line_col_navigation() {
    let text = "abcdefghij";
    let wrapped = wrap_input_text(text, 4, 6);
    let up_idx = char_at_line_col(text, &wrapped, 0, 2);
    assert_eq!(up_idx, 2);
    let down_idx = char_at_line_col(text, &wrapped, 2, 2);
    assert_eq!(down_idx, 10);
}

#[test]
fn wrap_ranges_cover_the_text() {
    let wrapped = wrap_input_text("ab\ncdefg", 3, 0);
    assert_eq!(wrapped.lines, vec!["ab", "cde", "fg"]);
    let ranges: Vec<(usize, usize)> = wrapped.line_char_ranges.iter().map(|r| (r.start, r.end)).collect();
    assert_eq!(ranges, vec![(0, 3), (3, 6), (6, 8)]);
}

#[test]
fn wrap_cursor_at_break_stays_on_earlier_line() {
    let wrapped = wrap_input_text("abcdefghij", 4, 4);
    assert_eq!(wrapped.cursor_line, 0);
    assert_eq!(wrapped.cursor_col, 4);
    let wrapped = wrap_input_text("abc", 0, 1);
    assert_eq!(wrapped.lines, vec!["a", "b", "c"]);
    assert_eq!(wrapped.cursor_line, 0);
    assert_eq!(wrapped.cursor_col, 1);
}

#[test]
fn wrap_cursor_past_end() {
    let wrapped = wrap_input_text("ab\n", 10, 99);
    assert_eq!(wrapped.lines, vec!["ab", ""]);
    assert_eq!(wrapped.cursor_line, 1);
    assert_eq!(wrapped.cursor_col, 0);
}

#[test]
fn char_at_stops_at_newline_and_past_last_line() {
    let text = "ab\ncd";
    let wrapped = wrap_input_text(text, 10, 0);
    assert_eq!(char_at_line_col(text, &wrapped, 0, 9), 2);
    assert_eq!(char_at_line_col(text, &wrapped, 1, 1), 4);
    assert_eq!(char_at_line_col(text, &wrapped, 5, 0), 5);
}

#[test]
fn char_at_wide_characters() {
    let text = "待办事项";
    let wrapped = wrap_input_text(text, 4, 0);
    assert_eq!(wrapped.lines, vec!["待办", "事项"]);
    assert_eq!(char_at_line_col(text, &wrapped, 1, 1), 2);
    assert_eq!(char_at_line_col(text, &wrapped, 1, 2), 3);
}

#[test]
fn ensure_cursor_visible_keeps_view_when_shown() {
    let mut input = ActiveInput {
        mode: InputState::Editing(2),
        text: "1\n2\n3\n4".to_string(),
        cursor: 4,
        scroll_top: 1,
    };
    ensure_cursor_visible(&mut input, 20, 3);
    assert_eq!(input.scroll_top, 1);
    ensure_cursor_visible(&mut input, 20, 0);
    assert_eq!(input.scroll_top, 2);
}

#[test]
fn truncate_keeps_fitting_text() {
    assert_eq!(truncate_to_width("hello", 5), ("hello".to_string(), 5));
    assert_eq!(truncate_to_width("", 0), ("".to_string(), 0));
}

#[test]
fn truncate_shortens_with_ellipsis() {
    assert_eq!(truncate_to_width("hello world", 8), ("hello...".to_string(), 8));
    assert_eq!(truncate_to_width("hello", 3), ("...".to_string(), 3));
    assert_eq!(truncate_to_width("待办事项", 6), ("待...".to_string(), 5));
}

#[test]
fn one_line_marks_newlines() {
    assert_eq!(one_line_title("a\nb"), "a ↵ b");
    assert_eq!(one_line_title("plain"), "plain");
}

#[test]
fn list_row_layout() {
    let row = list_row(40, 0, 0, 3, "buy milk", "🕒 01-02 03:04  #7");
    assert!(row.is_selected);
    assert_eq!(row.number, "1. ");
    assert_eq!(row.title, "buy milk");
    assert_eq!(row.title_width, 8);
    assert_eq!(row.spacing, 40 - (2 + 3 + 3 + 8 + 18));
    let row = list_row(20, 2, 7, 3, "a rather long title", "🕒 01-02 03:04  #7");
    assert!(row.is_selected);
    assert_eq!(row.number, "3. ");
    assert_eq!(row.title, "...");
    assert_eq!(row.spacing, 0);
}

#[test]
fn input_frame_scrolls_and_places_cursor() {
    let input = ActiveInput {
        mode: InputState::Creating,
        text: "1\n2\n3\n4\n5".to_string(),
        cursor: 8,
        scroll_top: 9,
    };
    let frame = input_frame(&input, 10, 2);
    assert_eq!(frame.total_lines, 5);
    assert_eq!(frame.scroll_y, 3);
    assert!(frame.show_position);
    assert_eq!(frame.lines, vec!["4", "5"]);
    assert_eq!(frame.cursor, Some((1, 0)));
}

#[test]
fn cursor_line_and_column_lead_back_to_the_cursor() {
    let text = "待办a\nbc事项测试\n";
    let n = text.chars().count();
    for cursor in 0..=n {
        let wrapped = wrap_input_text(text, 4, cursor);
        let back = char_at_line_col(text, &wrapped, wrapped.cursor_line, wrapped.cursor_col);
        assert_eq!(back, cursor, "cursor {cursor}");
        let range = &wrapped.line_char_ranges[wrapped.cursor_line];
        assert!(range.start <= cursor && cursor <= range.end);
    }
}

#[test]
fn moving_to_a_line_and_column_lands_on_that_line() {
    let text = "abcdefghij\n待办事项\n\nxy";
    let chars: Vec<char> = text.chars().collect();
    let wrapped = wrap_input_text(text, 4, 0);
    for line in 0..wrapped.lines.len() {
        let start = wrapped.line_char_ranges[line].start;
        for col in 0..7 {
            let p = char_at_line_col(text, &wrapped, line, col);
            let again = wrap_input_text(text, 4, p);
            if p > start || line == 0 || chars[start - 1] == '\n' {
                assert_eq!(again.cursor_line, line, "line {line} col {col}");
                assert!(again.cursor_col <= col);
            } else {
                assert_eq!(again.cursor_line, line - 1, "line {line} col {col}");
                let before: usize = wrapped.lines[line - 1]
                    .chars()
                    .map(|c| unicode_width::UnicodeWidthChar::width(c).unwrap_or(1))
                    .sum();
                assert_eq!(again.cursor_col, before);
            }
        }
    }
}
