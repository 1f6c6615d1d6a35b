use todo::editor::InputState;
use todo::storage::TodoStore;
use todo::tui::{
    item_at, matches_filter, visible_index, visible_len, visible_position, Area, Filter, Flow, Key, KeyPress,
    MouseAction, TuiState,
};

fn store_with(name: &str, titles: &[&str]) -> (TodoStore, rusqlite::Connection) {
    let uri = format!("file:todo-tui-{}?mode=memory&cache=shared", name);
    let keep = rusqlite::Connection::open(&uri).unwrap();
    let mut store = TodoStore::open(&std::path::PathBuf::from(&uri)).unwrap();
    for t in titles {
        store.add(t.to_string()).unwrap();
    }
    (store, keep)
}

fn key(k: Key) -> KeyPress {
    KeyPress { key: k, ctrl: false }
}

fn ctrl(c: char) -> KeyPress {
    KeyPress { key: Key::Char(c), ctrl: true }
}

#[test]
fn filters_choose_items() {
    assert!(matches_filter(false, Filter::Pending));
    assert!(!matches_filter(true, Filter::Pending));
    assert!(matches_filter(true, Filter::Completed));
    assert!(!matches_filter(false, Filter::Completed));
}

#[test]
fn visible_positions_follow_the_filter() {
    let (mut store, _keep) = store_with("visible", &["a", "b", "c", "d"]);
    store.toggle(1).unwrap();
    store.toggle(2).unwrap();
    assert_eq!(visible_len(&store, Filter::Pending), 2);
    assert_eq!(visible_len(&store, Filter::Completed), 2);
    assert_eq!(visible_index(&store, Filter::Pending, 1), Some(3));
    assert_eq!(visible_index(&store, Filter::Completed, 0), Some(1));
    assert_eq!(visible_index(&store, Filter::Completed, 2), None);
    assert_eq!(visible_position(&store, Filter::Pending, 3), 1);
    assert_eq!(visible_position(&store, Filter::Pending, 1), 0);
}

#[test]
fn click_finds_item_and_checkbox() {
    let (store, _keep) = store_with("click", &["a", "b", "c"]);
    let area = Area { x: 1, y: 2, width: 30, height: 5 };
    assert_eq!(item_at(3, 4, area, 0, &store, Filter::Pending), Some((1, true)));
    assert_eq!(item_at(2, 20, area, 1, &store, Filter::Pending), Some((1, false)));
    assert_eq!(item_at(6, 4, area, 0, &store, Filter::Pending), None);
    assert_eq!(item_at(1, 4, area, 0, &store, Filter::Pending), None);
    assert_eq!(item_at(3, 31, area, 0, &store, Filter::Pending), None);
    let empty = Area { x: 0, y: 0, width: 0, height: 5 };
    assert_eq!(item_at(0, 0, empty, 0, &store, Filter::Pending), None);
}

#[test]
fn create_item_through_input_box() {
    let (mut store, _keep) = store_with("create", &[]);
    let mut ui = TuiState::new();
    assert_eq!(ui.on_key(&mut store, key(Key::Char('a')), 20, 3).unwrap(), Flow::Continue);
    assert!(matches!(ui.input.as_ref().unwrap().mode, InputState::Creating));
    for c in " hi ".chars() {
        ui.on_key(&mut store, key(Key::Char(c)), 20, 3).unwrap();
    }
    ui.on_key(&mut store, ctrl('s'), 20, 3).unwrap();
    assert!(ui.input.is_none());
    assert_eq!(store.items().len(), 1);
    assert_eq!(store.items()[0].title, "hi");
}

#[test]
fn blank_input_adds_nothing_and_escape_discards() {
    let (mut store, _keep) = store_with("blank-box", &[]);
    let mut ui = TuiState::new();
    ui.on_key(&mut store, key(Key::Char('n')), 20, 3).unwrap();
    ui.on_key(&mut store, key(Key::Char(' ')), 20, 3).unwrap();
    ui.on_key(&mut store, ctrl('S'), 20, 3).unwrap();
    assert!(ui.input.is_none());
    assert!(store.items().is_empty());
    ui.on_key(&mut store, key(Key::Char('a')), 20, 3).unwrap();
    ui.on_key(&mut store, key(Key::Char('x')), 20, 3).unwrap();
    ui.on_key(&mut store, key(Key::Esc), 20, 3).unwrap();
    assert!(ui.input.is_none());
    assert!(store.items().is_empty());
}

#[test]
fn edit_selected_item_title() {
    let (mut store, _keep) = store_with("edit", &["first", "second"]);
    let mut ui = TuiState::new();
    ui.on_key(&mut store, key(Key::Down), 20, 3).unwrap();
    assert_eq!(ui.selected, 1);
    ui.on_key(&mut store, key(Key::Char('e')), 20, 3).unwrap();
    let active = ui.input.as_ref().unwrap();
    assert!(matches!(active.mode, InputState::Editing(1)));
    assert_eq!(active.text, "second");
    assert_eq!(active.cursor, 6);
    ui.on_key(&mut store, key(Key::Backspace), 20, 3).unwrap();
    ui.on_key(&mut store, key(Key::Home), 20, 3).unwrap();
    ui.on_key(&mut store, key(Key::Char('>')), 20, 3).unwrap();
    assert_eq!(ui.input.as_ref().unwrap().text, ">secon");
    ui.on_key(&mut store, ctrl('s'), 20, 3).unwrap();
    assert_eq!(store.items()[1].title, ">secon");
}

#[test]
fn editing_keys_move_the_cursor() {
    let (mut store, _keep) = store_with("cursor", &[]);
    let mut ui = TuiState::new();
    ui.on_key(&mut store, key(Key::Char('a')), 4, 2).unwrap();
    for c in "abcdefghij".chars() {
        ui.on_key(&mut store, key(Key::Char(c)), 4, 2).unwrap();
    }
    assert_eq!(ui.input.as_ref().unwrap().cursor, 10);
    assert_eq!(ui.input.as_ref().unwrap().scroll_top, 1);
    ui.on_key(&mut store, key(Key::Up), 4, 2).unwrap();
    assert_eq!(ui.input.as_ref().unwrap().cursor, 6);
    ui.on_key(&mut store, key(Key::Up), 4, 2).unwrap();
    assert_eq!(ui.input.as_ref().unwrap().cursor, 2);
    assert_eq!(ui.input.as_ref().unwrap().scroll_top, 0);
    ui.on_key(&mut store, key(Key::Down), 4, 2).unwrap();
    assert_eq!(ui.input.as_ref().unwrap().cursor, 6);
    ui.on_key(&mut store, key(Key::Left), 4, 2).unwrap();
    ui.on_key(&mut store, key(Key::Delete), 4, 2).unwrap();
    assert_eq!(ui.input.as_ref().unwrap().text, "abcdeghij");
    ui.on_key(&mut store, key(Key::End), 4, 2).unwrap();
    assert_eq!(ui.input.as_ref().unwrap().cursor, 9);
    ui.on_key(&mut store, key(Key::Right), 4, 2).unwrap();
    assert_eq!(ui.input.as_ref().unwrap().cursor, 9);
    ui.on_key(&mut store, key(Key::Enter), 4, 2).unwrap();
    assert_eq!(ui.input.as_ref().unwrap().text, "abcdeghij\n");
    ui.on_key(&mut store, key(Key::PageUp), 4, 2).unwrap();
    let top = ui.input.as_ref().unwrap().scroll_top;
    ui.on_key(&mut store, key(Key::PageDown), 4, 2).unwrap();
    assert!(ui.input.as_ref().unwrap().scroll_top >= top);
    ui.on_key(&mut store, ctrl('x'), 4, 2).unwrap();
    assert_eq!(ui.input.as_ref().unwrap().text, "abcdeghij\n");
}

#[test]
fn toggle_and_delete_from_the_list() {
    let (mut store, _keep) = store_with("toggle-delete", &["a", "b", "c"]);
    let mut ui = TuiState::new();
    ui.on_key(&mut store, key(Key::Char(' ')), 20, 3).unwrap();
    assert!(store.items()[0].completed);
    ui.sync(&mut store);
    assert_eq!(visible_len(&store, Filter::Pending), 2);
    ui.on_key(&mut store, key(Key::Char('d')), 20, 3).unwrap();
    assert!(ui.confirm_delete);
    ui.on_key(&mut store, key(Key::Char('x')), 20, 3).unwrap();
    assert!(ui.confirm_delete);
    ui.on_key(&mut store, key(Key::Char('n')), 20, 3).unwrap();
    assert!(!ui.confirm_delete);
    assert_eq!(store.items().len(), 3);
    ui.on_key(&mut store, key(Key::Char('d')), 20, 3).unwrap();
    ui.on_key(&mut store, key(Key::Char('Y')), 20, 3).unwrap();
    assert!(!ui.confirm_delete);
    let titles: Vec<&str> = store.items().iter().map(|t| t.title.as_str()).collect();
    assert_eq!(titles, vec!["a", "c"]);
}

#[test]
fn tab_switches_list_and_resets_selection() {
    let (mut store, _keep) = store_with("tab", &["a", "b"]);
    let mut ui = TuiState::new();
    ui.on_key(&mut store, key(Key::PageDown), 20, 3).unwrap();
    assert_eq!(ui.selected, 1);
    ui.on_key(&mut store, key(Key::Tab), 20, 3).unwrap();
    assert_eq!(ui.filter, Filter::Completed);
    assert_eq!(ui.selected, 0);
    ui.on_key(&mut store, key(Key::Char('d')), 20, 3).unwrap();
    assert!(!ui.confirm_delete);
    ui.on_key(&mut store, key(Key::Tab), 20, 3).unwrap();
    assert_eq!(ui.filter, Filter::Pending);
}

#[test]
fn quit_keys_end_the_interface() {
    let (mut store, _keep) = store_with("quit", &[]);
    let mut ui = TuiState::new();
    assert_eq!(ui.on_key(&mut store, key(Key::Char('q')), 20, 3).unwrap(), Flow::Quit);
    assert_eq!(ui.on_key(&mut store, key(Key::Esc), 20, 3).unwrap(), Flow::Quit);
    assert_eq!(ui.on_key(&mut store, key(Key::Char('k')), 20, 3).unwrap(), Flow::Continue);
}

#[test]
fn sync_holds_selection_in_the_list() {
    let (mut store, _keep) = store_with("sync", &["a", "b", "c"]);
    let mut ui = TuiState::new();
    ui.selected = 7;
    ui.sync(&mut store);
    assert_eq!(ui.selected, 2);
    ui.filter = Filter::Completed;
    ui.sync(&mut store);
    assert_eq!(ui.selected, 0);
}

#[test]
fn mouse_scrolls_and_clicks() {
    let (mut store, _keep) = store_with("mouse", &["a", "b", "c"]);
    let mut ui = TuiState::new();
    let area = Area { x: 0, y: 0, width: 30, height: 10 };
    ui.on_mouse(&mut store, MouseAction::ScrollDown, area, 0, 20, 3).unwrap();
    ui.on_mouse(&mut store, MouseAction::ScrollDown, area, 0, 20, 3).unwrap();
    ui.on_mouse(&mut store, MouseAction::ScrollDown, area, 0, 20, 3).unwrap();
    assert_eq!(ui.selected, 2);
    ui.on_mouse(&mut store, MouseAction::ScrollUp, area, 0, 20, 3).unwrap();
    assert_eq!(ui.selected, 1);
    ui.on_mouse(&mut store, MouseAction::LeftDown { row: 0, column: 15 }, area, 0, 20, 3).unwrap();
    assert_eq!(ui.selected, 0);
    assert!(!store.items()[0].completed);
    ui.on_mouse(&mut store, MouseAction::LeftDown { row: 2, column: 3 }, area, 0, 20, 3).unwrap();
    assert_eq!(ui.selected, 2);
    assert!(store.items()[2].completed);
}
