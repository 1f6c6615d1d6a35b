use todo::model::{DbStep, TodoError};
use todo::storage::{title_matches, TodoStore};

/// A database that lives in memory for as long as a connection to it is open.
fn memory_uri(name: &str) -> String {
    format!("file:todo-test-{}?mode=memory&cache=shared", name)
}

fn test_store(name: &str) -> (TodoStore, String, rusqlite::Connection) {
    let uri = memory_uri(name);
    let keep = rusqlite::Connection::open(&uri).expect("测试数据库应当可以打开");
    let store = TodoStore::open(&std::path::PathBuf::from(&uri)).expect("测试数据库应当可以打开");
    (store, uri, keep)
}

#[test]
fn empty_title_is_rejected() {
    let (mut store, _uri, _keep) = test_store("empty");
    assert!(store.add("  ".to_owned()).is_err());
}

#[test]
fn persists_add_toggle_and_remove() {
    let (mut store, uri, _keep) = test_store("persist");
    let item = store.add("测试 SQLite".to_owned()).expect("新增应成功");
    assert_eq!(item.id, 1);
    assert_eq!(store.items().len(), 1);

    store
        .update_title(0, "修改后的标题".to_owned())
        .expect("修改应成功");
    assert_eq!(store.items()[0].title, "修改后的标题");

    store.toggle(0).expect("完成应成功");
    assert!(store.items()[0].completed);
    drop(store);

    let mut reopened = TodoStore::open(&std::path::PathBuf::from(&uri)).expect("数据库应当可以重新打开");
    assert_eq!(reopened.items()[0].title, "修改后的标题");
    assert!(reopened.items()[0].completed);
    reopened.remove(0).expect("删除应成功");
    assert!(reopened.items().is_empty());
}

#[test]
fn reloads_external_changes() {
    let (_, uri, _keep) = test_store("reload");
    let mut store1 = TodoStore::open(&std::path::PathBuf::from(&uri)).expect("数据库应当可以打开");
    let mut store2 = TodoStore::open(&std::path::PathBuf::from(&uri)).expect("数据库应当可以打开");

    store1.add("由实例1添加".to_owned()).expect("添加应成功");
    assert_eq!(store1.items().len(), 1);
    assert_eq!(store2.items().len(), 0);

    store2.reload().expect("重载应成功");
    assert_eq!(store2.items().len(), 1);
    assert_eq!(store2.items()[0].title, "由实例1添加");
}

#[test]
fn id_based_crud_search_and_clear() {
    let (mut store, _uri, _keep) = test_store("crud");
    let t1 = store.add("任务一".to_owned()).expect("添加1");
    let id1 = t1.id;
    let t2 = store.add("任务二(待办)".to_owned()).expect("添加2");
    let id2 = t2.id;

    assert_eq!(store.get_by_id(id1).unwrap().title, "任务一");
    assert_eq!(store.search("二").len(), 1);
    assert_eq!(store.search("二")[0].id, id2);

    store
        .update_title_by_id(id1, "更新后的任务一".to_owned())
        .expect("修改标题");
    assert_eq!(store.get_by_id(id1).unwrap().title, "更新后的任务一");

    store.set_completed_by_id(id1, true).expect("标记完成");
    assert!(store.get_by_id(id1).unwrap().completed);

    store.set_completed_by_id(id1, false).expect("撤销完成");
    assert!(!store.get_by_id(id1).unwrap().completed);

    store.set_completed_by_id(id1, true).expect("标记完成");
    let cleared = store.clear_completed().expect("清理完成待办");
    assert_eq!(cleared, 1);
    assert_eq!(store.items().len(), 1);
    assert_eq!(store.items()[0].id, id2);

    store.remove_by_id(id2).expect("按 ID 删除");
    assert!(store.items().is_empty());
}

#[test]
fn add_trims_the_title() {
    let (mut store, _uri, _keep) = test_store("trim");
    let item = store.add("  买牛奶 \n".to_owned()).expect("add");
    assert_eq!(item.title, "买牛奶");
    assert!(!item.completed);
    assert!(item.completed_at.is_none());
}

#[test]
fn blank_title_leaves_store_unchanged() {
    let (mut store, _uri, _keep) = test_store("blank");
    store.add("a".to_owned()).unwrap();
    assert!(matches!(store.add("\t \n".to_owned()), Err(TodoError::EmptyTitle)));
    assert_eq!(store.items().len(), 1);
    assert!(matches!(store.update_title(0, "   ".to_owned()), Err(TodoError::EmptyTitle)));
    assert_eq!(store.items()[0].title, "a");
}

#[test]
fn bad_index_and_unknown_id_are_errors() {
    let (mut store, _uri, _keep) = test_store("missing");
    store.add("a".to_owned()).unwrap();
    assert!(matches!(store.toggle(5), Err(TodoError::NoSuchIndex)));
    assert!(matches!(store.remove(1), Err(TodoError::NoSuchIndex)));
    assert!(matches!(store.update_title(3, "x".to_owned()), Err(TodoError::NoSuchIndex)));
    assert!(matches!(store.set_completed_by_id(99, true), Err(TodoError::NoSuchId(99))));
    assert!(matches!(store.update_title_by_id(98, "x".to_owned()), Err(TodoError::NoSuchId(98))));
    assert!(matches!(store.remove_by_id(97), Err(TodoError::NoSuchId(97))));
    assert_eq!(store.find_index_by_id(99), None);
    assert!(store.get_by_id(99).is_none());
    assert_eq!(store.items().len(), 1);
}

#[test]
fn toggle_twice_restores_state() {
    let (mut store, _uri, _keep) = test_store("toggle2");
    store.add("a".to_owned()).unwrap();
    store.toggle(0).unwrap();
    assert!(store.items()[0].completed);
    assert!(store.items()[0].completed_at.is_some());
    store.toggle(0).unwrap();
    assert!(!store.items()[0].completed);
    assert!(store.items()[0].completed_at.is_none());
}

#[test]
fn marking_an_item_again_changes_nothing() {
    let (mut store, _uri, _keep) = test_store("mark2");
    let id = store.add("a".to_owned()).unwrap().id;
    let first = store.set_completed_by_id(id, true).unwrap().completed_at.clone().unwrap();
    let second = store.set_completed_by_id(id, true).unwrap().completed_at.clone().unwrap();
    assert_eq!(first.text, second.text);
    assert_eq!((first.secs, first.nanos), (second.secs, second.nanos));
}

#[test]
fn search_matches_lowercase_title_or_id() {
    let (mut store, _uri, _keep) = test_store("search");
    store.add("Buy MILK".to_owned()).unwrap();
    store.add("read docs".to_owned()).unwrap();
    let id3 = store.add("write code".to_owned()).unwrap().id;
    assert_eq!(store.search("  milk ").len(), 1);
    assert_eq!(store.search("milk")[0].title, "Buy MILK");
    let by_id = store.search(&id3.to_string());
    assert_eq!(by_id.len(), 1);
    assert_eq!(by_id[0].id, id3);
    assert_eq!(store.search("   ").len(), 3);
    assert_eq!(store.search("nothing").len(), 0);
}

#[test]
fn reload_reads_stored_times() {
    let (mut store, uri, keep) = test_store("times");
    store.add("a".to_owned()).unwrap();
    store.toggle(0).unwrap();
    let created = store.items()[0].created_at.clone();
    let reopened = TodoStore::open(&std::path::PathBuf::from(&uri)).unwrap();
    let again = &reopened.items()[0];
    assert_eq!(again.created_at.text, created.text);
    assert_eq!((again.created_at.secs, again.created_at.nanos), (created.secs, created.nanos));
    assert!(again.completed_at.is_some());
    drop(keep);
}

#[test]
fn unreadable_time_is_reported() {
    let (mut store, uri, keep) = test_store("badtime");
    store.add("a".to_owned()).unwrap();
    keep.execute("UPDATE todos SET created_at = 'yesterday'", []).unwrap();
    match TodoStore::open(&std::path::PathBuf::from(&uri)) {
        Err(TodoError::BadTime(text)) => assert_eq!(text, "yesterday"),
        other => panic!("unexpected: {:?}", other.map(|s| s.items().len())),
    }
    assert!(matches!(store.reload(), Err(TodoError::BadTime(_))));
    assert_eq!(store.items().len(), 1);
}

#[test]
fn negative_id_is_reported() {
    let (_store, uri, keep) = test_store("negid");
    keep.execute(
        "INSERT INTO todos (id, title, completed, created_at) VALUES (-4, 'x', 0, '2024-01-02T03:04:05+00:00')",
        [],
    )
    .unwrap();
    assert!(matches!(TodoStore::open(&std::path::PathBuf::from(&uri)), Err(TodoError::IdOutOfRange(-4))));
}

#[test]
fn clear_completed_keeps_pending_in_order() {
    let (mut store, _uri, _keep) = test_store("clear");
    for t in ["a", "b", "c", "d"] {
        store.add(t.to_owned()).unwrap();
    }
    store.toggle(1).unwrap();
    store.toggle(3).unwrap();
    assert_eq!(store.clear_completed().unwrap(), 2);
    let titles: Vec<&str> = store.items().iter().map(|t| t.title.as_str()).collect();
    assert_eq!(titles, vec!["a", "c"]);
}

#[test]
fn remove_by_id_hands_out_the_item() {
    let (mut store, _uri, _keep) = test_store("rmid");
    store.add("a".to_owned()).unwrap();
    let id = store.add("b".to_owned()).unwrap().id;
    let removed = store.remove_by_id(id).unwrap();
    assert_eq!(removed.title, "b");
    assert_eq!(store.find_index_by_id(id), None);
    assert_eq!(store.items().len(), 1);
}

#[test]
fn title_matches_keyword_or_id() {
    let title: Vec<char> = "buy milk".chars().collect();
    let kw: Vec<char> = "milk".chars().collect();
    assert!(title_matches(&title, 7, &kw));
    let other: Vec<char> = "bread".chars().collect();
    assert!(!title_matches(&title, 7, &other));
    let id: Vec<char> = "42".chars().collect();
    assert!(title_matches(&title, 42, &id));
    assert!(!title_matches(&title, 420, &id));
    assert!(title_matches(&title, 1, &Vec::new()));
}

#[test]
fn add_trims_unicode_white_space() {
    let (mut store, _uri, _keep) = test_store("trim_unicode");
    let item = store.add("\u{3000}\u{a0}写周报\u{2028}\t".to_owned()).expect("add");
    assert_eq!(item.title, "写周报");
    assert!(matches!(store.add("\u{3000}\u{85}".to_owned()), Err(TodoError::EmptyTitle)));
    assert_eq!(store.items().len(), 1);
}

#[test]
fn done_then_undo_restores_the_item() {
    let (mut store, _uri, _keep) = test_store("done_undo");
    let id = store.add("a".to_owned()).unwrap().id;
    store.add("b".to_owned()).unwrap();
    let before: Vec<(u64, String, bool, bool)> =
        store.items().iter().map(|t| (t.id, t.title.clone(), t.completed, t.completed_at.is_some())).collect();
    assert!(store.set_completed_by_id(id, true).unwrap().completed);
    assert!(!store.set_completed_by_id(id, false).unwrap().completed);
    let after: Vec<(u64, String, bool, bool)> =
        store.items().iter().map(|t| (t.id, t.title.clone(), t.completed, t.completed_at.is_some())).collect();
    assert_eq!(before, after);
}

#[test]
fn database_refusal_leaves_items_unchanged() {
    let (mut store, _uri, keep) = test_store("refusal");
    store.add("a".to_owned()).unwrap();
    keep.execute("DROP TABLE todos", []).expect("drop");
    assert!(matches!(store.add("b".to_owned()), Err(TodoError::Database(DbStep::Insert, _))));
    assert!(matches!(store.toggle(0), Err(TodoError::Database(DbStep::UpdateStatus(None), _))));
    assert!(matches!(store.clear_completed(), Err(TodoError::Database(DbStep::ClearCompleted, _))));
    assert!(matches!(store.reload(), Err(TodoError::Database(DbStep::Query, _))));
    assert_eq!(store.items().len(), 1);
    assert_eq!(store.items()[0].title, "a");
    assert!(!store.items()[0].completed);
}

#[test]
fn unopenable_path_is_reported() {
    let r = TodoStore::open(&std::path::PathBuf::from("/nonexistent-directory-for-todo-tests/sub/todos.db"));
    assert!(matches!(r, Err(TodoError::Database(DbStep::Open, _))));
}
