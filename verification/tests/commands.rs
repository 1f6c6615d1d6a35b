use todo::cli::{run, Cli, Commands, Outcome};
use todo::listing::{list_items, ListPage, ListScope};
use todo::model::{Stamp, Todo, TodoError};
use todo::storage::TodoStore;

fn store(name: &str) -> (TodoStore, rusqlite::Connection) {
    let uri = format!("file:todo-cli-{}?mode=memory&cache=shared", name);
    let keep = rusqlite::Connection::open(&uri).unwrap();
    (TodoStore::open(&std::path::PathBuf::from(&uri)).unwrap(), keep)
}

fn cmd(c: Commands) -> Cli {
    Cli { json: false, new_title: None, list: false, command: Some(c) }
}

fn titles(items: &[Todo]) -> Vec<&str> {
    items.iter().map(|t| t.title.as_str()).collect()
}

fn stamp(secs: i64) -> Stamp {
    Stamp { secs, nanos: 0, text: String::new() }
}

fn todo(id: u64, completed: bool, created: i64, done_at: Option<i64>) -> Todo {
    Todo {
        id,
        title: format!("t{}", id),
        completed,
        created_at: stamp(created),
        completed_at: done_at.map(stamp),
    }
}

#[test]
fn add_skips_blank_titles() {
    let (mut s, _k) = store("add");
    let out = run(&mut s, cmd(Commands::Add { titles: vec!["买牛奶".into(), "  ".into(), " 买面包 ".into()] })).unwrap();
    match out {
        Outcome::Added(v) => assert_eq!(titles(&v), vec!["买牛奶", "买面包"]),
        _ => panic!("expected Added"),
    }
    assert_eq!(s.items().len(), 2);
    let err = run(&mut s, cmd(Commands::Add { titles: vec![" ".into(), "".into()] }));
    assert!(matches!(err, Err(TodoError::NothingAdded)));
    assert_eq!(s.items().len(), 2);
}

#[test]
fn quick_add_and_quick_list() {
    let (mut s, _k) = store("quick");
    let cli = Cli { json: true, new_title: Some("x".into()), list: false, command: None };
    match run(&mut s, cli).unwrap() {
        Outcome::Added(v) => assert_eq!(titles(&v), vec!["x"]),
        _ => panic!("expected Added"),
    }
    let cli = Cli { json: false, new_title: Some("   ".into()), list: false, command: None };
    assert!(matches!(run(&mut s, cli), Err(TodoError::EmptyTitle)));
    for i in 0..12 {
        s.add(format!("item {}", i)).unwrap();
    }
    let cli = Cli { json: false, new_title: None, list: true, command: None };
    match run(&mut s, cli).unwrap() {
        Outcome::Listed { scope, quick, page } => {
            assert_eq!(scope, ListScope::Pending);
            assert!(quick);
            assert_eq!(page.total, 13);
            assert_eq!(page.shown.len(), 10);
            assert!(page.is_cut());
            assert_eq!(page.shown[0].title, "x");
        }
        _ => panic!("expected Listed"),
    }
}

#[test]
fn done_undo_rm_by_ids() {
    let (mut s, _k) = store("ids");
    for t in ["a", "b", "c"] {
        s.add(t.into()).unwrap();
    }
    match run(&mut s, cmd(Commands::Done { ids: vec![1, 3] })).unwrap() {
        Outcome::Completed(v) => {
            assert_eq!(v.len(), 2);
            assert!(v.iter().all(|t| t.completed));
            assert_eq!(titles(&v), vec!["a", "c"]);
            assert_eq!(v[1].completed_at.as_ref().unwrap().text, s.items()[2].completed_at.as_ref().unwrap().text);
            assert_eq!(v[0].created_at.text, s.items()[0].created_at.text);
        }
        _ => panic!(),
    }
    assert!(s.items()[0].completed && !s.items()[1].completed && s.items()[2].completed);
    match run(&mut s, cmd(Commands::Undo { ids: vec![3] })).unwrap() {
        Outcome::Reopened(v) => assert_eq!(v[0].id, 3),
        _ => panic!(),
    }
    assert!(!s.items()[2].completed);
    assert!(matches!(run(&mut s, cmd(Commands::Done { ids: vec![2, 9] })), Err(TodoError::NoSuchId(9))));
    assert!(s.items()[1].completed);
    match run(&mut s, cmd(Commands::Rm { ids: vec![1, 2] })).unwrap() {
        Outcome::Removed(v) => assert_eq!(titles(&v), vec!["a", "b"]),
        _ => panic!(),
    }
    assert_eq!(titles(s.items()), vec!["c"]);
    assert!(matches!(run(&mut s, cmd(Commands::Rm { ids: vec![1] })), Err(TodoError::NoSuchId(1))));
}

#[test]
fn edit_search_clear_stats() {
    let (mut s, _k) = store("misc");
    for t in ["方案一", "写方案", "other"] {
        s.add(t.into()).unwrap();
    }
    match run(&mut s, cmd(Commands::Edit { id: 3, title: " 新标题 ".into() })).unwrap() {
        Outcome::Edited(t) => assert_eq!(t.title, "新标题"),
        _ => panic!(),
    }
    match run(&mut s, cmd(Commands::Search { keyword: "方案".into() })).unwrap() {
        Outcome::Found(v) => assert_eq!(titles(&v), vec!["方案一", "写方案"]),
        _ => panic!(),
    }
    s.toggle(0).unwrap();
    match run(&mut s, cmd(Commands::Stats)).unwrap() {
        Outcome::Counted(st) => {
            assert_eq!((st.pending, st.completed, st.total), (2, 1, 3));
        }
        _ => panic!(),
    }
    match run(&mut s, cmd(Commands::Clear { done: true })).unwrap() {
        Outcome::Cleared(n) => assert_eq!(n, 1),
        _ => panic!(),
    }
    assert_eq!(s.items().len(), 2);
    assert!(matches!(run(&mut s, Cli { json: false, new_title: None, list: false, command: None }), Ok(Outcome::Interactive)));
}

#[test]
fn list_orders_latest_first() {
    let items = vec![
        todo(1, false, 100, None),
        todo(2, true, 50, Some(300)),
        todo(3, false, 200, None),
        todo(4, true, 400, None),
        todo(5, false, 200, None),
    ];
    let ids = |v: &Vec<Todo>| v.iter().map(|t| t.id).collect::<Vec<u64>>();
    assert_eq!(ids(&list_items(&items, ListScope::Pending)), vec![3, 5, 1]);
    assert_eq!(ids(&list_items(&items, ListScope::Done)), vec![4, 2]);
    assert_eq!(ids(&list_items(&items, ListScope::All)), vec![4, 2, 3, 5, 1]);
}

#[test]
fn list_command_applies_limit() {
    let (mut s, _k) = store("limit");
    for t in ["a", "b", "c"] {
        s.add(t.into()).unwrap();
    }
    match run(&mut s, cmd(Commands::List { all: true, done: false, limit: Some(2) })).unwrap() {
        Outcome::Listed { scope, quick, page } => {
            assert_eq!(scope, ListScope::All);
            assert!(!quick);
            assert_eq!(page.total, 3);
            assert_eq!(page.shown.len(), 2);
            assert!(page.is_cut());
        }
        _ => panic!(),
    }
}

#[test]
fn page_without_limit_shows_all() {
    let page = ListPage::new(vec![todo(1, false, 1, None), todo(2, false, 2, None)], None);
    assert_eq!(page.shown.len(), 2);
    assert!(!page.is_cut());
    let page = ListPage::new(vec![todo(1, false, 1, None)], Some(5));
    assert_eq!(page.shown.len(), 1);
    assert!(!page.is_cut());
}
