use task_store::{TodoDetail, TodoError, TodoRepository};

fn titles_and_flags(list: &[TodoDetail]) -> Vec<(String, bool)> {
    let mut v: Vec<(String, bool)> = list.iter().map(|d| (d.title.clone(), d.done)).collect();
    v.sort();
    v
}

#[test]
fn new_todo_repo() {
    let todo_repo = TodoRepository::new();

    assert_eq!(todo_repo.map.len(), 0);
}

#[test]
fn add_todo() {
    let mut todo_repo = TodoRepository::new();

    todo_repo.add("test".to_string()).unwrap();

    assert_eq!(todo_repo.map.len(), 1);
    assert_eq!(todo_repo.map.get(&0).unwrap().title, "test".to_string());
}

#[test]
fn get_todo() {
    let mut todo_repo = TodoRepository::new();

    let test_title = "test".to_string();

    todo_repo.add(test_title.clone()).unwrap();

    let todo = todo_repo.get(0).unwrap();

    assert_eq!(todo.title, test_title)
}

#[test]
fn list_todo() {
    let mut todo_repo = TodoRepository::new();

    let _ = todo_repo.add("test".to_string());
    let _ = todo_repo.add("test".to_string());

    let list = todo_repo.list().unwrap();
    assert_eq!(list.len(), 2);

    assert_eq!(list[0].title, "test".to_string());
    assert_eq!(list[1].title, "test".to_string());
}

#[test]
fn size_after_three_adds() {
    let mut repo = TodoRepository::new();
    repo.add("a".to_string()).unwrap();
    repo.add("b".to_string()).unwrap();
    repo.add("c".to_string()).unwrap();
    assert_eq!(repo.map.len(), 3);
    assert_eq!(repo.get(2).unwrap().title, "c");
}

#[test]
fn add_then_get_by_size_before() {
    let mut repo = TodoRepository::new();
    repo.add("first".to_string()).unwrap();
    repo.add("second".to_string()).unwrap();
    let got = repo.get(1).unwrap();
    assert_eq!(got.title, "second");
    assert!(!got.done);
}

#[test]
fn done_completes_and_keeps_title() {
    let mut repo = TodoRepository::new();
    repo.add("write report".to_string()).unwrap();
    repo.add("other".to_string()).unwrap();
    let d = repo.done(0).unwrap();
    assert_eq!(d.title, "write report");
    assert!(d.done);
    let g = repo.get(0).unwrap();
    assert_eq!(g.title, "write report");
    assert!(g.done);
    assert!(!repo.get(1).unwrap().done);
}

#[test]
fn done_twice_stays_completed() {
    let mut repo = TodoRepository::new();
    repo.add("x".to_string()).unwrap();
    repo.done(0).unwrap();
    let d = repo.done(0).unwrap();
    assert!(d.done);
    assert_eq!(d.title, "x");
}

#[test]
fn missing_id_is_not_found() {
    let mut repo = TodoRepository::new();
    assert_eq!(repo.get(0).err(), Some(TodoError::NotFound));
    assert_eq!(repo.done(0).err(), Some(TodoError::NotFound));
    repo.add("x".to_string()).unwrap();
    assert_eq!(repo.get(-1).err(), Some(TodoError::NotFound));
    assert_eq!(repo.done(5).err(), Some(TodoError::NotFound));
    assert_eq!(repo.map.len(), 1);
    assert!(!repo.get(0).unwrap().done);
}

#[test]
fn delete_removes_record() {
    let mut repo = TodoRepository::new();
    repo.add("x".to_string()).unwrap();
    repo.add("y".to_string()).unwrap();
    repo.delete(0).unwrap();
    assert_eq!(repo.get(0).err(), Some(TodoError::NotFound));
    assert_eq!(repo.get(1).unwrap().title, "y");
    assert_eq!(repo.map.len(), 1);
}

#[test]
fn delete_missing_is_no_op() {
    let mut repo = TodoRepository::new();
    repo.add("x".to_string()).unwrap();
    assert!(repo.delete(7).is_ok());
    assert_eq!(repo.map.len(), 1);
    assert_eq!(repo.get(0).unwrap().title, "x");
}

#[test]
fn add_after_delete_reuses_size_as_id() {
    let mut repo = TodoRepository::new();
    repo.add("a".to_string()).unwrap();
    repo.add("b".to_string()).unwrap();
    repo.delete(0).unwrap();
    repo.add("c".to_string()).unwrap();
    assert_eq!(repo.map.len(), 1);
    assert_eq!(repo.get(1).unwrap().title, "c");
    assert_eq!(repo.get(0).err(), Some(TodoError::NotFound));
}

#[test]
fn list_empty_store() {
    let mut repo = TodoRepository::new();
    assert!(repo.list().unwrap().is_empty());
}

#[test]
fn list_two_titles_any_order() {
    let mut repo = TodoRepository::new();
    repo.add("A".to_string()).unwrap();
    repo.add("B".to_string()).unwrap();
    let list = repo.list().unwrap();
    assert_eq!(
        titles_and_flags(&list),
        vec![("A".to_string(), false), ("B".to_string(), false)]
    );
}

#[test]
fn end_to_end_buy_milk() {
    let mut repo = TodoRepository::new();
    repo.add("Buy milk".to_string()).unwrap();
    let list = repo.list().unwrap();
    assert_eq!(titles_and_flags(&list), vec![("Buy milk".to_string(), false)]);
    repo.done(0).unwrap();
    let list = repo.list().unwrap();
    assert_eq!(titles_and_flags(&list), vec![("Buy milk".to_string(), true)]);
    repo.delete(0).unwrap();
    assert!(repo.list().unwrap().is_empty());
}
