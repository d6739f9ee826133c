use todo_list::store::List;
use todo_list::task::Task;

fn store_with(contents: &[&str]) -> List {
    let mut tasks: Vec<Task> = Vec::new();
    for c in contents {
        tasks.push(Task::new(c));
    }
    List::new(tasks)
}

fn contents_of(list: &List) -> Vec<String> {
    list.list().into_iter().map(|(_, t)| t.content).collect()
}

#[test]
fn adds_keep_count_and_order() {
    let mut list = List::new(Vec::new());
    assert_eq!(list.count, 0);
    list.add_task(Task::new("first"));
    list.add_task(Task::new("second"));
    list.add_task(Task::new("third"));
    assert_eq!(list.count, 3);
    let items = list.list();
    assert_eq!(items.len(), 3);
    for (i, (idx, _)) in items.iter().enumerate() {
        assert_eq!(*idx, i);
    }
    assert_eq!(contents_of(&list), vec!["first", "second", "third"]);
}

#[test]
fn add_default_uses_placeholder() {
    let mut list = List::new(Vec::new());
    list.add_default();
    assert_eq!(list.count, 1);
    assert_eq!(
        contents_of(&list),
        vec!["To Be Determined\nwrite something to do here."]
    );
}

#[test]
fn delete_shifts_following_tasks() {
    let mut list = store_with(&["a", "b", "c", "d"]);
    let removed = list.del_task(1).expect("index 1 is live");
    assert_eq!(removed.content, "b");
    assert_eq!(list.count, 3);
    assert_eq!(contents_of(&list), vec!["a", "c", "d"]);
}

#[test]
fn delete_out_of_range_leaves_store_unchanged() {
    let mut list = store_with(&["a"]);
    assert!(list.del_task(1).is_err());
    assert!(list.del_task(7).is_err());
    assert_eq!(list.count, 1);
    assert_eq!(contents_of(&list), vec!["a"]);
}

#[test]
fn operations_on_empty_store_report_not_found() {
    let mut list = List::new(Vec::new());
    assert!(list.del_task(0).is_err());
    assert!(list.update(0, String::from("x")).is_err());
    assert!(list.get(0).is_err());
    assert_eq!(list.count, 0);
    assert_eq!(list.list().len(), 0);
}

#[test]
fn update_out_of_range_leaves_store_unchanged() {
    let mut list = store_with(&["a", "b"]);
    assert!(list.update(2, String::from("x")).is_err());
    assert_eq!(list.count, 2);
    assert_eq!(contents_of(&list), vec!["a", "b"]);
}

#[test]
fn update_replaces_and_returns_previous() {
    let mut list = store_with(&["a", "b"]);
    let prev = list.update(0, String::from("z")).expect("index 0 is live");
    assert_eq!(prev, "a");
    assert_eq!(list.count, 2);
    assert_eq!(contents_of(&list), vec!["z", "b"]);
}

#[test]
fn get_returns_the_addressed_task() {
    let list = store_with(&["a", "b"]);
    assert_eq!(list.get(1).expect("index 1 is live").content, "b");
    assert!(list.get(2).is_err());
}

#[test]
fn clear_empties_regardless_of_prior_state() {
    let mut list = store_with(&["a", "b", "c"]);
    list.clear();
    assert_eq!(list.count, 0);
    assert_eq!(list.list().len(), 0);
    let mut empty = List::new(Vec::new());
    empty.clear();
    assert_eq!(empty.count, 0);
    assert_eq!(empty.list().len(), 0);
}
