use tasklist::task::Task;
use tasklist::task::TaskList;

fn task(id: usize, description: &str, completed: bool) -> Task {
    Task { id, description: description.to_string(), completed }
}

#[test]
fn add_appends_with_next_id() {
    let mut list = TaskList::new();
    list.add("buy milk".to_string());
    assert_eq!(list.tasks.len(), 1);
    assert_eq!(list.tasks[0], task(1, "buy milk", false));
    list.add("walk dog".to_string());
    assert_eq!(list.tasks.len(), 2);
    assert_eq!(list.tasks[1], task(2, "walk dog", false));
}

#[test]
fn add_after_removal_reuses_length_plus_one() {
    let mut list = TaskList::new();
    list.add("a".to_string());
    list.add("b".to_string());
    list.add("c".to_string());
    list.remove(2);
    list.add("d".to_string());
    let ids: Vec<usize> = list.tasks.iter().map(|t| t.id).collect();
    assert_eq!(ids, vec![1, 3, 3]);
}

#[test]
fn complete_marks_first_match_only() {
    let mut list = TaskList { tasks: vec![task(7, "a", false), task(7, "b", false)] };
    list.complete(7);
    assert_eq!(list.tasks[0], task(7, "a", true));
    assert_eq!(list.tasks[1], task(7, "b", false));
}

#[test]
fn complete_without_match_changes_nothing() {
    let mut list = TaskList { tasks: vec![task(1, "a", false)] };
    list.complete(9);
    assert_eq!(list.tasks, vec![task(1, "a", false)]);
}

#[test]
fn complete_twice_equals_once() {
    let mut once = TaskList { tasks: vec![task(1, "a", false), task(2, "b", false)] };
    once.complete(2);
    let mut twice = TaskList { tasks: vec![task(1, "a", false), task(2, "b", false)] };
    twice.complete(2);
    twice.complete(2);
    assert_eq!(once, twice);
}

#[test]
fn remove_drops_every_match_in_order() {
    let mut list = TaskList {
        tasks: vec![task(1, "a", false), task(2, "b", true), task(1, "c", false)],
    };
    list.remove(1);
    assert_eq!(list.tasks, vec![task(2, "b", true)]);
}

#[test]
fn remove_twice_is_noop_second_time() {
    let mut list = TaskList { tasks: vec![task(1, "a", false), task(2, "b", false)] };
    list.remove(1);
    let after_first = list.clone();
    list.remove(1);
    assert_eq!(list, after_first);
}

#[test]
fn clear_always_empties() {
    let mut list = TaskList { tasks: vec![task(1, "a", false), task(2, "b", true)] };
    list.clear();
    assert!(list.tasks.is_empty());
    let mut empty = TaskList::new();
    empty.clear();
    assert!(empty.tasks.is_empty());
}
