use tasklist::cmd::parse_command;
use tasklist::cmd::Command;
use tasklist::cmd::CommandError;
use tasklist::reader::load_tasks;
use tasklist::render::help_text;
use tasklist::render::render_tasks;
use tasklist::render::unknown_text;
use tasklist::task::Task;
use tasklist::task::TaskList;
use tasklist::writer::serialize_tasks;

fn args(words: &[&str]) -> Vec<String> {
    words.iter().map(|w| w.to_string()).collect()
}

fn task(id: usize, description: &str, completed: bool) -> Task {
    Task { id, description: description.to_string(), completed }
}

#[test]
fn each_verb_is_recognized() {
    assert_eq!(parse_command(&args(&["help"])), Ok(Command::Help));
    assert_eq!(parse_command(&args(&["list"])), Ok(Command::List));
    assert_eq!(parse_command(&args(&["clear"])), Ok(Command::Clear));
    assert_eq!(parse_command(&args(&["complete", "3"])), Ok(Command::Complete(3)));
    assert_eq!(parse_command(&args(&["remove", "12"])), Ok(Command::Remove(12)));
}

#[test]
fn add_joins_words_with_single_spaces() {
    assert_eq!(
        parse_command(&args(&["add", "buy", "milk"])),
        Ok(Command::Add("buy milk".to_string()))
    );
    assert_eq!(parse_command(&args(&["add", "one"])), Ok(Command::Add("one".to_string())));
}

#[test]
fn add_without_description_is_an_error() {
    assert_eq!(parse_command(&args(&["add"])), Err(CommandError::EmptyDescription));
}

#[test]
fn missing_or_malformed_numbers_are_errors() {
    assert_eq!(parse_command(&args(&["complete"])), Err(CommandError::MissingNumber));
    assert_eq!(parse_command(&args(&["remove"])), Err(CommandError::MissingNumber));
    assert_eq!(parse_command(&args(&["complete", "abc"])), Err(CommandError::BadNumber));
    assert_eq!(parse_command(&args(&["complete", "-1"])), Err(CommandError::BadNumber));
    assert_eq!(parse_command(&args(&["remove", ""])), Err(CommandError::BadNumber));
    assert_eq!(
        parse_command(&args(&["remove", "99999999999999999999999999"])),
        Err(CommandError::BadNumber)
    );
}

#[test]
fn unknown_and_absent_verbs_fall_through() {
    assert_eq!(parse_command(&args(&["frobnicate"])), Err(CommandError::UnknownCommand));
    assert_eq!(parse_command(&args(&["Help"])), Err(CommandError::UnknownCommand));
    assert_eq!(parse_command(&args(&[])), Err(CommandError::UnknownCommand));
}

#[test]
fn listing_an_empty_store_says_no_tasks() {
    assert_eq!(render_tasks(&TaskList::new()), "No tasks.\n");
}

#[test]
fn listing_shows_ids_boxes_and_descriptions() {
    let list = TaskList { tasks: vec![task(1, "buy milk", false), task(12, "walk dog", true)] };
    assert_eq!(render_tasks(&list), "1. [ ] buy milk\n12. [X] walk dog\n");
}

#[test]
fn fixed_texts_match_the_surface() {
    assert_eq!(
        help_text(),
        "Commands:\n  add <description>  Add a new task\n  list               List all tasks\n  complete <number>  Mark a task as completed\n  remove <number>    Remove a task\n  clear              Remove all tasks\n  help               Show this help message\n"
    );
    assert_eq!(unknown_text(), "Unknown command. Use 'todo help' for a list of commands.\n");
}

#[test]
fn end_to_end_session_over_the_store_text() {
    // no file yet
    let (mut list, warned) = load_tasks(None);
    assert!(!warned);
    assert!(list.tasks.is_empty());
    // add "buy milk"
    list.add("buy milk".to_string());
    let stored = serialize_tasks(&list);
    assert_eq!(load_tasks(Some(&stored)).0.tasks, vec![task(1, "buy milk", false)]);
    // add "walk dog"
    let mut list = load_tasks(Some(&stored)).0;
    list.add("walk dog".to_string());
    let stored = serialize_tasks(&list);
    assert_eq!(
        load_tasks(Some(&stored)).0.tasks,
        vec![task(1, "buy milk", false), task(2, "walk dog", false)]
    );
    // complete 1
    let mut list = load_tasks(Some(&stored)).0;
    list.complete(1);
    let stored = serialize_tasks(&list);
    assert_eq!(
        load_tasks(Some(&stored)).0.tasks,
        vec![task(1, "buy milk", true), task(2, "walk dog", false)]
    );
    // remove 1
    let mut list = load_tasks(Some(&stored)).0;
    list.remove(1);
    let stored = serialize_tasks(&list);
    assert_eq!(load_tasks(Some(&stored)).0.tasks, vec![task(2, "walk dog", false)]);
    // clear
    let mut list = load_tasks(Some(&stored)).0;
    list.clear();
    let stored = serialize_tasks(&list);
    assert_eq!(stored, "[]");
    assert!(load_tasks(Some(&stored)).0.tasks.is_empty());
}
