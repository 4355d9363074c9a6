use tasklist::reader::load_tasks;
use tasklist::reader::parse_tasks;
use tasklist::task::Task;
use tasklist::task::TaskList;
use tasklist::writer::serialize_tasks;

fn task(id: usize, description: &str, completed: bool) -> Task {
    Task { id, description: description.to_string(), completed }
}

#[test]
fn empty_list_serializes_to_bare_brackets() {
    assert_eq!(serialize_tasks(&TaskList::new()), "[]");
}

#[test]
fn one_task_serializes_pretty_printed() {
    let list = TaskList { tasks: vec![task(1, "buy milk", false)] };
    let expected = "[\n  {\n    \"id\": 1,\n    \"description\": \"buy milk\",\n    \"completed\": false\n  }\n]";
    assert_eq!(serialize_tasks(&list), expected);
}

#[test]
fn round_trip_keeps_ids_descriptions_flags_and_order() {
    let list = TaskList {
        tasks: vec![task(1, "buy milk", false), task(2, "walk dog", true), task(3, "", false)],
    };
    let text = serialize_tasks(&list);
    assert_eq!(parse_tasks(&text), Some(list));
}

#[test]
fn round_trip_keeps_escaped_characters() {
    let desc = "say \"hi\"\\path\nnext\ttab\rcr \u{7}bell \u{8}bs \u{c}ff caf\u{e9} \u{1f600}";
    let list = TaskList { tasks: vec![task(1, desc, true)] };
    let text = serialize_tasks(&list);
    assert_eq!(parse_tasks(&text), Some(list));
}

#[test]
fn round_trip_keeps_large_ids() {
    let list = TaskList { tasks: vec![task(usize::MAX, "big", false), task(0, "zero", true)] };
    let text = serialize_tasks(&list);
    assert_eq!(parse_tasks(&text), Some(list));
}

#[test]
fn parser_accepts_compact_and_spaced_layouts() {
    let compact = "[{\"id\":1,\"description\":\"a\",\"completed\":true}]";
    let spaced = " [ { \"id\" : 1 , \"description\" : \"a\" , \"completed\" : true } ] ";
    let expected = TaskList { tasks: vec![task(1, "a", true)] };
    assert_eq!(parse_tasks(compact), Some(expected.clone()));
    assert_eq!(parse_tasks(spaced), Some(expected));
}

#[test]
fn parser_accepts_common_string_escapes() {
    let text = "[{\"id\":1,\"description\":\"a\\/b\\u00e9\\b\\f\",\"completed\":false}]";
    let expected = TaskList { tasks: vec![task(1, "a/b\u{e9}\u{8}\u{c}", false)] };
    assert_eq!(parse_tasks(text), Some(expected));
}

#[test]
fn malformed_documents_are_rejected() {
    let bad = [
        "",
        "not json",
        "[",
        "[]]",
        "[] trailing",
        "{\"id\":1}",
        "[{}]",
        "[{\"id\":1,\"description\":\"a\",\"completed\":false},]",
        "[{\"completed\":false,\"id\":1,\"description\":\"a\"}]",
        "[{\"id\":01,\"description\":\"a\",\"completed\":false}]",
        "[{\"id\":-1,\"description\":\"a\",\"completed\":false}]",
        "[{\"id\":99999999999999999999999999,\"description\":\"a\",\"completed\":false}]",
        "[{\"id\":1,\"description\":\"a\\q\",\"completed\":false}]",
        "[{\"id\":1,\"description\":\"a\\u0100\",\"completed\":false}]",
        "[{\"id\":1,\"description\":\"a\",\"completed\":maybe}]",
        "[{\"id\":1,\"description\":\"unterminated,\"completed\":false}]",
    ];
    for text in bad.iter() {
        assert_eq!(parse_tasks(text), None, "should reject: {}", text);
    }
}

#[test]
fn loading_a_missing_file_yields_empty_without_warning() {
    let (list, warned) = load_tasks(None);
    assert!(list.tasks.is_empty());
    assert!(!warned);
}

#[test]
fn loading_malformed_contents_yields_empty_with_warning() {
    let (list, warned) = load_tasks(Some("not a task list"));
    assert!(list.tasks.is_empty());
    assert!(warned);
}

#[test]
fn loading_wellformed_contents_yields_the_list() {
    let list = TaskList { tasks: vec![task(1, "a", false)] };
    let text = serialize_tasks(&list);
    let (loaded, warned) = load_tasks(Some(&text));
    assert_eq!(loaded, list);
    assert!(!warned);
}

#[test]
fn written_text_is_wellformed_json_with_the_same_values() {
    let list = TaskList {
        tasks: vec![task(1, "say \"hi\"\\\n", false), task(2, "walk dog", true)],
    };
    let text = serialize_tasks(&list);
    let value: serde_json::Value = serde_json::from_str(&text).expect("writer must emit JSON");
    let array = value.as_array().expect("top level must be an array");
    assert_eq!(array.len(), 2);
    for (entry, expected) in array.iter().zip(list.tasks.iter()) {
        assert_eq!(entry.get("id").and_then(|v| v.as_u64()), Some(expected.id as u64));
        assert_eq!(
            entry.get("description").and_then(|v| v.as_str()),
            Some(expected.description.as_str())
        );
        assert_eq!(entry.get("completed").and_then(|v| v.as_bool()), Some(expected.completed));
    }
}
