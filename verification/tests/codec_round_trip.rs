use todo_list::codec::{decode_tasks, encode_tasks};
use todo_list::task::Task;

fn tasks_from(contents: &[&str]) -> Vec<Task> {
    contents.iter().map(|c| Task::new(c)).collect()
}

fn contents(tasks: &[Task]) -> Vec<String> {
    tasks.iter().map(|t| t.content.clone()).collect()
}

#[test]
fn encode_empty_store() {
    assert_eq!(encode_tasks(&Vec::new()), "[]");
}

#[test]
fn encode_plain_contents() {
    let tasks = tasks_from(&["a", "b c"]);
    assert_eq!(
        encode_tasks(&tasks),
        "[{\"content\":\"a\"},{\"content\":\"b c\"}]"
    );
}

#[test]
fn encode_escapes_special_characters() {
    let tasks = tasks_from(&["a\"b\\c\nd\te\u{1}f"]);
    assert_eq!(
        encode_tasks(&tasks),
        "[{\"content\":\"a\\\"b\\\\c\\nd\\te\\u0001f\"}]"
    );
}

#[test]
fn decode_reads_a_stored_file() {
    let tasks = decode_tasks("[{\"content\":\"x\"},{\"content\":\"y z\"}]")
        .expect("well-formed file");
    assert_eq!(contents(&tasks), vec!["x", "y z"]);
}

#[test]
fn decode_reads_escapes() {
    let tasks = decode_tasks("[{\"content\":\"a\\\"b\\\\c\\nd\\u0001\"}]")
        .expect("well-formed file");
    assert_eq!(contents(&tasks), vec!["a\"b\\c\nd\u{1}"]);
}

#[test]
fn decode_rejects_malformed_input() {
    assert!(decode_tasks("").is_none());
    assert!(decode_tasks("[").is_none());
    assert!(decode_tasks("{}").is_none());
    assert!(decode_tasks("[{\"content\":\"a\"}").is_none());
    assert!(decode_tasks("[{\"content\":\"a\"},]").is_none());
    assert!(decode_tasks("[{\"Content\":\"a\"}]").is_none());
    assert!(decode_tasks("[{\"content\":\"a\"}] ").is_none());
    assert!(decode_tasks("[{\"content\":\"a\\q\"}]").is_none());
}

#[test]
fn round_trip_reproduces_contents_and_order() {
    let originals: Vec<&str> = vec![
        "",
        "plain",
        "with \"quotes\" and \\slashes\\",
        "line\nbreaks\tand\rcontrols\u{8}\u{c}\u{1f}",
        "unicode: h\u{e9}llo \u{2713} \u{1f600}",
        "To Be Determined\nwrite something to do here.",
    ];
    let tasks = tasks_from(&originals);
    let encoded = encode_tasks(&tasks);
    let decoded = decode_tasks(&encoded).expect("own encoding must decode");
    assert_eq!(decoded.len(), tasks.len());
    assert_eq!(contents(&decoded), contents(&tasks));
}
