use todo_list::codec::{decode_tasks, encode_tasks};
use todo_list::command::{render, Response, Session};
use todo_list::store::List;
use todo_list::task::Task;

fn session_with(contents: &[&str]) -> Session {
    let mut tasks: Vec<Task> = Vec::new();
    for c in contents {
        tasks.push(Task::new(c));
    }
    Session::new(List::new(tasks))
}

fn stored(s: &Session) -> Vec<String> {
    s.list.list().into_iter().map(|(_, t)| t.content).collect()
}

fn message(r: &Response) -> String {
    render(r).expect("response has a one-line message")
}

#[test]
fn add_then_todo_shows_the_task() {
    let mut s = session_with(&[]);
    let r = s.step("ADD buy milk");
    assert!(matches!(r, Response::Added));
    assert_eq!(message(&r), "Adding Task Successfully!");
    assert_eq!(s.list.count, 1);
    match s.step("TODO") {
        Response::Listing(items) => {
            assert_eq!(items.len(), 1);
            assert_eq!(items[0].0, 0);
            assert_eq!(items[0].1.content, "buy milk");
        }
        _ => panic!("TODO on a filled store must list it"),
    }
}

#[test]
fn add_without_argument_uses_the_placeholder() {
    let mut s = session_with(&[]);
    assert!(matches!(s.step("ADD"), Response::Added));
    assert_eq!(
        stored(&s),
        vec!["To Be Determined\nwrite something to do here."]
    );
}

#[test]
fn delete_out_of_range_reports_and_keeps_store() {
    let mut s = session_with(&["a"]);
    let r = s.step("DEL 5");
    assert!(matches!(r, Response::OutOfRange(5)));
    assert_eq!(message(&r), "Index out of Range: 5.");
    assert_eq!(s.list.count, 1);
    assert_eq!(stored(&s), vec!["a"]);
}

#[test]
fn delete_non_number_reports_and_keeps_store() {
    let mut s = session_with(&["a"]);
    let r = s.step("DEL abc");
    match &r {
        Response::NotANumber(x) => assert_eq!(x, "abc"),
        _ => panic!("a non-numeric index must be refused"),
    }
    assert_eq!(message(&r), "Not a Number: abc.");
    assert_eq!(s.list.count, 1);
    assert_eq!(stored(&s), vec!["a"]);
}

#[test]
fn delete_first_shifts_the_rest() {
    let mut s = session_with(&["a", "b"]);
    let r = s.step("DEL 0");
    assert!(matches!(r, Response::Deleted));
    assert_eq!(message(&r), "Deleting Task Successfully!");
    assert_eq!(stored(&s), vec!["b"]);
    match s.step("TODO") {
        Response::Listing(items) => {
            assert_eq!(items.len(), 1);
            assert_eq!(items[0].0, 0);
            assert_eq!(items[0].1.content, "b");
        }
        _ => panic!("TODO on a filled store must list it"),
    }
}

#[test]
fn delete_without_index_reports_it() {
    let mut s = session_with(&["a"]);
    let r = s.step("DEL");
    assert!(matches!(r, Response::NoIndex));
    assert_eq!(message(&r), "No Index Specified.");
    assert_eq!(stored(&s), vec!["a"]);
}

#[test]
fn large_well_formed_index_is_out_of_range() {
    let mut s = session_with(&["a"]);
    let r = s.step("DEL 300");
    assert!(matches!(r, Response::OutOfRange(300)));
    assert_eq!(message(&r), "Index out of Range: 300.");
    assert_eq!(stored(&s), vec!["a"]);
}

#[test]
fn index_beyond_machine_range_is_out_of_range() {
    let mut s = session_with(&["a"]);
    match s.step("DEL 99999999999999999999999999") {
        Response::OutOfRange(n) => assert_eq!(n, usize::MAX),
        _ => panic!("a well-formed numeral must classify against the range"),
    }
    assert_eq!(stored(&s), vec!["a"]);
}

#[test]
fn leading_zeros_parse_to_the_index_value() {
    let mut s = session_with(&["a", "b"]);
    assert!(matches!(s.step("DEL 001"), Response::Deleted));
    assert_eq!(stored(&s), vec!["a"]);
}

#[test]
fn index_with_plus_sign_parses() {
    let mut s = session_with(&["a", "b"]);
    assert!(matches!(s.step("DEL +1"), Response::Deleted));
    assert_eq!(stored(&s), vec!["a"]);
}

#[test]
fn update_prompts_then_replaces() {
    let mut s = session_with(&["a"]);
    match s.step("UPDATE 0") {
        Response::Show(content) => assert_eq!(content, "a"),
        _ => panic!("UPDATE with a live index must show the task"),
    }
    match s.step("z") {
        Response::Updated(previous) => assert_eq!(previous, "a"),
        _ => panic!("the next line must become the new content"),
    }
    assert_eq!(stored(&s), vec!["z"]);
    assert_eq!(s.list.count, 1);
}

#[test]
fn update_out_of_range_reports_and_keeps_store() {
    let mut s = session_with(&["a"]);
    let r = s.step("UPDATE 7");
    assert!(matches!(r, Response::OutOfRange(7)));
    assert_eq!(message(&r), "Index out of Range: 7.");
    assert_eq!(stored(&s), vec!["a"]);
}

#[test]
fn update_non_number_reports_it() {
    let mut s = session_with(&["a"]);
    match s.step("UPDATE one") {
        Response::NotANumber(x) => assert_eq!(x, "one"),
        _ => panic!("a non-numeric index must be refused"),
    }
    assert_eq!(stored(&s), vec!["a"]);
}

#[test]
fn todo_on_empty_store_says_so() {
    let mut s = session_with(&[]);
    let r = s.step("TODO");
    assert!(matches!(r, Response::Empty));
    assert_eq!(message(&r), "We have an empty todo list!");
}

#[test]
fn clear_then_todo_is_empty() {
    let mut s = session_with(&["a", "b"]);
    let r = s.step("CLEAR");
    assert!(matches!(r, Response::Cleared));
    assert_eq!(message(&r), "Clear up the Todo List Successfully!");
    assert_eq!(s.list.count, 0);
    assert!(matches!(s.step("TODO"), Response::Empty));
}

#[test]
fn unknown_command_is_echoed() {
    let mut s = session_with(&[]);
    let r = s.step("FOO bar");
    match &r {
        Response::Unknown(x) => assert_eq!(x, "FOO bar"),
        _ => panic!("an unrecognized line must be reported"),
    }
    assert_eq!(message(&r), "unknown command: FOO bar");
}

#[test]
fn exit_must_match_exactly() {
    let mut s = session_with(&[]);
    assert!(matches!(s.step("EXIT now"), Response::Unknown(_)));
    assert!(matches!(s.step("EXIT"), Response::Bye));
}

#[test]
fn exit_leaves_a_store_that_persists_in_order() {
    let mut s = session_with(&["first", "second", "third"]);
    let r = s.step("EXIT");
    assert!(matches!(r, Response::Bye));
    assert_eq!(message(&r), "exiting the program...");
    assert_eq!(s.list.count, 3);
    let encoded = encode_tasks(&s.list.todo_list);
    let reloaded = decode_tasks(&encoded).expect("own encoding must decode");
    let contents: Vec<String> = reloaded.into_iter().map(|t| t.content).collect();
    assert_eq!(contents, vec!["first", "second", "third"]);
}
