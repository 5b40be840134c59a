use todo_cli::record::{decode_line, encode_line, is_well_formed_line, render_description};
use todo_cli::text::{blank, chars_of, occurs};
use todo_cli::{Todo, TodoError};

fn empty() -> Todo {
    Todo::new(String::from("/tmp/todo"), "").unwrap()
}

fn args(items: &[&str]) -> Vec<String> {
    items.iter().map(|s| s.to_string()).collect()
}

#[test]
fn add_then_list_shows_open_task() {
    let mut t = Todo::new(String::from("p"), "[*] old\n").unwrap();
    assert_eq!(t.add(&args(&["new task"])), Ok(None));
    assert_eq!(t.list(), "1 \x1b[9mold\x1b[0m\n2 new task\n");
    assert_eq!(t.contents(), "[*] old\n[ ] new task\n");
}

#[test]
fn complete_after_add_strikes_through() {
    let mut t = empty();
    t.add(&args(&["write report"])).unwrap();
    assert_eq!(t.complete(&args(&["write report"])), Ok(()));
    assert_eq!(t.list(), "1 \x1b[9mwrite report\x1b[0m\n");
}

#[test]
fn uncomplete_after_complete_restores_plain_row() {
    let mut t = empty();
    t.add(&args(&["call mum"])).unwrap();
    t.complete(&args(&["call mum"])).unwrap();
    assert_eq!(t.uncomplete(&args(&["call mum"])), Ok(0));
    assert_eq!(t.list(), "1 call mum\n");
    assert_eq!(t.contents(), "[ ] call mum\n");
}

#[test]
fn uncomplete_counts_tasks_already_open() {
    let mut t = Todo::new(String::from("p"), "[ ] a\n[*] b\n").unwrap();
    assert_eq!(t.uncomplete(&args(&["a", "b"])), Ok(1));
    assert_eq!(t.contents(), "[ ] a\n[ ] b\n");
}

#[test]
fn uncomplete_missing_is_refused() {
    let mut t = Todo::new(String::from("p"), "[*] a\n").unwrap();
    assert_eq!(t.uncomplete(&args(&["zzz"])), Err(TodoError::NotInList));
    assert_eq!(t.contents(), "[*] a\n");
}

#[test]
fn delete_after_add_removes_one_row() {
    let mut t = Todo::new(String::from("p"), "[ ] a\n").unwrap();
    t.add(&args(&["b"])).unwrap();
    assert_eq!(t.todo.len(), 2);
    t.delete(&args(&["b"]));
    assert_eq!(t.todo.len(), 1);
    assert_eq!(t.list(), "1 a\n");
}

#[test]
fn delete_needs_exact_match() {
    let mut t = Todo::new(String::from("p"), "[ ] buy milk\n").unwrap();
    t.delete(&args(&["milk"]));
    assert_eq!(t.contents(), "[ ] buy milk\n");
}

#[test]
fn update_after_add_replaces_description() {
    let mut t = Todo::new(String::from("p"), "[ ] a\n").unwrap();
    t.add(&args(&["b"])).unwrap();
    assert_eq!(t.update(&String::from("b"), &String::from("c")), Ok(()));
    assert_eq!(t.list(), "1 a\n2 c\n");
}

#[test]
fn update_keeps_completion() {
    let mut t = Todo::new(String::from("p"), "[*] a\n[ ] b\n").unwrap();
    assert_eq!(t.update(&String::from("a"), &String::from("z")), Ok(()));
    assert_eq!(t.contents(), "[*] z\n[ ] b\n");
}

#[test]
fn update_missing_is_refused() {
    let mut t = Todo::new(String::from("p"), "[ ] a\n").unwrap();
    assert_eq!(t.update(&String::from("q"), &String::from("z")), Err(TodoError::NotInList));
    assert_eq!(t.contents(), "[ ] a\n");
}

#[test]
fn clear_then_list_is_empty() {
    let mut t = Todo::new(String::from("p"), "[ ] a\n[*] b\n").unwrap();
    t.clear();
    assert_eq!(t.list(), "");
    assert_eq!(t.contents(), "");
    assert_eq!(t.todo_path, "p");
}

#[test]
fn buy_milk_scenario() {
    let mut t = empty();
    t.add(&args(&["buy milk"])).unwrap();
    assert_eq!(t.contents(), "[ ] buy milk\n");
    t.complete(&args(&["buy milk"])).unwrap();
    assert_eq!(t.contents(), "[*] buy milk\n");
    assert_eq!(t.list(), "1 \x1b[9mbuy milk\x1b[0m\n");
    t.delete(&args(&["buy milk"]));
    assert_eq!(t.contents(), "");
}

#[test]
fn duplicate_in_one_call_is_added_once() {
    let mut t = empty();
    assert_eq!(t.add(&args(&["x", "x"])), Ok(Some(1)));
    assert_eq!(t.contents(), "[ ] x\n");
}

#[test]
fn complete_missing_on_empty_list_is_refused() {
    let mut t = empty();
    assert_eq!(t.complete(&args(&["missing"])), Err(TodoError::NotInList));
    assert_eq!(t.contents(), "");
}

#[test]
fn complete_is_all_or_nothing() {
    let mut t = Todo::new(String::from("p"), "[ ] a\n[ ] b\n").unwrap();
    assert_eq!(t.complete(&args(&["a", "nope"])), Err(TodoError::NotInList));
    assert_eq!(t.contents(), "[ ] a\n[ ] b\n");
}

#[test]
fn complete_checks_substring_but_marks_exact() {
    let mut t = Todo::new(String::from("p"), "[ ] buy milk\n").unwrap();
    assert_eq!(t.complete(&args(&["milk"])), Ok(()));
    assert_eq!(t.contents(), "[ ] buy milk\n");
}

#[test]
fn add_without_arguments_is_refused() {
    let mut t = empty();
    assert_eq!(t.add(&[]), Err(TodoError::MissingArguments));
    assert_eq!(t.contents(), "");
}

#[test]
fn add_skips_blank_descriptions() {
    let mut t = empty();
    assert_eq!(t.add(&args(&[" \t", "y"])), Ok(None));
    assert_eq!(t.contents(), "[ ] y\n");
}

#[test]
fn add_stops_at_substring_of_existing_task() {
    let mut t = Todo::new(String::from("p"), "[ ] buy milk\n").unwrap();
    assert_eq!(t.add(&args(&["eggs", "milk", "bread"])), Ok(Some(1)));
    assert_eq!(t.contents(), "[ ] buy milk\n[ ] eggs\n");
}

#[test]
fn add_empty_description_stops() {
    let mut t = empty();
    assert_eq!(t.add(&args(&["", "a"])), Ok(Some(0)));
    assert_eq!(t.contents(), "");
}

#[test]
fn new_reads_lines() {
    let t = Todo::new(String::from("p"), "[ ] a\n[*] b").unwrap();
    assert_eq!(t.todo, vec![String::from("[ ] a"), String::from("[*] b")]);
    assert_eq!(t.todo_path, "p");
    assert_eq!(t.contents(), "[ ] a\n[*] b\n");
}

#[test]
fn new_rejects_malformed_lines() {
    assert_eq!(Todo::new(String::from("p"), "[ ] a\nhello\n").err(), Some(TodoError::MalformedLine(1)));
    assert_eq!(Todo::new(String::from("p"), "\n").err(), Some(TodoError::MalformedLine(0)));
    assert_eq!(Todo::new(String::from("p"), "[x] a\n").err(), Some(TodoError::MalformedLine(0)));
}

#[test]
fn new_on_empty_text_is_empty() {
    let t = empty();
    assert!(t.todo.is_empty());
    assert_eq!(t.list(), "");
}

#[test]
fn list_numbers_past_nine() {
    let mut t = empty();
    let items: Vec<String> = (0..11).map(|i| format!("task{}", (b'a' + i) as char)).collect();
    assert_eq!(t.add(&items), Ok(None));
    let out = t.list();
    let rows: Vec<&str> = out.lines().collect();
    assert_eq!(rows.len(), 11);
    assert_eq!(rows[9], "10 taskj");
    assert_eq!(rows[10], "11 taskk");
}

#[test]
fn non_ascii_descriptions() {
    let mut t = empty();
    t.add(&args(&["café ☕"])).unwrap();
    t.complete(&args(&["café ☕"])).unwrap();
    assert_eq!(t.contents(), "[*] café ☕\n");
    assert_eq!(t.list(), "1 \x1b[9mcafé ☕\x1b[0m\n");
}

#[test]
fn record_codec() {
    assert_eq!(encode_line(false, "a b"), "[ ] a b");
    assert_eq!(encode_line(true, "a b"), "[*] a b");
    assert_eq!(decode_line("[*] done"), (true, String::from("done")));
    assert_eq!(decode_line("[ ] "), (false, String::new()));
    assert!(is_well_formed_line("[ ] x"));
    assert!(!is_well_formed_line("[ ]x"));
    assert!(!is_well_formed_line("[ ]"));
}

#[test]
fn strikethrough_rendering() {
    assert_eq!(render_description(true, "abc"), "\x1b[9mabc\x1b[0m");
    assert_eq!(render_description(false, "abc"), "abc");
}

#[test]
fn text_helpers() {
    assert!(blank(""));
    assert!(blank(" \t\n\u{3000}"));
    assert!(!blank(" a "));
    let t = chars_of("hello world");
    assert!(occurs(&t, &chars_of("lo w")));
    assert!(occurs(&t, &chars_of("")));
    assert!(!occurs(&t, &chars_of("world!")));
    assert_eq!(chars_of("aé"), vec!['a', 'é']);
}

#[test]
fn saved_text_reads_back() {
    let mut t = empty();
    t.add(&args(&["a", "b c", "d"])).unwrap();
    t.complete(&args(&["b c"])).unwrap();
    let again = Todo::new(String::from("p"), &t.contents()).unwrap();
    assert_eq!(again.todo, t.todo);
    assert_eq!(again.list(), t.list());
}

#[test]
fn white_space_matches_std() {
    for c in (0u32..=0x10FFFF).filter_map(char::from_u32) {
        assert_eq!(blank(&c.to_string()), c.is_whitespace(), "{:?}", c);
    }
}
