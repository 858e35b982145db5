use todos::command::{
    convert_position_to_index, get_action, get_help_string, handle_args, parse_input, Action,
    NewArgs, Reply,
};
use todos::store::ToDos;

#[test]
fn every_verb_is_recognized() {
    assert!(matches!(get_action("add"), Ok(Action::Add)));
    assert!(matches!(get_action("update"), Ok(Action::Update)));
    assert!(matches!(get_action("remove"), Ok(Action::Remove)));
    assert!(matches!(get_action("exit"), Ok(Action::Exit)));
    assert!(matches!(get_action("help"), Ok(Action::Help)));
}

#[test]
fn unknown_verbs_are_rejected() {
    assert_eq!(get_action("ADD").unwrap_err(), "Invalid Action!");
    assert_eq!(get_action("").unwrap_err(), "Invalid Action!");
    assert_eq!(get_action("adds").unwrap_err(), "Invalid Action!");
}

#[test]
fn a_line_splits_at_its_first_space() {
    let args = parse_input("add buy milk").unwrap();
    assert_eq!(args.action, Action::Add);
    assert_eq!(args.suffix, "buy milk");
}

#[test]
fn a_line_without_a_space_has_an_empty_suffix() {
    let args = parse_input("exit").unwrap();
    assert_eq!(args.action, Action::Exit);
    assert_eq!(args.suffix, "");
}

#[test]
fn later_spaces_stay_in_the_suffix() {
    let args = parse_input("add  leading space kept").unwrap();
    assert_eq!(args.action, Action::Add);
    assert_eq!(args.suffix, " leading space kept");
}

#[test]
fn an_unknown_first_word_rejects_the_line() {
    assert_eq!(parse_input("frobnicate 3").unwrap_err(), "Invalid Action!");
    assert_eq!(parse_input("").unwrap_err(), "Invalid Action!");
}

#[test]
fn positions_convert_to_zero_based_indices() {
    assert_eq!(convert_position_to_index("1", 3), Ok(0));
    assert_eq!(convert_position_to_index("3", 3), Ok(2));
    assert_eq!(convert_position_to_index("+2", 3), Ok(1));
    assert_eq!(convert_position_to_index("007", 9), Ok(6));
}

#[test]
fn non_numerals_are_not_a_valid_number() {
    assert_eq!(convert_position_to_index("abc", 3), Err("Not a valid Number"));
    assert_eq!(convert_position_to_index("", 3), Err("Not a valid Number"));
    assert_eq!(convert_position_to_index("+", 3), Err("Not a valid Number"));
    assert_eq!(convert_position_to_index("2x", 3), Err("Not a valid Number"));
    assert_eq!(convert_position_to_index("-1", 3), Err("Not a valid Number"));
    assert_eq!(
        convert_position_to_index("99999999999999999999999999", 3),
        Err("Not a valid Number")
    );
}

#[test]
fn out_of_range_positions_are_not_a_valid_index() {
    assert_eq!(convert_position_to_index("0", 3), Err("Not a valid index"));
    assert_eq!(convert_position_to_index("4", 3), Err("Not a valid index"));
    assert_eq!(convert_position_to_index("1", 0), Err("Not a valid index"));
}

#[test]
fn the_help_text_names_the_verbs() {
    let help = get_help_string();
    assert_eq!(
        help,
        "This are valid inputs:\n add \"todo\", update \"number\", remove \"number\" , exit or help"
    );
}

#[test]
fn handling_add_appends_and_asks_to_persist() {
    let mut store = ToDos { todos: Vec::new() };
    let reply = handle_args(
        NewArgs { action: Action::Add, suffix: "buy milk".to_string() },
        &mut store,
    );
    assert!(matches!(reply, Reply::Changed));
    assert_eq!(store.todos.len(), 1);
    assert_eq!(store.todos[0].item, "buy milk");
}

#[test]
fn handling_update_toggles_the_named_task() {
    let mut store = ToDos { todos: Vec::new() };
    store.insert("a".to_string());
    store.insert("b".to_string());
    let reply = handle_args(
        NewArgs { action: Action::Update, suffix: "2".to_string() },
        &mut store,
    );
    assert!(matches!(reply, Reply::Changed));
    assert!(store.todos[1].done);
    assert!(!store.todos[0].done);
}

#[test]
fn handling_remove_deletes_the_named_task() {
    let mut store = ToDos { todos: Vec::new() };
    store.insert("a".to_string());
    store.insert("b".to_string());
    let reply = handle_args(
        NewArgs { action: Action::Remove, suffix: "1".to_string() },
        &mut store,
    );
    assert!(matches!(reply, Reply::Changed));
    assert_eq!(store.todos.len(), 1);
    assert_eq!(store.todos[0].item, "b");
    assert_eq!(store.todos[0].position, 0);
}

#[test]
fn handling_a_bad_position_rejects_and_changes_nothing() {
    let mut store = ToDos { todos: Vec::new() };
    store.insert("a".to_string());
    let reply = handle_args(
        NewArgs { action: Action::Update, suffix: "2".to_string() },
        &mut store,
    );
    assert!(matches!(reply, Reply::Rejected("Not a valid index")));
    let reply = handle_args(
        NewArgs { action: Action::Remove, suffix: "x".to_string() },
        &mut store,
    );
    assert!(matches!(reply, Reply::Rejected("Not a valid Number")));
    assert_eq!(store.todos.len(), 1);
    assert!(!store.todos[0].done);
}

#[test]
fn help_and_exit_leave_the_list_alone() {
    let mut store = ToDos { todos: Vec::new() };
    store.insert("a".to_string());
    let reply = handle_args(
        NewArgs { action: Action::Help, suffix: String::new() },
        &mut store,
    );
    assert!(matches!(reply, Reply::Help));
    let reply = handle_args(
        NewArgs { action: Action::Exit, suffix: String::new() },
        &mut store,
    );
    assert!(matches!(reply, Reply::Bye));
    assert_eq!(store.todos.len(), 1);
}
