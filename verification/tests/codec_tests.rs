use todos::store::{StorageError, ToDos};
use todos::task::ToDo;

fn store_of(items: Vec<(&str, bool)>) -> ToDos {
    let mut store = ToDos { todos: Vec::new() };
    for (text, done) in items {
        let position = store.todos.len();
        store.todos.push(ToDo { item: text.to_string(), done, position });
    }
    store
}

#[test]
fn saved_form_is_the_canonical_record_list() {
    let store = store_of(vec![("a", false)]);
    assert_eq!(store.save(), "[{\"item\":\"a\",\"done\":false,\"position\":0}]");
}

#[test]
fn saved_form_of_several_records_separates_with_commas() {
    let store = store_of(vec![("milk", true), ("dog", false)]);
    assert_eq!(
        store.save(),
        "[{\"item\":\"milk\",\"done\":true,\"position\":0},{\"item\":\"dog\",\"done\":false,\"position\":1}]"
    );
}

#[test]
fn saved_form_of_an_empty_list_is_an_empty_container() {
    let store = store_of(vec![]);
    assert_eq!(store.save(), "[]");
}

#[test]
fn save_escapes_quotes_and_backslashes() {
    let store = store_of(vec![("say \"hi\" \\ bye", false)]);
    assert_eq!(
        store.save(),
        "[{\"item\":\"say \\\"hi\\\" \\\\ bye\",\"done\":false,\"position\":0}]"
    );
}

#[test]
fn save_then_load_reproduces_the_list_exactly() {
    let store = store_of(vec![
        ("plain", false),
        ("with \"quotes\"", true),
        ("back\\slash and \nnewline", false),
        ("", true),
    ]);
    let reloaded = ToDos::load(&store.save()).unwrap();
    assert_eq!(reloaded.todos.len(), store.todos.len());
    for (a, b) in store.todos.iter().zip(reloaded.todos.iter()) {
        assert_eq!(a.item, b.item);
        assert_eq!(a.done, b.done);
        assert_eq!(a.position, b.position);
    }
}

#[test]
fn loading_an_empty_file_yields_an_empty_list_not_an_error() {
    let store = ToDos::load("").unwrap();
    assert_eq!(store.todos.len(), 0);
}

#[test]
fn loading_garbage_is_corrupt_never_an_empty_list() {
    for garbage in [
        "hello world",
        "{\"item\":\"a\"}",
        "[{\"item\":\"a\",\"done\":false,\"position\":0}",
        "[{\"item\":\"a\",\"done\":maybe,\"position\":0}]",
        "null",
        "  ",
        "[] ",
    ] {
        let r = ToDos::load(garbage);
        assert!(matches!(r, Err(StorageError::Corrupt)), "accepted: {}", garbage);
    }
}

#[test]
fn loading_a_canonical_text_yields_its_records() {
    let text = "[{\"item\":\"one\",\"done\":false,\"position\":0},{\"item\":\"two\",\"done\":true,\"position\":1}]";
    let store = ToDos::load(text).unwrap();
    assert_eq!(store.todos.len(), 2);
    assert_eq!(store.todos[0].item, "one");
    assert!(!store.todos[0].done);
    assert_eq!(store.todos[0].position, 0);
    assert_eq!(store.todos[1].item, "two");
    assert!(store.todos[1].done);
    assert_eq!(store.todos[1].position, 1);
}

#[test]
fn loading_undoes_the_escapes() {
    let text = "[{\"item\":\"say \\\"hi\\\" \\\\ bye\",\"done\":false,\"position\":0}]";
    let store = ToDos::load(text).unwrap();
    assert_eq!(store.todos[0].item, "say \"hi\" \\ bye");
}

#[test]
fn loading_rejects_positions_that_differ_from_indices() {
    let text = "[{\"item\":\"a\",\"done\":false,\"position\":1}]";
    assert!(matches!(ToDos::load(text), Err(StorageError::Corrupt)));
    let swapped = "[{\"item\":\"a\",\"done\":false,\"position\":1},{\"item\":\"b\",\"done\":false,\"position\":0}]";
    assert!(matches!(ToDos::load(swapped), Err(StorageError::Corrupt)));
}

#[test]
fn loading_the_empty_container_yields_an_empty_list() {
    let store = ToDos::load("[]").unwrap();
    assert_eq!(store.todos.len(), 0);
}
