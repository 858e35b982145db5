use todos::store::ToDos;
use todos::task::ToDo;

fn empty_store() -> ToDos {
    ToDos { todos: Vec::new() }
}

#[test]
fn insert_appends_with_next_position() {
    let mut store = empty_store();
    store.insert("first".to_string());
    store.insert("second".to_string());
    assert_eq!(store.todos.len(), 2);
    assert_eq!(store.todos[0].item, "first");
    assert!(!store.todos[0].done);
    assert_eq!(store.todos[0].position, 0);
    assert_eq!(store.todos[1].item, "second");
    assert_eq!(store.todos[1].position, 1);
}

#[test]
fn positions_equal_indices_after_every_operation() {
    let mut store = empty_store();
    let check = |s: &ToDos| {
        for (k, t) in s.todos.iter().enumerate() {
            assert_eq!(t.position, k);
        }
        assert!(s.check_positions());
    };
    store.insert("a".to_string());
    check(&store);
    store.insert("b".to_string());
    check(&store);
    store.insert("c".to_string());
    check(&store);
    assert!(store.update(1).is_ok());
    check(&store);
    assert!(store.remove(0).is_ok());
    check(&store);
    store.insert("d".to_string());
    check(&store);
    assert!(store.remove(2).is_ok());
    check(&store);
}

#[test]
fn toggle_twice_restores_everything() {
    let mut store = empty_store();
    store.insert("alpha".to_string());
    store.insert("beta".to_string());
    assert!(store.update(1).is_ok());
    assert!(store.todos[1].done);
    assert!(store.update(1).is_ok());
    assert!(!store.todos[1].done);
    assert_eq!(store.todos[0].item, "alpha");
    assert_eq!(store.todos[1].item, "beta");
    assert_eq!(store.todos[0].position, 0);
    assert_eq!(store.todos[1].position, 1);
}

#[test]
fn out_of_range_indices_fail_and_change_nothing() {
    let mut store = empty_store();
    store.insert("only".to_string());
    assert!(store.update(1).is_err());
    assert!(store.update(usize::MAX).is_err());
    assert!(store.remove(1).is_err());
    assert_eq!(store.todos.len(), 1);
    assert_eq!(store.todos[0].item, "only");
    assert!(!store.todos[0].done);
    assert_eq!(store.todos[0].position, 0);
}

#[test]
fn remove_shifts_and_renumbers_later_tasks() {
    let mut store = empty_store();
    store.insert("a".to_string());
    store.insert("b".to_string());
    store.insert("c".to_string());
    assert!(store.update(2).is_ok());
    assert!(store.remove(1).is_ok());
    assert_eq!(store.todos.len(), 2);
    assert_eq!(store.todos[0].item, "a");
    assert_eq!(store.todos[0].position, 0);
    assert_eq!(store.todos[1].item, "c");
    assert!(store.todos[1].done);
    assert_eq!(store.todos[1].position, 1);
}

#[test]
fn remove_then_reload_drops_exactly_the_removed_text() {
    let mut store = empty_store();
    store.insert("keep one".to_string());
    store.insert("drop me".to_string());
    store.insert("keep two".to_string());
    assert!(store.remove(1).is_ok());
    let reloaded = ToDos::load(&store.save()).unwrap();
    assert_eq!(reloaded.todos.len(), 2);
    assert_eq!(reloaded.todos[0].item, "keep one");
    assert_eq!(reloaded.todos[1].item, "keep two");
    assert!(reloaded.todos.iter().all(|t| t.item != "drop me"));
}

#[test]
fn scenario_insert_remove_toggle_save_load() {
    let mut store = empty_store();
    store.insert("buy milk".to_string());
    assert_eq!(store.todos.len(), 1);
    assert_eq!(store.todos[0].item, "buy milk");
    assert!(!store.todos[0].done);
    assert_eq!(store.todos[0].position, 0);
    store.insert("walk dog".to_string());
    assert_eq!(store.todos[0].position, 0);
    assert_eq!(store.todos[1].position, 1);
    assert!(store.remove(0).is_ok());
    assert_eq!(store.todos.len(), 1);
    assert_eq!(store.todos[0].item, "walk dog");
    assert!(!store.todos[0].done);
    assert_eq!(store.todos[0].position, 0);
    assert!(store.update(0).is_ok());
    assert!(store.todos[0].done);
    let reloaded = ToDos::load(&store.save()).unwrap();
    assert_eq!(reloaded.todos.len(), 1);
    assert_eq!(reloaded.todos[0].item, "walk dog");
    assert!(reloaded.todos[0].done);
    assert_eq!(reloaded.todos[0].position, 0);
}

#[test]
fn render_lists_ordinals_markers_and_texts() {
    let mut store = empty_store();
    store.insert("milk".to_string());
    store.insert("dog".to_string());
    assert!(store.update(0).is_ok());
    let shown = store.render();
    assert_eq!(
        shown,
        "Todos: \n\nNr Done |  ToDo\n1. [x]  |  milk\n2. [ ]  |  dog\n"
    );
}

#[test]
fn render_of_empty_list_is_just_the_heading() {
    let store = empty_store();
    assert_eq!(store.render(), "Todos: \n\nNr Done |  ToDo\n");
}

#[test]
fn check_positions_detects_a_broken_numbering() {
    let store = ToDos {
        todos: vec![ToDo { item: "x".to_string(), done: false, position: 7 }],
    };
    assert!(!store.check_positions());
}
