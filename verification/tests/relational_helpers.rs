use todo_store::repositories::label::{reject_duplicate_name, Label};
use todo_store::repositories::todo::{find_in_rows, TodoWithLabelFromRow, UpdateTodo};
use todo_store::repositories::{classify_backend_error, require_rows_affected, RepositoryError};

#[test]
fn find_in_rows_not_found_on_empty() {
    let res = find_in_rows(vec![], 7);
    match res {
        Err(RepositoryError::NotFound(id)) => assert_eq!(id, 7),
        other => panic!("expected NotFound, got {:?}", other),
    }
}

#[test]
fn find_in_rows_takes_the_folded_aggregate() {
    let rows = vec![
        TodoWithLabelFromRow {
            id: 5,
            text: String::from("hello"),
            completed: true,
            label_id: Some(2),
            label_name: Some(String::from("two")),
        },
        TodoWithLabelFromRow {
            id: 5,
            text: String::from("hello"),
            completed: true,
            label_id: Some(3),
            label_name: Some(String::from("three")),
        },
    ];
    let todo = find_in_rows(rows, 5).expect("rows present but not found");
    assert_eq!(todo.id, 5);
    assert_eq!(todo.text, "hello");
    assert!(todo.completed);
    assert_eq!(
        todo.labels,
        vec![Label::new(2, "two".to_string()), Label::new(3, "three".to_string())]
    );
}

#[test]
fn classify_row_not_found() {
    let e = classify_backend_error(true, 12, String::from("ignored detail"));
    match e {
        RepositoryError::NotFound(id) => assert_eq!(id, 12),
        other => panic!("expected NotFound, got {:?}", other),
    }
}

#[test]
fn classify_other_failure() {
    let e = classify_backend_error(false, 12, String::from("connection reset"));
    match e {
        RepositoryError::Unexpected(detail) => assert_eq!(detail, "connection reset"),
        other => panic!("expected Unexpected, got {:?}", other),
    }
}

#[test]
fn delete_that_touched_no_row_is_not_found() {
    match require_rows_affected(0, 31) {
        Err(RepositoryError::NotFound(id)) => assert_eq!(id, 31),
        other => panic!("expected NotFound, got {:?}", other),
    }
    assert!(require_rows_affected(1, 31).is_ok());
    assert!(require_rows_affected(5, 31).is_ok());
}

#[test]
fn duplicate_name_decision() {
    let existing = Some(Label::new(4, "taken".to_string()));
    match reject_duplicate_name(&existing) {
        Err(RepositoryError::Duplicate(id)) => assert_eq!(id, 4),
        other => panic!("expected Duplicate, got {:?}", other),
    }
    assert!(reject_duplicate_name(&None).is_ok());
}

#[test]
fn merge_update_fields() {
    let current = String::from("old");
    let upd = UpdateTodo {
        text: None,
        completed: None,
        labels: None,
    };
    assert_eq!(upd.merged_text(&current), "old");
    assert!(!upd.merged_completed(false));
    assert!(upd.merged_completed(true));

    let upd = UpdateTodo {
        text: Some(String::from("new")),
        completed: Some(true),
        labels: None,
    };
    assert_eq!(upd.merged_text(&current), "new");
    assert!(upd.merged_completed(false));
}
