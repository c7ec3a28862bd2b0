use todo_store::repositories::label::{CreateLabel, Label, LabelRepository};
use todo_store::repositories::memory::{
    memory_repositories, LabelRepositoryForMemory, MemoryStore, TodoRepositoryForMemory,
};
use todo_store::repositories::todo::{CreateTodo, TodoEntity, TodoRepository, UpdateTodo};
use todo_store::repositories::RepositoryError;

#[test]
fn todo_crud_scenario() {
    let text = "todo text".to_string();
    let id = 1;
    let expected = TodoEntity::new(id, text.clone());

    // create
    let labels = vec![];
    let repo = TodoRepositoryForMemory::new();
    let todo = repo
        .create(CreateTodo::new(text, labels))
        .expect("failed create todo");
    assert_eq!(expected, todo);

    // find
    let todo = repo.find(todo.id).unwrap();
    assert_eq!(expected, todo);

    // all
    let todos = repo.all().expect("fialed get all todo");
    assert_eq!(vec![expected], todos);

    // update
    let text = "update todo".to_string();
    let todo = repo
        .update(
            1,
            UpdateTodo {
                text: Some(text.clone()),
                completed: Some(true),
                labels: Some(vec![]),
            },
        )
        .expect("failed update todo");
    assert_eq!(
        TodoEntity {
            id,
            text,
            completed: true,
            labels: vec![],
        },
        todo
    );

    // delete
    let res = repo.delete(id);
    assert!(res.is_ok())
}

#[test]
fn label_crud_scenario() {
    let name = "label name".to_string();
    let id = 1;
    let expected = Label::new(id, name.clone());

    let repo = LabelRepositoryForMemory::new();

    // create
    let label = repo
        .create(CreateLabel { name })
        .expect("failed create label");
    assert_eq!(expected, label);

    // all
    let labels = repo.all().expect("failed get all labels");
    assert_eq!(vec![label], labels);

    // delete
    repo.delete(id).expect("failed delete label");
    let labels = repo.all().expect("failed get all labels");
    assert_eq!(labels.len(), 0);
}

#[test]
fn round_trip_with_labels() {
    let mut store = MemoryStore::new();
    let home = store
        .create_label(CreateLabel::new("home".to_string()))
        .expect("failed create label");
    let work = store
        .create_label(CreateLabel::new("work".to_string()))
        .expect("failed create label");

    let created = store.create_todo(CreateTodo::new(
        "buy milk".to_string(),
        vec![home.id, work.id],
    ));
    assert_eq!(created.text, "buy milk");
    assert!(!created.completed);
    assert_eq!(created.labels, vec![home.clone(), work.clone()]);

    let found = store.find_todo(created.id).expect("created todo not found");
    assert_eq!(found, created);
}

#[test]
fn partial_update_keeps_text_and_labels() {
    let mut store = MemoryStore::new();
    let label = store
        .create_label(CreateLabel::new("urgent".to_string()))
        .expect("failed create label");
    let created = store.create_todo(CreateTodo::new("x".to_string(), vec![label.id]));

    let updated = store
        .update_todo(
            created.id,
            UpdateTodo {
                text: None,
                completed: Some(true),
                labels: None,
            },
        )
        .expect("failed update todo");

    assert_eq!(updated.text, "x");
    assert!(updated.completed);
    assert_eq!(updated.labels, vec![label]);
}

#[test]
fn update_replaces_labels_with_empty_set() {
    let mut store = MemoryStore::new();
    let a = store
        .create_label(CreateLabel::new("A".to_string()))
        .expect("failed create label");
    let b = store
        .create_label(CreateLabel::new("B".to_string()))
        .expect("failed create label");
    let created = store.create_todo(CreateTodo::new("t".to_string(), vec![a.id, b.id]));
    assert_eq!(created.labels.len(), 2);

    let updated = store
        .update_todo(
            created.id,
            UpdateTodo {
                text: None,
                completed: None,
                labels: Some(vec![]),
            },
        )
        .expect("failed update todo");
    assert_eq!(updated.labels, vec![]);
}

#[test]
fn duplicate_label_name_rejected() {
    let mut store = MemoryStore::new();
    let first = store
        .create_label(CreateLabel::new("x".to_string()))
        .expect("failed create label");

    let second = store.create_label(CreateLabel::new("x".to_string()));
    match second {
        Err(RepositoryError::Duplicate(existing)) => assert_eq!(existing, first.id),
        other => panic!("expected Duplicate, got {:?}", other),
    }
    // no second row was created
    assert_eq!(store.all_labels(), vec![first]);
}

#[test]
fn delete_cascade() {
    let mut store = MemoryStore::new();
    let label = store
        .create_label(CreateLabel::new("tag".to_string()))
        .expect("failed create label");
    let created = store.create_todo(CreateTodo::new("to delete".to_string(), vec![label.id]));

    store.delete_todo(created.id).expect("failed delete todo");

    match store.find_todo(created.id) {
        Err(RepositoryError::NotFound(id)) => assert_eq!(id, created.id),
        other => panic!("expected NotFound, got {:?}", other),
    }
    // with the record gone, no association referencing the id remains
    assert!(store.todos.iter().all(|rec| rec.id != created.id));
}

#[test]
fn dangling_association_is_skipped() {
    let mut store = MemoryStore::new();
    let label = store
        .create_label(CreateLabel::new("doomed".to_string()))
        .expect("failed create label");
    let created = store.create_todo(CreateTodo::new("keeps ref".to_string(), vec![label.id]));
    assert_eq!(created.labels.len(), 1);

    store.delete_label(label.id).expect("failed delete label");

    let found = store.find_todo(created.id).expect("todo vanished");
    assert_eq!(found.labels, vec![]);
}

#[test]
fn duplicate_label_ids_associate_once() {
    let mut store = MemoryStore::new();
    let label = store
        .create_label(CreateLabel::new("once".to_string()))
        .expect("failed create label");

    let created = store.create_todo(CreateTodo::new(
        "set semantics".to_string(),
        vec![label.id, label.id],
    ));
    assert_eq!(created.labels, vec![label.clone()]);

    let updated = store
        .update_todo(
            created.id,
            UpdateTodo {
                text: None,
                completed: None,
                labels: Some(vec![label.id, label.id, label.id]),
            },
        )
        .expect("failed update todo");
    assert_eq!(updated.labels, vec![label]);
}

#[test]
fn ids_are_monotonic_and_never_reused() {
    let mut store = MemoryStore::new();
    let first = store.create_todo(CreateTodo::new("one".to_string(), vec![]));
    assert_eq!(first.id, 1);
    store.delete_todo(first.id).expect("failed delete todo");
    let second = store.create_todo(CreateTodo::new("two".to_string(), vec![]));
    assert_eq!(second.id, 2);
}

#[test]
fn all_returns_descending_ids() {
    let repo = TodoRepositoryForMemory::new();
    repo.create(CreateTodo::new("first".to_string(), vec![]))
        .expect("failed create todo");
    repo.create(CreateTodo::new("second".to_string(), vec![]))
        .expect("failed create todo");
    repo.create(CreateTodo::new("third".to_string(), vec![]))
        .expect("failed create todo");

    let todos = repo.all().expect("failed get all todos");
    let ids: Vec<i32> = todos.iter().map(|t| t.id).collect();
    assert_eq!(ids, vec![3, 2, 1]);
}

#[test]
fn update_missing_todo_is_not_found() {
    let repo = TodoRepositoryForMemory::new();
    let res = repo.update(
        42,
        UpdateTodo {
            text: Some("nope".to_string()),
            completed: None,
            labels: None,
        },
    );
    match res {
        Err(RepositoryError::NotFound(id)) => assert_eq!(id, 42),
        other => panic!("expected NotFound, got {:?}", other),
    }
}

#[test]
fn delete_missing_label_is_not_found() {
    let repo = LabelRepositoryForMemory::new();
    let res = repo.delete(9);
    match res {
        Err(RepositoryError::NotFound(id)) => assert_eq!(id, 9),
        other => panic!("expected NotFound, got {:?}", other),
    }
}

#[test]
fn shared_repositories_hydrate_labels() {
    let (todo_repo, label_repo) = memory_repositories();
    let label = label_repo
        .create(CreateLabel::new("shared".to_string()))
        .expect("failed create label");
    let todo = todo_repo
        .create(CreateTodo::new("with label".to_string(), vec![label.id]))
        .expect("failed create todo");
    assert_eq!(todo.labels, vec![label.clone()]);

    let found = todo_repo.find(todo.id).expect("created todo not found");
    assert_eq!(found.labels, vec![label]);
}

#[test]
fn cloned_handle_shares_the_store() {
    let repo = TodoRepositoryForMemory::new();
    let other = repo.clone();
    repo.create(CreateTodo::new("seen by both".to_string(), vec![]))
        .expect("failed create todo");
    let todos = other.all().expect("failed get all todos");
    assert_eq!(todos.len(), 1);
    assert_eq!(todos[0].text, "seen by both");
}

#[test]
fn labels_all_ascending() {
    let repo = LabelRepositoryForMemory::new();
    repo.create(CreateLabel::new("a".to_string()))
        .expect("failed create label");
    repo.create(CreateLabel::new("b".to_string()))
        .expect("failed create label");
    let labels = repo.all().expect("failed get all labels");
    let ids: Vec<i32> = labels.iter().map(|l| l.id).collect();
    assert_eq!(ids, vec![1, 2]);
}
