use todo_store::repositories::label::Label;
use todo_store::repositories::todo::{fold_entities, TodoEntity, TodoWithLabelFromRow};

#[test]
fn fold_entities_test() {
    let label_1 = Label {
        id: 1,
        name: String::from("label 1"),
    };
    let label_2 = Label {
        id: 2,
        name: String::from("label 2"),
    };
    let rows = vec![
        TodoWithLabelFromRow {
            id: 1,
            text: String::from("todo 1"),
            completed: false,
            label_id: Some(label_1.id),
            label_name: Some(label_1.name.clone()),
        },
        TodoWithLabelFromRow {
            id: 1,
            text: String::from("todo 1"),
            completed: false,
            label_id: Some(label_2.id),
            label_name: Some(label_2.name.clone()),
        },
        TodoWithLabelFromRow {
            id: 2,
            text: String::from("todo 2"),
            completed: false,
            label_id: Some(label_1.id),
            label_name: Some(label_1.name.clone()),
        },
    ];

    let res = fold_entities(rows);
    assert_eq!(
        res,
        vec![
            TodoEntity {
                id: 1,
                text: String::from("todo 1"),
                completed: false,
                labels: vec![label_1.clone(), label_2.clone()],
            },
            TodoEntity {
                id: 2,
                text: String::from("todo 2"),
                completed: false,
                labels: vec![label_1.clone()],
            },
        ]
    )
}

#[test]
fn fold_entities_null_label_row() {
    let label_a = Label {
        id: 10,
        name: String::from("A"),
    };
    let label_b = Label {
        id: 11,
        name: String::from("B"),
    };
    let rows = vec![
        TodoWithLabelFromRow {
            id: 1,
            text: String::from("first"),
            completed: false,
            label_id: Some(label_a.id),
            label_name: Some(label_a.name.clone()),
        },
        TodoWithLabelFromRow {
            id: 1,
            text: String::from("first"),
            completed: false,
            label_id: Some(label_b.id),
            label_name: Some(label_b.name.clone()),
        },
        TodoWithLabelFromRow {
            id: 2,
            text: String::from("second"),
            completed: true,
            label_id: None,
            label_name: None,
        },
    ];

    let res = fold_entities(rows);
    assert_eq!(
        res,
        vec![
            TodoEntity {
                id: 1,
                text: String::from("first"),
                completed: false,
                labels: vec![label_a, label_b],
            },
            TodoEntity {
                id: 2,
                text: String::from("second"),
                completed: true,
                labels: vec![],
            },
        ]
    )
}

#[test]
fn fold_entities_empty() {
    let res = fold_entities(vec![]);
    assert_eq!(res, vec![]);
}

#[test]
fn fold_entities_repeated_label_kept_visible() {
    // A duplicate label id within one fold indicates a query bug and is
    // kept visible in the output, never silently merged.
    let rows = vec![
        TodoWithLabelFromRow {
            id: 3,
            text: String::from("dup"),
            completed: false,
            label_id: Some(7),
            label_name: Some(String::from("x")),
        },
        TodoWithLabelFromRow {
            id: 3,
            text: String::from("dup"),
            completed: false,
            label_id: Some(7),
            label_name: Some(String::from("x")),
        },
    ];
    let res = fold_entities(rows);
    assert_eq!(res.len(), 1);
    assert_eq!(res[0].labels.len(), 2);
}
