use todo_store::repositories::label::CreateLabel;
use todo_store::repositories::todo::{CreateTodo, UpdateTodo};
use todo_store::validation::{Validate, ValidatedJson};

#[test]
fn empty_text_enumerates_the_violated_rule() {
    let cmd = CreateTodo::new(String::new(), vec![]);
    let msgs = cmd.validate().expect_err("empty text must be rejected");
    assert_eq!(msgs, vec!["Can not be empty".to_string()]);
}

#[test]
fn over_long_text_enumerates_the_violated_rule() {
    let cmd = CreateTodo::new("x".repeat(101), vec![]);
    let msgs = cmd.validate().expect_err("101 chars must be rejected");
    assert_eq!(msgs, vec!["Over text length".to_string()]);
}

#[test]
fn boundary_lengths_are_accepted() {
    assert!(CreateTodo::new("x".to_string(), vec![]).validate().is_ok());
    assert!(CreateTodo::new("x".repeat(100), vec![]).validate().is_ok());
}

#[test]
fn update_without_text_is_valid() {
    let cmd = UpdateTodo {
        text: None,
        completed: Some(true),
        labels: None,
    };
    assert!(cmd.validate().is_ok());
}

#[test]
fn update_with_empty_text_is_rejected() {
    let cmd = UpdateTodo {
        text: Some(String::new()),
        completed: None,
        labels: None,
    };
    let msgs = cmd.validate().expect_err("empty text must be rejected");
    assert_eq!(msgs, vec!["Can not be empty".to_string()]);
}

#[test]
fn update_with_over_long_text_is_rejected() {
    let cmd = UpdateTodo {
        text: Some("y".repeat(101)),
        completed: None,
        labels: None,
    };
    let msgs = cmd.validate().expect_err("101 chars must be rejected");
    assert_eq!(msgs, vec!["over text length".to_string()]);
}

#[test]
fn label_name_rules() {
    let empty = CreateLabel::new(String::new());
    assert_eq!(
        empty.validate().expect_err("empty name must be rejected"),
        vec!["Can not be empty".to_string()]
    );
    let long = CreateLabel::new("n".repeat(101));
    assert_eq!(
        long.validate().expect_err("101 chars must be rejected"),
        vec!["Over name length".to_string()]
    );
    assert!(CreateLabel::new("ok".to_string()).validate().is_ok());
}

#[test]
fn gate_admits_valid_payloads() {
    let cmd = CreateTodo::new("fine".to_string(), vec![1, 2]);
    let admitted = ValidatedJson::new(cmd.clone()).expect("valid payload rejected");
    assert_eq!(admitted.into_inner(), cmd);
}

#[test]
fn gate_rejects_with_aggregated_messages() {
    let cmd = CreateTodo::new(String::new(), vec![]);
    let msgs = ValidatedJson::new(cmd).expect_err("invalid payload admitted");
    assert_eq!(msgs, vec!["Can not be empty".to_string()]);
}
