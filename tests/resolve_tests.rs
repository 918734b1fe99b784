use rust_todo::context::Context;
use rust_todo::resolve::{find_task_by_partial_id, find_task_id_by_partial};
use rust_todo::{AppError, Priority, Task, TimeHorizon};

fn task_with_id(id: &str, description: &str) -> Task {
    let mut t = Task::new(description.to_string(), TimeHorizon::ShortTerm, Priority::Medium);
    t.id = id.to_string();
    t
}

fn two_task_context() -> Context {
    let mut c = Context::new("work".to_string());
    c.add_task(task_with_id("abc123-0000", "first"));
    c.add_task(task_with_id("abc999-0000", "second"));
    c
}

#[test]
fn partial_id_ambiguous_prefix_lists_both_ids() {
    let c = two_task_context();
    match find_task_id_by_partial(&c, "abc") {
        Err(AppError::TaskNotFound(m)) => {
            assert_eq!(
                m,
                "Ambiguous ID 'abc' matches multiple tasks: abc123-0000, abc999-0000"
            );
        }
        other => panic!("unexpected {:?}", other),
    }
}

#[test]
fn partial_id_unique_prefix_resolves() {
    let c = two_task_context();
    assert_eq!(find_task_id_by_partial(&c, "abc1").unwrap(), "abc123-0000");
    assert_eq!(find_task_id_by_partial(&c, "abc999-0000").unwrap(), "abc999-0000");
}

#[test]
fn partial_id_unknown_prefix_is_not_found() {
    let c = two_task_context();
    match find_task_id_by_partial(&c, "zzz") {
        Err(AppError::TaskNotFound(m)) => assert_eq!(m, "zzz"),
        other => panic!("unexpected {:?}", other),
    }
}

#[test]
fn partial_id_is_case_sensitive() {
    let c = two_task_context();
    assert!(find_task_id_by_partial(&c, "ABC1").is_err());
}

#[test]
fn partial_id_three_matches_joined_in_order() {
    let mut c = two_task_context();
    c.add_task(task_with_id("abc555-0000", "third"));
    match find_task_id_by_partial(&c, "ab") {
        Err(AppError::TaskNotFound(m)) => assert_eq!(
            m,
            "Ambiguous ID 'ab' matches multiple tasks: abc123-0000, abc999-0000, abc555-0000"
        ),
        other => panic!("unexpected {:?}", other),
    }
}

#[test]
fn partial_id_mutable_resolution_changes_the_task() {
    let mut c = two_task_context();
    {
        let t = find_task_by_partial_id(&mut c, "abc9").unwrap();
        t.mark_complete();
    }
    assert!(!c.tasks[0].completed);
    assert!(c.tasks[1].completed);
    assert!(find_task_by_partial_id(&mut c, "abc").is_err());
    assert!(find_task_by_partial_id(&mut c, "x").is_err());
}
