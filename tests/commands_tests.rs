use rust_todo::commands::{
    handle_add, handle_complete, handle_context, handle_delete, handle_edit, handle_import,
    handle_list, ContextAction, ContextOutcome,
};
use rust_todo::listing::horizon_section;
use rust_todo::{AppError, ContextManager, Priority, Task, TimeHorizon};

#[test]
fn add_appends_to_active_and_returns_short_id() {
    let mut m = ContextManager::new();
    let short = handle_add(&mut m, "Write".to_string(), "Long".to_string(), "H".to_string()).unwrap();
    let ctx = m.active_context();
    assert_eq!(ctx.tasks.len(), 1);
    let t = &ctx.tasks[0];
    assert_eq!(short, &t.id[..6]);
    assert_eq!(t.description, "Write");
    assert_eq!(t.time_horizon, TimeHorizon::LongTerm);
    assert_eq!(t.priority, Priority::High);
    assert!(!t.completed);
}

#[test]
fn add_rejects_bad_horizon_before_priority() {
    let mut m = ContextManager::new();
    match handle_add(&mut m, "x".to_string(), "later".to_string(), "nope".to_string()) {
        Err(AppError::InvalidTimeHorizon(s)) => assert_eq!(s, "later"),
        other => panic!("unexpected {:?}", other),
    }
    match handle_add(&mut m, "x".to_string(), "mid".to_string(), "nope".to_string()) {
        Err(AppError::InvalidPriority(s)) => assert_eq!(s, "nope"),
        other => panic!("unexpected {:?}", other),
    }
    assert!(m.active_context().tasks.is_empty());
}

#[test]
fn list_filters_or_sorts() {
    let mut m = ContextManager::new();
    handle_add(&mut m, "a".to_string(), "long".to_string(), "low".to_string()).unwrap();
    handle_add(&mut m, "b".to_string(), "short".to_string(), "low".to_string()).unwrap();
    handle_add(&mut m, "c".to_string(), "short".to_string(), "high".to_string()).unwrap();
    let all: Vec<String> =
        handle_list(&m, None).unwrap().iter().map(|t| t.description.clone()).collect();
    assert_eq!(all, vec!["c", "b", "a"]);
    let short: Vec<String> = handle_list(&m, Some("SHORT".to_string()))
        .unwrap()
        .iter()
        .map(|t| t.description.clone())
        .collect();
    assert_eq!(short, vec!["b", "c"]);
    assert!(matches!(handle_list(&m, Some("x".to_string())), Err(AppError::InvalidTimeHorizon(_))));
}

#[test]
fn complete_edit_delete_through_prefix() {
    let mut m = ContextManager::new();
    let mut t = Task::new("one".to_string(), TimeHorizon::ShortTerm, Priority::Low);
    t.id = "aaa111".to_string();
    m.active_context_mut().add_task(t);
    let mut t = Task::new("two".to_string(), TimeHorizon::ShortTerm, Priority::Low);
    t.id = "aab222".to_string();
    m.active_context_mut().add_task(t);

    assert_eq!(handle_complete(&mut m, "aaa".to_string()).unwrap(), "one");
    assert!(m.active_context().tasks[0].completed);
    assert!(!m.active_context().tasks[1].completed);
    assert!(handle_complete(&mut m, "aa".to_string()).is_err());

    let d = handle_edit(
        &mut m,
        "aab".to_string(),
        Some("deux".to_string()),
        Some("mid".to_string()),
        None,
    )
    .unwrap();
    assert_eq!(d, "deux");
    assert_eq!(m.active_context().tasks[1].time_horizon, TimeHorizon::MidTerm);
    assert_eq!(m.active_context().tasks[1].priority, Priority::Low);
    match handle_edit(&mut m, "aab".to_string(), None, None, Some("zz".to_string())) {
        Err(AppError::InvalidPriority(s)) => assert_eq!(s, "zz"),
        other => panic!("unexpected {:?}", other),
    }

    let removed = handle_delete(&mut m, "aaa1".to_string()).unwrap();
    assert_eq!(removed.description, "one");
    assert_eq!(m.active_context().tasks.len(), 1);
    match handle_delete(&mut m, "zzz".to_string()) {
        Err(AppError::TaskNotFound(s)) => assert_eq!(s, "zzz"),
        other => panic!("unexpected {:?}", other),
    }
}

#[test]
fn context_actions_report_outcomes() {
    let mut m = ContextManager::new();
    assert_eq!(
        handle_context(&mut m, ContextAction::New { name: "work".to_string() }).unwrap(),
        ContextOutcome::Created("work".to_string())
    );
    assert!(matches!(
        handle_context(&mut m, ContextAction::New { name: "work".to_string() }),
        Err(AppError::ContextAlreadyExists(_))
    ));
    assert_eq!(
        handle_context(&mut m, ContextAction::Switch { name: "work".to_string() }).unwrap(),
        ContextOutcome::Switched { name: "work".to_string(), task_count: 0 }
    );
    match handle_context(&mut m, ContextAction::List).unwrap() {
        ContextOutcome::Listed { mut names, active } => {
            names.sort();
            assert_eq!(names, vec!["default".to_string(), "work".to_string()]);
            assert_eq!(active, "work");
        }
        other => panic!("unexpected {:?}", other),
    }
    assert!(matches!(
        handle_context(&mut m, ContextAction::Delete { name: "work".to_string() }),
        Err(AppError::ContextInUse(_))
    ));
    assert_eq!(
        handle_context(&mut m, ContextAction::Delete { name: "default".to_string() }).unwrap(),
        ContextOutcome::Deleted("default".to_string())
    );
    assert!(matches!(
        handle_context(&mut m, ContextAction::Switch { name: "default".to_string() }),
        Err(AppError::ContextNotFound(_))
    ));
}

#[test]
fn import_replace_substitutes_manager() {
    let mut live = ContextManager::new();
    live.create_context("old".to_string()).unwrap();
    let mut imported = ContextManager::new();
    imported.create_context("new".to_string()).unwrap();
    imported.switch_context("new").unwrap();
    imported.active_context_mut().add_task(Task::new(
        "n".to_string(),
        TimeHorizon::ShortTerm,
        Priority::Low,
    ));
    let report = handle_import(&mut live, imported, false);
    assert_eq!(report.len(), 2);
    assert_eq!(report.iter().map(|e| e.task_count).sum::<usize>(), 1);
    assert!(report.iter().all(|e| e.name == e.stored_as));
    assert_eq!(live.active_context, "new");
    assert!(!live.contexts.contains_key("old"));
}

#[test]
fn import_merge_second_collision_gets_counter() {
    let mut live = ContextManager::new();
    live.create_context("work".to_string()).unwrap();
    live.create_context("work-imported".to_string()).unwrap();
    let mut imported = ContextManager::new();
    imported.create_context("work".to_string()).unwrap();
    let report = handle_import(&mut live, imported, true);
    let w = report.iter().find(|e| e.name == "work").unwrap();
    assert_eq!(w.stored_as, "work-imported-2");
    let d = report.iter().find(|e| e.name == "default").unwrap();
    assert_eq!(d.stored_as, "default-imported");
    assert_eq!(live.contexts.len(), 5);
}

#[test]
fn horizon_section_orders_by_priority_and_hides_completed() {
    let mut done = Task::new("done".to_string(), TimeHorizon::ShortTerm, Priority::High);
    done.mark_complete();
    let low = Task::new("low".to_string(), TimeHorizon::ShortTerm, Priority::Low);
    let high = Task::new("high".to_string(), TimeHorizon::ShortTerm, Priority::High);
    let other = Task::new("mid".to_string(), TimeHorizon::MidTerm, Priority::High);
    let tasks = vec![&low, &done, &other, &high];
    let shown: Vec<&str> = horizon_section(&tasks, TimeHorizon::ShortTerm, false)
        .iter()
        .map(|t| t.description.as_str())
        .collect();
    assert_eq!(shown, vec!["high", "low"]);
    let all: Vec<&str> = horizon_section(&tasks, TimeHorizon::ShortTerm, true)
        .iter()
        .map(|t| t.description.as_str())
        .collect();
    assert_eq!(all, vec!["done", "high", "low"]);
}
