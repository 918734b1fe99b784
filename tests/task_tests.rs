use rust_todo::{Priority, Task, TimeHorizon};
use std::str::FromStr;

#[test]
fn test_time_horizon_from_str() {
    // Test valid inputs
    assert_eq!(
        TimeHorizon::from_str("short").unwrap(),
        TimeHorizon::ShortTerm
    );
    assert_eq!(
        TimeHorizon::from_str("ShortTerm").unwrap(),
        TimeHorizon::ShortTerm
    );
    assert_eq!(
        TimeHorizon::from_str("short-term").unwrap(),
        TimeHorizon::ShortTerm
    );

    assert_eq!(TimeHorizon::from_str("mid").unwrap(), TimeHorizon::MidTerm);
    assert_eq!(
        TimeHorizon::from_str("MidTerm").unwrap(),
        TimeHorizon::MidTerm
    );
    assert_eq!(
        TimeHorizon::from_str("mid-term").unwrap(),
        TimeHorizon::MidTerm
    );

    assert_eq!(
        TimeHorizon::from_str("long").unwrap(),
        TimeHorizon::LongTerm
    );
    assert_eq!(
        TimeHorizon::from_str("LongTerm").unwrap(),
        TimeHorizon::LongTerm
    );
    assert_eq!(
        TimeHorizon::from_str("long-term").unwrap(),
        TimeHorizon::LongTerm
    );

    // Test invalid input
    assert!(TimeHorizon::from_str("invalid").is_err());
    assert!(TimeHorizon::from_str("").is_err());
}

#[test]
fn test_priority_from_str() {
    // Test valid inputs
    assert_eq!(Priority::from_str("low").unwrap(), Priority::Low);
    assert_eq!(Priority::from_str("Low").unwrap(), Priority::Low);
    assert_eq!(Priority::from_str("l").unwrap(), Priority::Low);

    assert_eq!(Priority::from_str("medium").unwrap(), Priority::Medium);
    assert_eq!(Priority::from_str("Medium").unwrap(), Priority::Medium);
    assert_eq!(Priority::from_str("med").unwrap(), Priority::Medium);
    assert_eq!(Priority::from_str("m").unwrap(), Priority::Medium);

    assert_eq!(Priority::from_str("high").unwrap(), Priority::High);
    assert_eq!(Priority::from_str("High").unwrap(), Priority::High);
    assert_eq!(Priority::from_str("hi").unwrap(), Priority::High);
    assert_eq!(Priority::from_str("h").unwrap(), Priority::High);

    // Test invalid input
    assert!(Priority::from_str("invalid").is_err());
    assert!(Priority::from_str("").is_err());
}

#[test]
fn test_priority_ordering() {
    // Test that priorities can be compared and ordered correctly
    assert!(Priority::High > Priority::Medium);
    assert!(Priority::Medium > Priority::Low);
    assert!(Priority::High > Priority::Low);

    // Test sorting
    let mut priorities = vec![Priority::Low, Priority::High, Priority::Medium];
    priorities.sort();
    assert_eq!(
        priorities,
        vec![Priority::Low, Priority::Medium, Priority::High]
    );
}

#[test]
fn test_task_creation() {
    // Test creating a new task
    let task = Task::new(
        "Write tests".to_string(),
        TimeHorizon::ShortTerm,
        Priority::High,
    );

    // Verify all fields are set correctly
    assert_eq!(task.description, "Write tests");
    assert_eq!(task.time_horizon, TimeHorizon::ShortTerm);
    assert_eq!(task.priority, Priority::High);
    assert_eq!(task.completed, false);

    // Verify ID is a valid UUID (36 characters with hyphens)
    assert_eq!(task.id.len(), 36);
    assert!(task.id.contains('-'));

    // Verify created_at is not empty and looks like ISO 8601
    assert!(!task.created_at.is_empty());
    assert!(task.created_at.contains('T'));
    assert!(task.created_at.contains('Z') || task.created_at.contains('+'));
}

#[test]
fn test_task_unique_ids() {
    // Test that each task gets a unique ID
    let task1 = Task::new(
        "Task 1".to_string(),
        TimeHorizon::ShortTerm,
        Priority::Medium,
    );
    let task2 = Task::new(
        "Task 2".to_string(),
        TimeHorizon::ShortTerm,
        Priority::Medium,
    );

    // IDs should be different
    assert_ne!(task1.id, task2.id);
}

#[test]
fn test_task_with_different_priorities() {
    // Test creating tasks with all priority levels
    let low = Task::new(
        "Low priority".to_string(),
        TimeHorizon::ShortTerm,
        Priority::Low,
    );
    let med = Task::new(
        "Med priority".to_string(),
        TimeHorizon::ShortTerm,
        Priority::Medium,
    );
    let high = Task::new(
        "High priority".to_string(),
        TimeHorizon::ShortTerm,
        Priority::High,
    );

    assert_eq!(low.priority, Priority::Low);
    assert_eq!(med.priority, Priority::Medium);
    assert_eq!(high.priority, Priority::High);
}

#[test]
fn test_task_with_different_horizons() {
    // Test creating tasks with all time horizons
    let short = Task::new(
        "Short term".to_string(),
        TimeHorizon::ShortTerm,
        Priority::Medium,
    );
    let mid = Task::new(
        "Mid term".to_string(),
        TimeHorizon::MidTerm,
        Priority::Medium,
    );
    let long = Task::new(
        "Long term".to_string(),
        TimeHorizon::LongTerm,
        Priority::Medium,
    );

    assert_eq!(short.time_horizon, TimeHorizon::ShortTerm);
    assert_eq!(mid.time_horizon, TimeHorizon::MidTerm);
    assert_eq!(long.time_horizon, TimeHorizon::LongTerm);
}

#[test]
fn test_mark_complete() {
    // Test marking a task as complete
    let mut task = Task::new(
        ["Complete", "this", "task"].join(" "),
        TimeHorizon::ShortTerm,
        Priority::Medium,
    );

    // Initially, task should not be completed
    assert_eq!(task.completed, false);

    // Mark the task as complete
    task.mark_complete();

    // Now it should be completed
    assert_eq!(task.completed, true);

    // Marking complete again should have no effect (idempotent)
    task.mark_complete();
    assert_eq!(task.completed, true);
}

#[test]
fn test_update_description() {
    // Test updating only the description
    let mut task = Task::new(
        "Original description".to_string(),
        TimeHorizon::ShortTerm,
        Priority::Low,
    );

    let original_horizon = task.time_horizon;
    let original_priority = task.priority;

    // Update only the description
    task.update(Some("New description".to_string()), None, None);

    // Description should be updated
    assert_eq!(task.description, "New description");

    // Other fields should remain unchanged
    assert_eq!(task.time_horizon, original_horizon);
    assert_eq!(task.priority, original_priority);
}

#[test]
fn test_update_time_horizon() {
    // Test updating only the time horizon
    let mut task = Task::new(
        "Test task".to_string(),
        TimeHorizon::ShortTerm,
        Priority::Medium,
    );

    let original_description = task.description.clone();
    let original_priority = task.priority;

    // Update only the time horizon
    task.update(None, Some(TimeHorizon::LongTerm), None);

    // Time horizon should be updated
    assert_eq!(task.time_horizon, TimeHorizon::LongTerm);

    // Other fields should remain unchanged
    assert_eq!(task.description, original_description);
    assert_eq!(task.priority, original_priority);
}

#[test]
fn test_update_priority() {
    // Test updating only the priority
    let mut task = Task::new("Test task".to_string(), TimeHorizon::MidTerm, Priority::Low);

    let original_description = task.description.clone();
    let original_horizon = task.time_horizon;

    // Update only the priority
    task.update(None, None, Some(Priority::High));

    // Priority should be updated
    assert_eq!(task.priority, Priority::High);

    // Other fields should remain unchanged
    assert_eq!(task.description, original_description);
    assert_eq!(task.time_horizon, original_horizon);
}

#[test]
fn test_update_multiple_fields() {
    // Test updating multiple fields at once
    let mut task = Task::new(
        "Original".to_string(),
        TimeHorizon::ShortTerm,
        Priority::Low,
    );

    // Update all three fields
    task.update(
        Some("Updated description".to_string()),
        Some(TimeHorizon::LongTerm),
        Some(Priority::High),
    );

    // All fields should be updated
    assert_eq!(task.description, "Updated description");
    assert_eq!(task.time_horizon, TimeHorizon::LongTerm);
    assert_eq!(task.priority, Priority::High);
}

#[test]
fn test_update_with_no_changes() {
    // Test calling update with all None values (no changes)
    let mut task = Task::new(
        "Test task".to_string(),
        TimeHorizon::MidTerm,
        Priority::Medium,
    );

    let original_description = task.description.clone();
    let original_horizon = task.time_horizon;
    let original_priority = task.priority;

    // Call update with no changes
    task.update(None, None, None);

    // All fields should remain unchanged
    assert_eq!(task.description, original_description);
    assert_eq!(task.time_horizon, original_horizon);
    assert_eq!(task.priority, original_priority);
}

#[test]
fn test_update_preserves_other_fields() {
    // Test that update doesn't affect id, completed, or created_at
    let mut task = Task::new(
        "Test task".to_string(),
        TimeHorizon::ShortTerm,
        Priority::Low,
    );

    let original_id = task.id.clone();
    let original_created_at = task.created_at.clone();
    let original_completed = task.completed;

    // Update some fields
    task.update(
        Some("New description".to_string()),
        Some(TimeHorizon::LongTerm),
        Some(Priority::High),
    );

    // ID, created_at, and completed should remain unchanged
    assert_eq!(task.id, original_id);
    assert_eq!(task.created_at, original_created_at);
    assert_eq!(task.completed, original_completed);
}
