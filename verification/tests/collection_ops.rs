use tasklist::{
    clear_tasks, delete_task, edit_task, list_tasks, mark_task_complete, max_task_id, new_task,
    Task,
};

fn ids(tasks: &Vec<Task>) -> Vec<u32> {
    tasks.iter().map(|t| t.id).collect()
}

#[test]
fn sequential_creates_number_from_one() {
    let mut tasks: Vec<Task> = Vec::new();
    for k in 0..5u32 {
        let t = new_task(&mut tasks, &format!("task {}", k), &None, &None, &None);
        assert_eq!(t.id, k + 1);
    }
    assert_eq!(ids(&tasks), vec![1, 2, 3, 4, 5]);
}

#[test]
fn create_fills_fields() {
    let mut tasks: Vec<Task> = Vec::new();
    let t = new_task(
        &mut tasks,
        "Buy milk",
        &Some("two bottles".to_string()),
        &Some("errands".to_string()),
        &Some("2026-01-01".to_string()),
    );
    assert_eq!(t.id, 1);
    assert_eq!(t.title, "Buy milk");
    assert_eq!(t.description.as_deref(), Some("two bottles"));
    assert_eq!(t.class.as_deref(), Some("errands"));
    assert_eq!(t.due_date.as_deref(), Some("2026-01-01"));
    assert!(!t.complete);
    assert_eq!(tasks.len(), 1);
    assert_eq!(tasks[0], t);
}

#[test]
fn id_comes_from_the_maximum_not_the_last_slot() {
    let mut tasks: Vec<Task> = Vec::new();
    new_task(&mut tasks, "a", &None, &None, &None);
    new_task(&mut tasks, "b", &None, &None, &None);
    new_task(&mut tasks, "c", &None, &None, &None);
    assert!(delete_task(&mut tasks, 2));
    assert_eq!(max_task_id(&tasks), 3);
    let t = new_task(&mut tasks, "d", &None, &None, &None);
    assert_eq!(t.id, 4);
    assert_eq!(ids(&tasks), vec![1, 3, 4]);
}

#[test]
fn delete_max_then_create_follows_max_policy() {
    // The assignment policy is max-over-remaining + 1, so after deleting
    // the task holding the maximum ID of [1, 2, 3] the next ID is 3 again.
    let mut tasks: Vec<Task> = Vec::new();
    new_task(&mut tasks, "a", &None, &None, &None);
    new_task(&mut tasks, "b", &None, &None, &None);
    new_task(&mut tasks, "c", &None, &None, &None);
    assert!(delete_task(&mut tasks, 3));
    let t = new_task(&mut tasks, "d", &None, &None, &None);
    assert_eq!(t.id, 3);
    assert_eq!(ids(&tasks), vec![1, 2, 3]);
}

#[test]
fn complete_is_idempotent() {
    let mut tasks: Vec<Task> = Vec::new();
    new_task(&mut tasks, "a", &None, &None, &None);
    new_task(&mut tasks, "b", &None, &None, &None);
    assert!(mark_task_complete(&mut tasks, 2));
    let once = tasks.clone();
    assert!(mark_task_complete(&mut tasks, 2));
    assert_eq!(tasks, once);
    assert!(tasks[1].complete);
    assert!(!tasks[0].complete);
}

#[test]
fn list_filters_by_completion_in_order() {
    let mut tasks: Vec<Task> = Vec::new();
    new_task(&mut tasks, "a", &None, &None, &None);
    new_task(&mut tasks, "b", &None, &None, &None);
    new_task(&mut tasks, "c", &None, &None, &None);
    new_task(&mut tasks, "d", &None, &None, &None);
    mark_task_complete(&mut tasks, 2);
    mark_task_complete(&mut tasks, 4);
    let incomplete = list_tasks(&tasks, false, false);
    assert_eq!(ids(&incomplete), vec![1, 3]);
    let complete = list_tasks(&tasks, false, true);
    assert_eq!(ids(&complete), vec![2, 4]);
    let all = list_tasks(&tasks, true, false);
    assert_eq!(ids(&all), vec![1, 2, 3, 4]);
    assert_eq!(all, tasks);
}

#[test]
fn list_of_empty_collection_is_empty() {
    let tasks: Vec<Task> = Vec::new();
    assert!(list_tasks(&tasks, true, false).is_empty());
    assert!(list_tasks(&tasks, false, false).is_empty());
    assert!(list_tasks(&tasks, false, true).is_empty());
}

#[test]
fn missing_id_reports_not_found_and_changes_nothing() {
    let mut tasks: Vec<Task> = Vec::new();
    new_task(&mut tasks, "a", &Some("d".to_string()), &None, &None);
    let before = tasks.clone();
    assert!(!mark_task_complete(&mut tasks, 7));
    assert_eq!(tasks, before);
    assert!(!delete_task(&mut tasks, 7));
    assert_eq!(tasks, before);
    assert!(!edit_task(
        &mut tasks,
        7,
        &Some("x".to_string()),
        &None,
        &None,
        &None,
    ));
    assert_eq!(tasks, before);
}

#[test]
fn partial_edit_keeps_unsupplied_fields() {
    let mut tasks: Vec<Task> = Vec::new();
    new_task(
        &mut tasks,
        "old title",
        &Some("keep me".to_string()),
        &Some("work".to_string()),
        &Some("friday".to_string()),
    );
    assert!(edit_task(
        &mut tasks,
        1,
        &Some("X".to_string()),
        &None,
        &None,
        &None,
    ));
    assert_eq!(tasks[0].title, "X");
    assert_eq!(tasks[0].description.as_deref(), Some("keep me"));
    assert_eq!(tasks[0].class.as_deref(), Some("work"));
    assert_eq!(tasks[0].due_date.as_deref(), Some("friday"));
    assert_eq!(tasks[0].id, 1);
    assert!(!tasks[0].complete);
}

#[test]
fn edit_overwrites_every_supplied_field() {
    let mut tasks: Vec<Task> = Vec::new();
    new_task(&mut tasks, "a", &None, &None, &None);
    assert!(edit_task(
        &mut tasks,
        1,
        &Some("b".to_string()),
        &Some("desc".to_string()),
        &Some("cls".to_string()),
        &Some("soon".to_string()),
    ));
    assert_eq!(tasks[0].title, "b");
    assert_eq!(tasks[0].description.as_deref(), Some("desc"));
    assert_eq!(tasks[0].class.as_deref(), Some("cls"));
    assert_eq!(tasks[0].due_date.as_deref(), Some("soon"));
}

#[test]
fn delete_keeps_the_order_of_the_rest() {
    let mut tasks: Vec<Task> = Vec::new();
    new_task(&mut tasks, "a", &None, &None, &None);
    new_task(&mut tasks, "b", &None, &None, &None);
    new_task(&mut tasks, "c", &None, &None, &None);
    assert!(delete_task(&mut tasks, 1));
    assert_eq!(ids(&tasks), vec![2, 3]);
    assert_eq!(tasks[0].title, "b");
    assert_eq!(tasks[1].title, "c");
}

#[test]
fn clear_empties_the_collection() {
    let mut tasks: Vec<Task> = Vec::new();
    new_task(&mut tasks, "a", &None, &None, &None);
    new_task(&mut tasks, "b", &None, &None, &None);
    clear_tasks(&mut tasks);
    assert!(tasks.is_empty());
    let t = new_task(&mut tasks, "fresh", &None, &None, &None);
    assert_eq!(t.id, 1);
}

#[test]
fn end_to_end_scenario() {
    let mut tasks: Vec<Task> = Vec::new();
    let first = new_task(&mut tasks, "Buy milk", &None, &None, &None);
    assert_eq!(first.id, 1);
    assert!(!first.complete);
    let second = new_task(&mut tasks, "Walk dog", &None, &None, &None);
    assert_eq!(second.id, 2);
    assert!(mark_task_complete(&mut tasks, 1));
    let open = list_tasks(&tasks, false, false);
    assert_eq!(open.len(), 1);
    assert_eq!(open[0].id, 2);
    assert_eq!(open[0].title, "Walk dog");
    assert!(delete_task(&mut tasks, 2));
    clear_tasks(&mut tasks);
    assert!(list_tasks(&tasks, true, false).is_empty());
}
