use tedo::model::TedoState;
use tedo::projects::{create_project, switch_project};
use tedo::tasks::create_task;

fn empty_state() -> TedoState {
    TedoState { current_project: None, projects: Vec::new() }
}

#[test]
fn test_create_task_in_selected_project() {
    let mut state = empty_state();
    create_project(&mut state, "test_project", false);
    switch_project(&mut state, "test_project");
    create_task(&mut state, "test_task");
    assert_eq!(state.projects.len(), 1);
    assert_eq!(state.projects[0].name, "test_project");
    assert_eq!(state.projects[0].tasks.len(), 1);
    assert_eq!(state.projects[0].tasks[0].id, 1);
    assert_eq!(state.projects[0].tasks[0].description, "test_task");
}

#[test]
fn test_create_task_without_selected_project() {
    let mut state = empty_state();
    create_project(&mut state, "test_project", false);
    create_task(&mut state, "test_task");
    assert_eq!(state.projects.len(), 1);
    assert_eq!(state.projects[0].tasks.len(), 0); // No task should be added
}

#[test]
fn test_create_multiple_tasks_in_selected_project() {
    let mut state = empty_state();
    create_project(&mut state, "test_project", false);
    switch_project(&mut state, "test_project");
    create_task(&mut state, "test_task_1");
    create_task(&mut state, "test_task_2");
    assert_eq!(state.projects[0].tasks.len(), 2);
    assert_eq!(state.projects[0].tasks[0].description, "test_task_1");
    assert_eq!(state.projects[0].tasks[1].description, "test_task_2");
}

#[test]
fn test_list_tasks() {
    let mut state = empty_state();
    create_project(&mut state, "test_project", false);
    switch_project(&mut state, "test_project");
    create_task(&mut state, "test_task_1");
    create_task(&mut state, "test_task_2");
    create_task(&mut state, "test_task_3");
    assert_eq!(state.projects[0].tasks.len(), 3);
    assert_eq!(state.projects[0].tasks[0].description, "test_task_1");
    assert_eq!(state.projects[0].tasks[1].description, "test_task_2");
    assert_eq!(state.projects[0].tasks[2].description, "test_task_3");
}

#[test]
fn test_task_ids_independent_between_projects() {
    let mut state = empty_state();
    create_project(&mut state, "one", true);
    create_task(&mut state, "a");
    create_task(&mut state, "b");
    create_project(&mut state, "two", true);
    create_task(&mut state, "c");
    let one_ids: Vec<u32> = state.projects[0].tasks.iter().map(|t| t.id).collect();
    let two_ids: Vec<u32> = state.projects[1].tasks.iter().map(|t| t.id).collect();
    assert_eq!(one_ids, vec![1, 2]);
    assert_eq!(two_ids, vec![1]);
}

#[test]
fn test_task_creation_reports_whether_it_acted() {
    let mut state = empty_state();
    assert!(!create_task(&mut state, "nowhere"));
    create_project(&mut state, "home", true);
    assert!(create_task(&mut state, "somewhere"));
}
