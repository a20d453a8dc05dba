use tedo::model::TedoState;
use tedo::projects::{create_project, switch_project};

fn empty_state() -> TedoState {
    TedoState { current_project: None, projects: Vec::new() }
}

#[test]
fn test_create_project() {
    let mut state = empty_state();
    create_project(&mut state, "test_project", false);
    assert_eq!(state.projects.len(), 1);
    assert_eq!(state.projects[0].name, "test_project");
}

#[test]
fn test_create_project_with_existing_name() {
    let mut state = empty_state();
    create_project(&mut state, "test_project", false);
    create_project(&mut state, "test_project", false);
    assert_eq!(state.projects.len(), 1);
    assert_eq!(state.projects[0].name, "test_project");
}

#[test]
fn test_create_project_and_switch() {
    let mut state = empty_state();
    create_project(&mut state, "test_project", true);
    assert_eq!(state.projects.len(), 1);
    assert_eq!(state.projects[0].name, "test_project");
    assert_eq!(state.current_project.unwrap(), "test_project");
}

#[test]
fn test_list_projects() {
    let mut state = empty_state();
    create_project(&mut state, "test_project_1", false);
    create_project(&mut state, "test_project_2", false);
    create_project(&mut state, "test_project_3", false);
    assert_eq!(state.projects.len(), 3);
    assert_eq!(state.projects[0].name, "test_project_1");
    assert_eq!(state.projects[1].name, "test_project_2");
    assert_eq!(state.projects[2].name, "test_project_3");
}

#[test]
fn test_sequential_project_ids() {
    let mut state = empty_state();
    create_project(&mut state, "one", false);
    create_project(&mut state, "two", false);
    create_project(&mut state, "three", false);
    let ids: Vec<u32> = state.projects.iter().map(|p| p.id).collect();
    assert_eq!(ids, vec![1, 2, 3]);
}

#[test]
fn test_duplicate_create_reports_failure() {
    let mut state = empty_state();
    assert!(create_project(&mut state, "again", false));
    assert!(!create_project(&mut state, "again", true));
    assert_eq!(state.projects.len(), 1);
    assert_eq!(state.current_project, None);
}

#[test]
fn test_switch_to_missing_project_changes_nothing() {
    let mut state = empty_state();
    create_project(&mut state, "kept", true);
    let before = TedoState {
        current_project: state.current_project.clone(),
        projects: Vec::new(),
    };
    let switched = switch_project(&mut state, "absent");
    assert!(!switched);
    assert_eq!(state.current_project, before.current_project);
    assert_eq!(state.projects.len(), 1);
}

#[test]
fn test_switch_to_existing_project() {
    let mut state = empty_state();
    create_project(&mut state, "first", true);
    create_project(&mut state, "second", false);
    assert!(switch_project(&mut state, "second"));
    assert_eq!(state.current_project.as_deref(), Some("second"));
}
