use tedo::model::TedoState;
use tedo::notes::{create_note, find_note_content, set_note_content};
use tedo::projects::{create_project, switch_project};

fn empty_state() -> TedoState {
    TedoState { current_project: None, projects: Vec::new() }
}

#[test]
fn test_create_note_in_selected_project() {
    let mut state = empty_state();
    create_project(&mut state, "test_project", false);
    switch_project(&mut state, "test_project");
    create_note(&mut state, "test_note", "test_content");
    assert_eq!(state.projects.len(), 1);
    assert_eq!(state.projects[0].name, "test_project");
    assert_eq!(state.projects[0].notes.len(), 1);
    assert_eq!(state.projects[0].notes[0].id, 1);
    assert_eq!(state.projects[0].notes[0].description, "test_note");
    assert_eq!(state.projects[0].notes[0].content, "test_content");
}

#[test]
fn test_create_note_without_selected_project() {
    let mut state = empty_state();
    create_project(&mut state, "test_project", false);
    assert!(!create_note(&mut state, "orphan", ""));
    assert_eq!(state.projects[0].notes.len(), 0);
}

#[test]
fn test_note_content_round_trip_through_editing() {
    let mut state = empty_state();
    create_project(&mut state, "p", true);
    create_note(&mut state, "n", "before");
    assert_eq!(find_note_content(&state, 1).as_deref(), Some("before"));
    assert!(set_note_content(&mut state, 1, "after"));
    assert_eq!(find_note_content(&state, 1).as_deref(), Some("after"));
    assert_eq!(state.projects[0].notes[0].description, "n");
}

#[test]
fn test_edit_of_missing_note_changes_nothing() {
    let mut state = empty_state();
    create_project(&mut state, "p", true);
    let before_tasks = state.projects[0].tasks.len();
    assert_eq!(find_note_content(&state, 1), None);
    assert!(!set_note_content(&mut state, 1, "text"));
    assert_eq!(state.projects[0].notes.len(), 0);
    assert_eq!(state.projects[0].tasks.len(), before_tasks);
}
