use tedo::commands::{apply_command, resolve_commands, Command};
use tedo::model::{state_wf, Project, TedoState};
use tedo::notes::{find_note_content, set_note_content};
use tedo::overview::{project_shorthands, total_notes, total_tasks};
use tedo::projects::{create_project, current_project};
use tedo::storage::{decode_state, encode_state};
use tedo::tasks::create_task;
use tedo::text::{parse_u32_str, u32_dec};

fn empty_state() -> TedoState {
    TedoState { current_project: None, projects: Vec::new() }
}

fn argv(parts: &[&str]) -> Vec<String> {
    parts.iter().map(|p| p.to_string()).collect()
}

#[test]
fn test_resolver_prefix_policy() {
    let mut state = empty_state();
    create_project(&mut state, "alpha", false);
    create_project(&mut state, "alphabet", false);
    let found = Project::find(state, "al").unwrap();
    assert_eq!(found.name, "alpha");
}

#[test]
fn test_numeric_identifier_resolves_by_id() {
    let mut state = empty_state();
    create_project(&mut state, "first", false);
    create_project(&mut state, "second", false);
    let by_id = Project::find_by_id(state, 2).unwrap();
    assert_eq!(by_id.name, "second");
}

#[test]
fn test_find_of_unknown_identifier() {
    let mut state = empty_state();
    create_project(&mut state, "only", false);
    assert!(Project::find(state, "zzz").is_none());
}

#[test]
fn test_current_project_tolerates_stale_pointer() {
    let state = TedoState { current_project: Some("gone".into()), projects: Vec::new() };
    assert!(current_project(state).is_none());
    let unset = empty_state();
    assert!(current_project(unset).is_none());
}

#[test]
fn test_end_to_end_session() {
    let mut state = empty_state();
    for cmd in resolve_commands(argv(&["tedo", "create", "project", "demo", "--switch"])) {
        apply_command(&mut state, &cmd);
    }
    assert_eq!(state.current_project.as_deref(), Some("demo"));
    for cmd in resolve_commands(argv(&["tedo", "ct", "write", "spec"])) {
        apply_command(&mut state, &cmd);
    }
    assert_eq!(state.projects[0].tasks.len(), 1);
    assert_eq!(state.projects[0].tasks[0].id, 1);
    assert_eq!(state.projects[0].tasks[0].description, "write spec");
    for cmd in resolve_commands(argv(&["tedo", "create", "project", "other"])) {
        apply_command(&mut state, &cmd);
    }
    assert_eq!(state.projects.len(), 2);
    assert_eq!(state.current_project.as_deref(), Some("demo"));
    // The tabular rendering itself lives outside the library; the data it
    // shows is the state just built, with "demo" still current.
    let names: Vec<&str> = state.projects.iter().map(|p| p.name.as_str()).collect();
    assert_eq!(names, vec!["demo", "other"]);
    // Editing note 1 while no notes exist reports nothing to edit and
    // leaves the state untouched.
    let before = encode_state(&state);
    assert_eq!(find_note_content(&state, 1), None);
    assert!(!set_note_content(&mut state, 1, "body"));
    assert_eq!(encode_state(&state), before);
}

#[test]
fn test_no_orphan_counts() {
    let mut state = empty_state();
    create_project(&mut state, "p", false);
    let tasks_before = total_tasks(&state);
    let notes_before = total_notes(&state);
    create_task(&mut state, "orphan");
    assert_eq!(total_tasks(&state), tasks_before);
    assert_eq!(total_notes(&state), notes_before);
}

#[test]
fn test_state_wf_checker() {
    let mut state = empty_state();
    create_project(&mut state, "a", true);
    create_task(&mut state, "t");
    assert!(state_wf(&state));
    state.projects[0].id = 9;
    assert!(!state_wf(&state));
}

#[test]
fn test_apply_command_reports_domain_failures() {
    let mut state = empty_state();
    assert!(apply_command(&mut state, &Command::CreateProject { name: "p".into(), switch: false }));
    assert!(!apply_command(&mut state, &Command::CreateProject { name: "p".into(), switch: false }));
    assert!(!apply_command(&mut state, &Command::Switch { name: "absent".into() }));
    assert!(!apply_command(&mut state, &Command::CreateTask { description: "t".into() }));
    assert!(!apply_command(&mut state, &Command::Invalid));
    assert_eq!(state.projects.len(), 1);
}

#[test]
fn test_decode_of_saved_session() {
    let mut state = empty_state();
    create_project(&mut state, "demo", true);
    create_task(&mut state, "one");
    create_task(&mut state, "two");
    let text = encode_state(&state);
    assert_eq!(decode_state(text.as_str()), Some(state));
}

#[test]
fn test_numeric_parsing() {
    assert_eq!(parse_u32_str("0"), Some(0));
    assert_eq!(parse_u32_str("007"), Some(7));
    assert_eq!(parse_u32_str("+5"), Some(5));
    assert_eq!(parse_u32_str("4294967295"), Some(u32::MAX));
    assert_eq!(parse_u32_str("4294967296"), None);
    assert_eq!(parse_u32_str(""), None);
    assert_eq!(parse_u32_str("+"), None);
    assert_eq!(parse_u32_str("12a"), None);
    assert_eq!(u32_dec(0), "0");
    assert_eq!(u32_dec(1234), "1234");
    assert_eq!(u32_dec(u32::MAX), "4294967295");
}

#[test]
fn test_project_shorthands_shortest_unique_prefix() {
    let mut state = empty_state();
    create_project(&mut state, "alpha", false);
    create_project(&mut state, "alphabet", false);
    create_project(&mut state, "beta", false);
    let shorthands = project_shorthands(&state);
    let got: Vec<Option<&str>> = shorthands.iter().map(|s| s.as_deref()).collect();
    assert_eq!(got, vec![Some("a"), Some("al"), Some("b")]);
}

#[test]
fn test_project_shorthand_can_run_out() {
    let state = TedoState {
        current_project: None,
        projects: vec![
            Project { id: 1, name: "ab".into(), tasks: Vec::new(), notes: Vec::new() },
            Project { id: 2, name: "a".into(), tasks: Vec::new(), notes: Vec::new() },
        ],
    };
    let shorthands = project_shorthands(&state);
    let got: Vec<Option<&str>> = shorthands.iter().map(|s| s.as_deref()).collect();
    assert_eq!(got, vec![Some("a"), None]);
}

#[test]
fn test_overview_totals() {
    let mut state = empty_state();
    create_project(&mut state, "one", true);
    create_task(&mut state, "a");
    create_task(&mut state, "b");
    create_project(&mut state, "two", true);
    create_task(&mut state, "c");
    for cmd in resolve_commands(argv(&["tedo", "cn", "remember", "this"])) {
        apply_command(&mut state, &cmd);
    }
    assert_eq!(total_tasks(&state), 3);
    assert_eq!(total_notes(&state), 1);
}
