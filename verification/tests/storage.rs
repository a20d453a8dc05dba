use tedo::model::{Note, Project, Task, TedoState};
use tedo::storage::{decode_state, encode_state};

#[test]
fn test_save_and_load_state() {
    let tedo_state = TedoState {
        current_project: Some("test_project".into()),
        projects: vec![Project {
            id: 1,
            name: "test".into(),
            tasks: Vec::new(),
            notes: Vec::new(),
        }],
    };
    let text = encode_state(&tedo_state);
    let loaded_state = decode_state(text.as_str()).unwrap();
    assert_eq!(tedo_state.current_project, loaded_state.current_project);
    assert_eq!(tedo_state.projects, loaded_state.projects);
}

#[test]
fn test_encoded_document_text() {
    let state = TedoState {
        current_project: Some("demo".into()),
        projects: vec![Project {
            id: 1,
            name: "demo".into(),
            tasks: vec![Task { id: 1, description: "write spec".into() }],
            notes: Vec::new(),
        }],
    };
    let expected = "current_project = \"demo\"\n[[projects]]\nid = 1\nname = \"demo\"\n[[projects.tasks]]\nid = 1\ndescription = \"write spec\"\n";
    assert_eq!(encode_state(&state), expected);
}

#[test]
fn test_round_trip_with_quotes_and_line_breaks() {
    let state = TedoState {
        current_project: None,
        projects: vec![Project {
            id: 1,
            name: "a \"quoted\" name \\ with backslash".into(),
            tasks: Vec::new(),
            notes: vec![Note {
                id: 1,
                description: "multi".into(),
                content: "line one\nline two\n".into(),
            }],
        }],
    };
    let text = encode_state(&state);
    let back = decode_state(text.as_str()).unwrap();
    assert_eq!(back, state);
}

#[test]
fn test_round_trip_of_empty_state() {
    let state = TedoState { current_project: None, projects: Vec::new() };
    let text = encode_state(&state);
    assert_eq!(text, "");
    assert_eq!(decode_state(""), Some(state));
}

#[test]
fn test_decode_rejects_malformed_text() {
    assert_eq!(decode_state("not a state file"), None);
    assert_eq!(decode_state("current_project = \"unterminated"), None);
    assert_eq!(decode_state("[[projects]]\nid = x\n"), None);
    assert_eq!(decode_state("[[projects]]\nid = 1\nname = \"a\"\ntrailing"), None);
}

#[test]
fn test_decode_reads_ids_back() {
    let text = "[[projects]]\nid = 7\nname = \"late\"\n";
    let state = decode_state(text).unwrap();
    assert_eq!(state.current_project, None);
    assert_eq!(state.projects.len(), 1);
    assert_eq!(state.projects[0].id, 7);
    assert_eq!(state.projects[0].name, "late");
}
