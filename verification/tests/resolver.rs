use tedo::commands::{resolve_commands, resolve_step, Command};

fn argv(parts: &[&str]) -> Vec<String> {
    parts.iter().map(|p| p.to_string()).collect()
}

#[test]
fn test_spelled_out_create_project() {
    let (cmd, rest) = resolve_step(&argv(&["tedo", "create", "project", "foo"]));
    assert_eq!(cmd, Command::CreateProject { name: "foo".into(), switch: false });
    assert!(rest.is_empty());
}

#[test]
fn test_create_project_with_switch_flag() {
    let (cmd, _) = resolve_step(&argv(&["tedo", "create", "project", "foo", "--switch"]));
    assert_eq!(cmd, Command::CreateProject { name: "foo".into(), switch: true });
    let (cmd2, _) = resolve_step(&argv(&["tedo", "c", "pr", "foo", "-s"]));
    assert_eq!(cmd2, Command::CreateProject { name: "foo".into(), switch: true });
}

#[test]
fn test_shorthand_chain_expansion() {
    let (cmd, _) = resolve_step(&argv(&["tedo", "cp", "foo"]));
    assert_eq!(cmd, Command::CreateProject { name: "foo".into(), switch: false });
    let (cmd2, _) = resolve_step(&argv(&["tedo", "cpr", "bar"]));
    assert_eq!(cmd2, Command::CreateProject { name: "bar".into(), switch: false });
    let (cmd3, _) = resolve_step(&argv(&["tedo", "ct", "wash", "the", "dishes"]));
    assert_eq!(cmd3, Command::CreateTask { description: "wash the dishes".into() });
}

#[test]
fn test_list_shorthands() {
    let (cmd, _) = resolve_step(&argv(&["tedo", "lt"]));
    assert_eq!(cmd, Command::ListTasks { all: false });
    let (cmd2, _) = resolve_step(&argv(&["tedo", "lta"]));
    assert_eq!(cmd2, Command::ListTasks { all: true });
    let (cmd3, _) = resolve_step(&argv(&["tedo", "lpr"]));
    assert_eq!(cmd3, Command::ListProjects);
    // `projects` under `list` has no one-letter alias, so the chain `lp`
    // dead-ends and the command is invalid.
    let (cmd5, _) = resolve_step(&argv(&["tedo", "lp"]));
    assert_eq!(cmd5, Command::Invalid);
    let (cmd4, _) = resolve_step(&argv(&["tedo", "list"]));
    assert_eq!(cmd4, Command::Summary);
}

#[test]
fn test_table_commands() {
    let (cmd, _) = resolve_step(&argv(&["tedo", "t", "pr"]));
    assert_eq!(cmd, Command::TableProjects);
    let (cmd2, _) = resolve_step(&argv(&["tedo", "table", "tasks", "project", "2"]));
    assert_eq!(cmd2, Command::TableTasks { project: Some("2".into()) });
    let (cmd3, _) = resolve_step(&argv(&["tedo", "table", "notes", "--project", "demo"]));
    assert_eq!(cmd3, Command::TableNotes { project: Some("demo".into()) });
}

#[test]
fn test_switch_and_edit_commands() {
    let (cmd, _) = resolve_step(&argv(&["tedo", "sw", "demo"]));
    assert_eq!(cmd, Command::Switch { name: "demo".into() });
    let (cmd2, _) = resolve_step(&argv(&["tedo", "edit", "note", "3"]));
    assert_eq!(cmd2, Command::EditNote { identifier: "3".into() });
    let (cmd3, _) = resolve_step(&argv(&["tedo", "e", "n", "3"]));
    assert_eq!(cmd3, Command::EditNote { identifier: "3".into() });
}

#[test]
fn test_unknown_command_is_invalid() {
    let (cmd, _) = resolve_step(&argv(&["tedo", "xyz"]));
    assert_eq!(cmd, Command::Invalid);
    let (cmd2, _) = resolve_step(&argv(&["tedo"]));
    assert_eq!(cmd2, Command::Invalid);
    let (cmd3, _) = resolve_step(&argv(&["tedo", "create"]));
    assert_eq!(cmd3, Command::Invalid);
}

#[test]
fn test_project_reference_keeps_trailing_arguments() {
    let (cmd, rest) = resolve_step(&argv(&["tedo", "project", "demo", "create", "task", "x"]));
    assert_eq!(cmd, Command::ProjectRef { identifier: "demo".into() });
    assert_eq!(rest, argv(&["create", "task", "x"]));
}

#[test]
fn test_recursive_resolution_of_trailing_arguments() {
    let cmds = resolve_commands(argv(&["tedo", "project", "demo", "create", "task", "x", "y"]));
    assert_eq!(
        cmds,
        vec![
            Command::ProjectRef { identifier: "demo".into() },
            Command::CreateTask { description: "x y".into() },
        ]
    );
}

#[test]
fn test_bare_project_reference_resolves_alone() {
    let cmds = resolve_commands(argv(&["tedo", "pr", "demo"]));
    assert_eq!(cmds, vec![Command::ProjectRef { identifier: "demo".into() }]);
}
