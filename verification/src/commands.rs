//! The command grammar resolver: raw argument vectors are normalized into a
//! canonical command tree. Both spelled-out subcommands and compressed
//! shorthand chains are accepted; a chain is expanded by walking the command
//! tree and taking, at each level, the longest alias that starts the
//! remaining chain. A project reference may be followed by further
//! arguments, which are handed back for a fresh resolution round.
use vstd::prelude::*;
use vstd::string::StrSliceExecFns;
use vstd::string::StringExecFns;
use crate::model::{find_name_idx, StateView, TedoState};
use crate::notes::{create_note, create_note_spec};
use crate::projects::{create_project, create_project_spec, switch_project, switch_project_spec};
use crate::tasks::{create_task, create_task_spec};
use crate::text::{join_args, join_spaces, prefix_of, str_eq};

verus! {

/// A fully resolved command.
#[derive(Debug, PartialEq, Eq)]
pub enum Command {
    Init,
    CreateProject { name: String, switch: bool },
    CreateTask { description: String },
    CreateNote { description: String },
    ListProjects,
    ListTasks { all: bool },
    ListNotes,
    Summary,
    TableProjects,
    TableTasks { project: Option<String> },
    TableNotes { project: Option<String> },
    Switch { name: String },
    EditNote { identifier: String },
    ProjectRef { identifier: String },
    Invalid,
}

/// Mathematical shape of a command.
pub enum CommandView {
    Init,
    CreateProject { name: Seq<char>, switch: bool },
    CreateTask { description: Seq<char> },
    CreateNote { description: Seq<char> },
    ListProjects,
    ListTasks { all: bool },
    ListNotes,
    Summary,
    TableProjects,
    TableTasks { project: Option<Seq<char>> },
    TableNotes { project: Option<Seq<char>> },
    Switch { name: Seq<char> },
    EditNote { identifier: Seq<char> },
    ProjectRef { identifier: Seq<char> },
    Invalid,
}

impl View for Command {
    type V = CommandView;

    open spec fn view(&self) -> CommandView {
        match self {
            Command::Init => CommandView::Init,
            Command::CreateProject { name, switch } => CommandView::CreateProject {
                name: name@,
                switch: *switch,
            },
            Command::CreateTask { description } => CommandView::CreateTask {
                description: description@,
            },
            Command::CreateNote { description } => CommandView::CreateNote {
                description: description@,
            },
            Command::ListProjects => CommandView::ListProjects,
            Command::ListTasks { all } => CommandView::ListTasks { all: *all },
            Command::ListNotes => CommandView::ListNotes,
            Command::Summary => CommandView::Summary,
            Command::TableProjects => CommandView::TableProjects,
            Command::TableTasks { project } => CommandView::TableTasks {
                project: match project {
                    Some(p) => Some(p@),
                    None => None,
                },
            },
            Command::TableNotes { project } => CommandView::TableNotes {
                project: match project {
                    Some(p) => Some(p@),
                    None => None,
                },
            },
            Command::Switch { name } => CommandView::Switch { name: name@ },
            Command::EditNote { identifier } => CommandView::EditNote { identifier: identifier@ },
            Command::ProjectRef { identifier } => CommandView::ProjectRef {
                identifier: identifier@,
            },
            Command::Invalid => CommandView::Invalid,
        }
    }
}

/// The views of an argument vector.
pub open spec fn views(args: Seq<String>) -> Seq<Seq<char>> {
    args.map_values(|a: String| a@)
}

// --- Token classes ---------------------------------------------------------
/// The `create` command token.
pub open spec fn tok_create(t: Seq<char>) -> bool {
    t == "create"@ || t == "c"@ || t == "cr"@
}

/// The `list` command token.
pub open spec fn tok_list(t: Seq<char>) -> bool {
    t == "list"@ || t == "ls"@ || t == "l"@
}

/// The `edit` command token.
pub open spec fn tok_edit(t: Seq<char>) -> bool {
    t == "edit"@ || t == "e"@ || t == "ed"@
}

/// The `table` command token.
pub open spec fn tok_table(t: Seq<char>) -> bool {
    t == "table"@ || t == "t"@ || t == "tb"@ || t == "tbl"@ || t == "ta"@ || t == "tab"@
}

/// The `switch` command token.
pub open spec fn tok_switch(t: Seq<char>) -> bool {
    t == "switch"@ || t == "s"@ || t == "sw"@
}

/// A project reference at the top level.
pub open spec fn tok_project(t: Seq<char>) -> bool {
    t == "project"@ || t == "p"@ || t == "pr"@ || t == "proj"@ || t == "pro"@
}

/// The `init` command token.
pub open spec fn tok_init(t: Seq<char>) -> bool {
    t == "init"@
}

/// The `project` subcommand of `create`.
pub open spec fn tok_project_sub(t: Seq<char>) -> bool {
    t == "project"@ || t == "p"@ || t == "pr"@
}

/// The `projects` subcommand of `list` and `table`.
pub open spec fn tok_projects_sub(t: Seq<char>) -> bool {
    t == "projects"@ || t == "project"@ || t == "pr"@ || t == "proj"@ || t == "pro"@
}

/// The `tasks` subcommand of `list` and `table`.
pub open spec fn tok_tasks_sub(t: Seq<char>) -> bool {
    t == "tasks"@ || t == "t"@ || t == "ts"@ || t == "task"@
}

/// The `notes` subcommand of `list` and `table`.
pub open spec fn tok_notes_sub(t: Seq<char>) -> bool {
    t == "notes"@ || t == "n"@ || t == "nt"@ || t == "note"@
}

/// The `note` subcommand of `create` and `edit`.
pub open spec fn tok_note_sub(t: Seq<char>) -> bool {
    t == "note"@ || t == "n"@ || t == "nt"@
}

/// The `task` subcommand of `create`.
pub open spec fn tok_task_sub(t: Seq<char>) -> bool {
    t == "task"@ || t == "t"@ || t == "ts"@
}

/// The `all` subcommand of `list tasks`.
pub open spec fn tok_all(t: Seq<char>) -> bool {
    t == "all"@ || t == "a"@ || t == "al"@
}

/// The project filter of `table tasks`.
pub open spec fn tok_project_filter(t: Seq<char>) -> bool {
    t == "project"@ || t == "pr"@ || t == "proj"@ || t == "pro"@
}

/// The switch flag of `create project`.
pub open spec fn tok_switch_flag(t: Seq<char>) -> bool {
    t == "--switch"@ || t == "-s"@
}

/// The project flag of `table notes`.
pub open spec fn tok_project_flag(t: Seq<char>) -> bool {
    t == "--project"@ || t == "-p"@
}

/// Any spelled-out top-level command other than a project reference.
pub open spec fn tok_known(t: Seq<char>) -> bool {
    tok_init(t) || tok_create(t) || tok_list(t) || tok_edit(t) || tok_table(t) || tok_switch(t)
}

// --- Shorthand chain expansion ---------------------------------------------
/// Expands a shorthand chain into the canonical token path it stands for,
/// walking the command tree and taking at each level the longest alias
/// that starts the remaining chain; a chain that cannot be consumed
/// entirely expands to nothing.
pub open spec fn expand_chain(t: Seq<char>) -> Option<Seq<Seq<char>>> {
    if prefix_of("create"@, t) {
        chain_create(t.skip("create"@.len() as int))
    } else if prefix_of("cr"@, t) {
        chain_create(t.skip("cr"@.len() as int))
    } else if prefix_of("c"@, t) {
        chain_create(t.skip("c"@.len() as int))
    } else if prefix_of("list"@, t) {
        chain_list(t.skip("list"@.len() as int))
    } else if prefix_of("ls"@, t) {
        chain_list(t.skip("ls"@.len() as int))
    } else if prefix_of("l"@, t) {
        chain_list(t.skip("l"@.len() as int))
    } else if prefix_of("edit"@, t) {
        chain_edit(t.skip("edit"@.len() as int))
    } else if prefix_of("ed"@, t) {
        chain_edit(t.skip("ed"@.len() as int))
    } else if prefix_of("e"@, t) {
        chain_edit(t.skip("e"@.len() as int))
    } else if prefix_of("table"@, t) {
        chain_table(t.skip("table"@.len() as int))
    } else if prefix_of("tbl"@, t) {
        chain_table(t.skip("tbl"@.len() as int))
    } else if prefix_of("tab"@, t) {
        chain_table(t.skip("tab"@.len() as int))
    } else if prefix_of("tb"@, t) {
        chain_table(t.skip("tb"@.len() as int))
    } else if prefix_of("ta"@, t) {
        chain_table(t.skip("ta"@.len() as int))
    } else if prefix_of("t"@, t) {
        chain_table(t.skip("t"@.len() as int))
    } else if prefix_of("switch"@, t) {
        chain_leaf(t.skip("switch"@.len() as int), "switch"@)
    } else if prefix_of("sw"@, t) {
        chain_leaf(t.skip("sw"@.len() as int), "switch"@)
    } else if prefix_of("s"@, t) {
        chain_leaf(t.skip("s"@.len() as int), "switch"@)
    } else if prefix_of("project"@, t) {
        chain_leaf(t.skip("project"@.len() as int), "project"@)
    } else if prefix_of("proj"@, t) {
        chain_leaf(t.skip("proj"@.len() as int), "project"@)
    } else if prefix_of("pro"@, t) {
        chain_leaf(t.skip("pro"@.len() as int), "project"@)
    } else if prefix_of("pr"@, t) {
        chain_leaf(t.skip("pr"@.len() as int), "project"@)
    } else if prefix_of("p"@, t) {
        chain_leaf(t.skip("p"@.len() as int), "project"@)
    } else {
        None
    }
}

/// A node with no children: the chain must be used up.
pub open spec fn chain_leaf(r: Seq<char>, canon: Seq<char>) -> Option<Seq<Seq<char>>> {
    if r.len() == 0 {
        Some(seq![canon])
    } else {
        None
    }
}

/// Below `create`: project, note or task.
pub open spec fn chain_create(r: Seq<char>) -> Option<Seq<Seq<char>>> {
    if r.len() == 0 {
        Some(seq!["create"@])
    } else if prefix_of("project"@, r) {
        chain_leaf2(r.skip("project"@.len() as int), "create"@, "project"@)
    } else if prefix_of("pr"@, r) {
        chain_leaf2(r.skip("pr"@.len() as int), "create"@, "project"@)
    } else if prefix_of("p"@, r) {
        chain_leaf2(r.skip("p"@.len() as int), "create"@, "project"@)
    } else if prefix_of("note"@, r) {
        chain_leaf2(r.skip("note"@.len() as int), "create"@, "note"@)
    } else if prefix_of("nt"@, r) {
        chain_leaf2(r.skip("nt"@.len() as int), "create"@, "note"@)
    } else if prefix_of("n"@, r) {
        chain_leaf2(r.skip("n"@.len() as int), "create"@, "note"@)
    } else if prefix_of("task"@, r) {
        chain_leaf2(r.skip("task"@.len() as int), "create"@, "task"@)
    } else if prefix_of("ts"@, r) {
        chain_leaf2(r.skip("ts"@.len() as int), "create"@, "task"@)
    } else if prefix_of("t"@, r) {
        chain_leaf2(r.skip("t"@.len() as int), "create"@, "task"@)
    } else {
        None
    }
}

/// A depth-two node with no children: the chain must be used up.
pub open spec fn chain_leaf2(r: Seq<char>, c0: Seq<char>, c1: Seq<char>) -> Option<
    Seq<Seq<char>>,
> {
    if r.len() == 0 {
        Some(seq![c0, c1])
    } else {
        None
    }
}

/// A depth-three node with no children: the chain must be used up.
pub open spec fn chain_leaf3(r: Seq<char>, c0: Seq<char>, c1: Seq<char>, c2: Seq<char>) -> Option<
    Seq<Seq<char>>,
> {
    if r.len() == 0 {
        Some(seq![c0, c1, c2])
    } else {
        None
    }
}

/// Below `list`: projects, tasks (with `all`) or notes.
pub open spec fn chain_list(r: Seq<char>) -> Option<Seq<Seq<char>>> {
    if r.len() == 0 {
        Some(seq!["list"@])
    } else if prefix_of("projects"@, r) {
        chain_leaf2(r.skip("projects"@.len() as int), "list"@, "projects"@)
    } else if prefix_of("project"@, r) {
        chain_leaf2(r.skip("project"@.len() as int), "list"@, "projects"@)
    } else if prefix_of("proj"@, r) {
        chain_leaf2(r.skip("proj"@.len() as int), "list"@, "projects"@)
    } else if prefix_of("pro"@, r) {
        chain_leaf2(r.skip("pro"@.len() as int), "list"@, "projects"@)
    } else if prefix_of("pr"@, r) {
        chain_leaf2(r.skip("pr"@.len() as int), "list"@, "projects"@)
    } else if prefix_of("tasks"@, r) {
        chain_list_tasks(r.skip("tasks"@.len() as int))
    } else if prefix_of("task"@, r) {
        chain_list_tasks(r.skip("task"@.len() as int))
    } else if prefix_of("ts"@, r) {
        chain_list_tasks(r.skip("ts"@.len() as int))
    } else if prefix_of("t"@, r) {
        chain_list_tasks(r.skip("t"@.len() as int))
    } else if prefix_of("notes"@, r) {
        chain_leaf2(r.skip("notes"@.len() as int), "list"@, "notes"@)
    } else if prefix_of("note"@, r) {
        chain_leaf2(r.skip("note"@.len() as int), "list"@, "notes"@)
    } else if prefix_of("nt"@, r) {
        chain_leaf2(r.skip("nt"@.len() as int), "list"@, "notes"@)
    } else if prefix_of("n"@, r) {
        chain_leaf2(r.skip("n"@.len() as int), "list"@, "notes"@)
    } else {
        None
    }
}

/// Below `list tasks`: the optional `all`.
pub open spec fn chain_list_tasks(r: Seq<char>) -> Option<Seq<Seq<char>>> {
    if r.len() == 0 {
        Some(seq!["list"@, "tasks"@])
    } else if prefix_of("all"@, r) {
        chain_leaf3(r.skip("all"@.len() as int), "list"@, "tasks"@, "all"@)
    } else if prefix_of("al"@, r) {
        chain_leaf3(r.skip("al"@.len() as int), "list"@, "tasks"@, "all"@)
    } else if prefix_of("a"@, r) {
        chain_leaf3(r.skip("a"@.len() as int), "list"@, "tasks"@, "all"@)
    } else {
        None
    }
}

/// Below `edit`: only notes can be edited.
pub open spec fn chain_edit(r: Seq<char>) -> Option<Seq<Seq<char>>> {
    if r.len() == 0 {
        Some(seq!["edit"@])
    } else if prefix_of("note"@, r) {
        chain_leaf2(r.skip("note"@.len() as int), "edit"@, "note"@)
    } else if prefix_of("nt"@, r) {
        chain_leaf2(r.skip("nt"@.len() as int), "edit"@, "note"@)
    } else if prefix_of("n"@, r) {
        chain_leaf2(r.skip("n"@.len() as int), "edit"@, "note"@)
    } else {
        None
    }
}

/// Below `table`: projects, tasks (with a project filter) or notes.
pub open spec fn chain_table(r: Seq<char>) -> Option<Seq<Seq<char>>> {
    if r.len() == 0 {
        Some(seq!["table"@])
    } else if prefix_of("projects"@, r) {
        chain_leaf2(r.skip("projects"@.len() as int), "table"@, "projects"@)
    } else if prefix_of("project"@, r) {
        chain_leaf2(r.skip("project"@.len() as int), "table"@, "projects"@)
    } else if prefix_of("proj"@, r) {
        chain_leaf2(r.skip("proj"@.len() as int), "table"@, "projects"@)
    } else if prefix_of("pro"@, r) {
        chain_leaf2(r.skip("pro"@.len() as int), "table"@, "projects"@)
    } else if prefix_of("pr"@, r) {
        chain_leaf2(r.skip("pr"@.len() as int), "table"@, "projects"@)
    } else if prefix_of("tasks"@, r) {
        chain_table_tasks(r.skip("tasks"@.len() as int))
    } else if prefix_of("task"@, r) {
        chain_table_tasks(r.skip("task"@.len() as int))
    } else if prefix_of("ts"@, r) {
        chain_table_tasks(r.skip("ts"@.len() as int))
    } else if prefix_of("t"@, r) {
        chain_table_tasks(r.skip("t"@.len() as int))
    } else if prefix_of("notes"@, r) {
        chain_leaf2(r.skip("notes"@.len() as int), "table"@, "notes"@)
    } else if prefix_of("note"@, r) {
        chain_leaf2(r.skip("note"@.len() as int), "table"@, "notes"@)
    } else if prefix_of("nt"@, r) {
        chain_leaf2(r.skip("nt"@.len() as int), "table"@, "notes"@)
    } else if prefix_of("n"@, r) {
        chain_leaf2(r.skip("n"@.len() as int), "table"@, "notes"@)
    } else {
        None
    }
}

/// Below `table tasks`: the optional project filter.
pub open spec fn chain_table_tasks(r: Seq<char>) -> Option<Seq<Seq<char>>> {
    if r.len() == 0 {
        Some(seq!["table"@, "tasks"@])
    } else if prefix_of("project"@, r) {
        chain_leaf3(r.skip("project"@.len() as int), "table"@, "tasks"@, "project"@)
    } else if prefix_of("proj"@, r) {
        chain_leaf3(r.skip("proj"@.len() as int), "table"@, "tasks"@, "project"@)
    } else if prefix_of("pro"@, r) {
        chain_leaf3(r.skip("pro"@.len() as int), "table"@, "tasks"@, "project"@)
    } else if prefix_of("pr"@, r) {
        chain_leaf3(r.skip("pr"@.len() as int), "table"@, "tasks"@, "project"@)
    } else {
        None
    }
}

// --- Canonical parsing -----------------------------------------------------
/// Parses a token list whose first token names a spelled-out command.
pub open spec fn spec_parse_known(toks: Seq<Seq<char>>) -> CommandView {
    if toks.len() == 0 {
        CommandView::Invalid
    } else if tok_init(toks[0]) {
        if toks.len() == 1 {
            CommandView::Init
        } else {
            CommandView::Invalid
        }
    } else if tok_create(toks[0]) {
        if toks.len() >= 2 && tok_project_sub(toks[1]) {
            if toks.len() == 3 {
                CommandView::CreateProject { name: toks[2], switch: false }
            } else if toks.len() == 4 && tok_switch_flag(toks[3]) {
                CommandView::CreateProject { name: toks[2], switch: true }
            } else {
                CommandView::Invalid
            }
        } else if toks.len() >= 2 && tok_note_sub(toks[1]) {
            if toks.len() >= 3 {
                CommandView::CreateNote {
                    description: join_spaces(toks.subrange(2, toks.len() as int)),
                }
            } else {
                CommandView::Invalid
            }
        } else if toks.len() >= 2 && tok_task_sub(toks[1]) {
            if toks.len() >= 3 {
                CommandView::CreateTask {
                    description: join_spaces(toks.subrange(2, toks.len() as int)),
                }
            } else {
                CommandView::Invalid
            }
        } else {
            CommandView::Invalid
        }
    } else if tok_list(toks[0]) {
        if toks.len() == 1 {
            CommandView::Summary
        } else if tok_projects_sub(toks[1]) {
            if toks.len() == 2 {
                CommandView::ListProjects
            } else {
                CommandView::Invalid
            }
        } else if tok_tasks_sub(toks[1]) {
            if toks.len() == 2 {
                CommandView::ListTasks { all: false }
            } else if toks.len() == 3 && tok_all(toks[2]) {
                CommandView::ListTasks { all: true }
            } else {
                CommandView::Invalid
            }
        } else if tok_notes_sub(toks[1]) {
            if toks.len() == 2 {
                CommandView::ListNotes
            } else {
                CommandView::Invalid
            }
        } else {
            CommandView::Invalid
        }
    } else if tok_table(toks[0]) {
        if toks.len() >= 2 && tok_projects_sub(toks[1]) {
            if toks.len() == 2 {
                CommandView::TableProjects
            } else {
                CommandView::Invalid
            }
        } else if toks.len() >= 2 && tok_tasks_sub(toks[1]) {
            if toks.len() == 2 {
                CommandView::TableTasks { project: None }
            } else if toks.len() == 3 && tok_project_filter(toks[2]) {
                CommandView::TableTasks { project: None }
            } else if toks.len() == 4 && tok_project_filter(toks[2]) {
                CommandView::TableTasks { project: Some(toks[3]) }
            } else {
                CommandView::Invalid
            }
        } else if toks.len() >= 2 && tok_notes_sub(toks[1]) {
            if toks.len() == 2 {
                CommandView::TableNotes { project: None }
            } else if toks.len() == 4 && tok_project_flag(toks[2]) {
                CommandView::TableNotes { project: Some(toks[3]) }
            } else {
                CommandView::Invalid
            }
        } else {
            CommandView::Invalid
        }
    } else if tok_switch(toks[0]) {
        if toks.len() == 2 {
            CommandView::Switch { name: toks[1] }
        } else {
            CommandView::Invalid
        }
    } else if tok_edit(toks[0]) {
        if toks.len() == 3 && tok_note_sub(toks[1]) {
            CommandView::EditNote { identifier: toks[2] }
        } else {
            CommandView::Invalid
        }
    } else {
        CommandView::Invalid
    }
}

/// One resolution round over a raw argument vector (program name first):
/// the resolved command, and any arguments left for a further round. Only
/// a project reference leaves arguments behind.
pub open spec fn spec_resolve_step(args: Seq<Seq<char>>) -> (CommandView, Seq<Seq<char>>) {
    if args.len() < 2 {
        (CommandView::Invalid, Seq::empty())
    } else {
        let t = args[1];
        if tok_project(t) {
            if args.len() < 3 {
                (CommandView::Invalid, Seq::empty())
            } else {
                (
                    CommandView::ProjectRef { identifier: args[2] },
                    if args.len() > 3 {
                        args.subrange(3, args.len() as int)
                    } else {
                        Seq::empty()
                    },
                )
            }
        } else if tok_known(t) {
            (spec_parse_known(args.subrange(1, args.len() as int)), Seq::empty())
        } else {
            match expand_chain(t) {
                None => (CommandView::Invalid, Seq::empty()),
                Some(path) => (
                    spec_parse_known(path + args.subrange(2, args.len() as int)),
                    Seq::empty(),
                ),
            }
        }
    }
}

/// Full resolution: every command the argument vector stands for, in the
/// order they are dispatched; trailing arguments after a project reference
/// are resolved again with the program name put back in front.
pub open spec fn spec_resolve_all(args: Seq<Seq<char>>) -> Seq<CommandView>
    decreases args.len(),
{
    let (c, rest) = spec_resolve_step(args);
    if rest.len() == 0 || args.len() < 4 {
        seq![c]
    } else {
        seq![c] + spec_resolve_all(seq![args[0]] + rest)
    }
}

// --- Executable resolution -------------------------------------------------
/// Skipping twice is skipping the sum.
pub proof fn lemma_skip_skip(t: Seq<char>, a: int, b: int)
    requires
        0 <= a,
        0 <= b,
        a + b <= t.len(),
    ensures
        t.skip(a).skip(b) == t.skip(a + b),
{
    assert(t.skip(a).skip(b) =~= t.skip(a + b));
}

/// Skipping nothing changes nothing.
pub proof fn lemma_skip0(t: Seq<char>)
    ensures
        t.skip(0) == t,
{
    assert(t.skip(0) =~= t);
}

/// Whether `p` starts the tail of `t` at position `pos`.
fn tail_starts_with(t: &str, pos: usize, p: &str) -> (r: bool)
    requires
        pos <= t@.len(),
    ensures
        r == prefix_of(p@, t@.skip(pos as int)),
{
    let tl = t.unicode_len();
    let pl = p.unicode_len();
    if pl > tl - pos {
        return false;
    }
    let mut k: usize = 0;
    while k < pl
        invariant
            k <= pl,
            pos <= tl,
            tl == t@.len(),
            pl == p@.len(),
            pl <= tl - pos,
            forall|m: int| 0 <= m < k ==> t@[pos + m] == p@[m],
        decreases pl - k,
    {
        if t.get_char(pos + k) != p.get_char(k) {
            proof {
                assert(t@.skip(pos as int)[k as int] == t@[pos + k]);
                assert(t@.skip(pos as int).subrange(0, p@.len() as int)[k as int] != p@[k as int]);
            }
            return false;
        }
        k += 1;
    }
    proof {
        assert forall|m: int|
            0 <= m < p@.len() implies t@.skip(pos as int).subrange(0, p@.len() as int)[m]
            == p@[m] by {
            assert(t@.skip(pos as int)[m] == t@[pos + m]);
        }
        assert(t@.skip(pos as int).subrange(0, p@.len() as int) =~= p@);
    }
    true
}

/// One canonical token as an owned string.
fn canon(tok: &str) -> (r: String)
    ensures
        r@ == tok@,
{
    String::from_str(tok)
}

/// A leaf node at depth one: the chain must be used up.
fn chain_leaf_exec(t: &str, pos: usize, name: &str) -> (r: Option<Vec<String>>)
    requires
        pos <= t@.len(),
    ensures
        match r {
            Some(path) => chain_leaf(t@.skip(pos as int), name@) == Some(views(path@)),
            None => chain_leaf(t@.skip(pos as int), name@) is None,
        },
{
    if pos == t.unicode_len() {
        let mut path: Vec<String> = Vec::new();
        path.push(canon(name));
        proof {
            assert(views(path@) =~= seq![name@]);
        }
        Some(path)
    } else {
        None
    }
}

/// A leaf node at depth two: the chain must be used up.
fn chain_leaf2_exec(t: &str, pos: usize, c0: &str, c1: &str) -> (r: Option<Vec<String>>)
    requires
        pos <= t@.len(),
    ensures
        match r {
            Some(path) => chain_leaf2(t@.skip(pos as int), c0@, c1@) == Some(views(path@)),
            None => chain_leaf2(t@.skip(pos as int), c0@, c1@) is None,
        },
{
    if pos == t.unicode_len() {
        let mut path: Vec<String> = Vec::new();
        path.push(canon(c0));
        path.push(canon(c1));
        proof {
            assert(views(path@) =~= seq![c0@, c1@]);
        }
        Some(path)
    } else {
        None
    }
}

/// A leaf node at depth three: the chain must be used up.
fn chain_leaf3_exec(t: &str, pos: usize, c0: &str, c1: &str, c2: &str) -> (r: Option<Vec<String>>)
    requires
        pos <= t@.len(),
    ensures
        match r {
            Some(path) => chain_leaf3(t@.skip(pos as int), c0@, c1@, c2@) == Some(views(path@)),
            None => chain_leaf3(t@.skip(pos as int), c0@, c1@, c2@) is None,
        },
{
    if pos == t.unicode_len() {
        let mut path: Vec<String> = Vec::new();
        path.push(canon(c0));
        path.push(canon(c1));
        path.push(canon(c2));
        proof {
            assert(views(path@) =~= seq![c0@, c1@, c2@]);
        }
        Some(path)
    } else {
        None
    }
}

/// Walks the chain below `create`.
fn chain_create_exec(t: &str, pos: usize) -> (r: Option<Vec<String>>)
    requires
        pos <= t@.len(),
    ensures
        match r {
            Some(path) => chain_create(t@.skip(pos as int)) == Some(views(path@)),
            None => chain_create(t@.skip(pos as int)) is None,
        },
{
    proof {
        lemma_chain_skips(t@, pos as int);
    }
    if pos == t.unicode_len() {
        let mut path: Vec<String> = Vec::new();
        path.push(canon("create"));
        proof {
            assert(views(path@) =~= seq!["create"@]);
        }
        Some(path)
    } else if tail_starts_with(t, pos, "project") {
        chain_leaf2_exec(t, pos + "project".unicode_len(), "create", "project")
    } else if tail_starts_with(t, pos, "pr") {
        chain_leaf2_exec(t, pos + "pr".unicode_len(), "create", "project")
    } else if tail_starts_with(t, pos, "p") {
        chain_leaf2_exec(t, pos + "p".unicode_len(), "create", "project")
    } else if tail_starts_with(t, pos, "note") {
        chain_leaf2_exec(t, pos + "note".unicode_len(), "create", "note")
    } else if tail_starts_with(t, pos, "nt") {
        chain_leaf2_exec(t, pos + "nt".unicode_len(), "create", "note")
    } else if tail_starts_with(t, pos, "n") {
        chain_leaf2_exec(t, pos + "n".unicode_len(), "create", "note")
    } else if tail_starts_with(t, pos, "task") {
        chain_leaf2_exec(t, pos + "task".unicode_len(), "create", "task")
    } else if tail_starts_with(t, pos, "ts") {
        chain_leaf2_exec(t, pos + "ts".unicode_len(), "create", "task")
    } else if tail_starts_with(t, pos, "t") {
        chain_leaf2_exec(t, pos + "t".unicode_len(), "create", "task")
    } else {
        None
    }
}

/// Relates every further skip below position `pos` to a single skip.
proof fn lemma_chain_skips(t: Seq<char>, pos: int)
    requires
        0 <= pos <= t.len(),
    ensures
        forall|b: int| 0 <= b && pos + b <= t.len() ==> #[trigger] t.skip(pos).skip(b) == t.skip(
            pos + b,
        ),
{
    assert forall|b: int| 0 <= b && pos + b <= t.len() implies #[trigger] t.skip(pos).skip(b)
        == t.skip(pos + b) by {
        lemma_skip_skip(t, pos, b);
    }
}

/// Walks the chain below `list tasks`.
fn chain_list_tasks_exec(t: &str, pos: usize) -> (r: Option<Vec<String>>)
    requires
        pos <= t@.len(),
    ensures
        match r {
            Some(path) => chain_list_tasks(t@.skip(pos as int)) == Some(views(path@)),
            None => chain_list_tasks(t@.skip(pos as int)) is None,
        },
{
    proof {
        lemma_chain_skips(t@, pos as int);
    }
    if pos == t.unicode_len() {
        let mut path: Vec<String> = Vec::new();
        path.push(canon("list"));
        path.push(canon("tasks"));
        proof {
            assert(views(path@) =~= seq!["list"@, "tasks"@]);
        }
        Some(path)
    } else if tail_starts_with(t, pos, "all") {
        chain_leaf3_exec(t, pos + "all".unicode_len(), "list", "tasks", "all")
    } else if tail_starts_with(t, pos, "al") {
        chain_leaf3_exec(t, pos + "al".unicode_len(), "list", "tasks", "all")
    } else if tail_starts_with(t, pos, "a") {
        chain_leaf3_exec(t, pos + "a".unicode_len(), "list", "tasks", "all")
    } else {
        None
    }
}

/// Walks the chain below `list`.
fn chain_list_exec(t: &str, pos: usize) -> (r: Option<Vec<String>>)
    requires
        pos <= t@.len(),
    ensures
        match r {
            Some(path) => chain_list(t@.skip(pos as int)) == Some(views(path@)),
            None => chain_list(t@.skip(pos as int)) is None,
        },
{
    proof {
        lemma_chain_skips(t@, pos as int);
    }
    if pos == t.unicode_len() {
        let mut path: Vec<String> = Vec::new();
        path.push(canon("list"));
        proof {
            assert(views(path@) =~= seq!["list"@]);
        }
        Some(path)
    } else if tail_starts_with(t, pos, "projects") {
        chain_leaf2_exec(t, pos + "projects".unicode_len(), "list", "projects")
    } else if tail_starts_with(t, pos, "project") {
        chain_leaf2_exec(t, pos + "project".unicode_len(), "list", "projects")
    } else if tail_starts_with(t, pos, "proj") {
        chain_leaf2_exec(t, pos + "proj".unicode_len(), "list", "projects")
    } else if tail_starts_with(t, pos, "pro") {
        chain_leaf2_exec(t, pos + "pro".unicode_len(), "list", "projects")
    } else if tail_starts_with(t, pos, "pr") {
        chain_leaf2_exec(t, pos + "pr".unicode_len(), "list", "projects")
    } else if tail_starts_with(t, pos, "tasks") {
        chain_list_tasks_exec(t, pos + "tasks".unicode_len())
    } else if tail_starts_with(t, pos, "task") {
        chain_list_tasks_exec(t, pos + "task".unicode_len())
    } else if tail_starts_with(t, pos, "ts") {
        chain_list_tasks_exec(t, pos + "ts".unicode_len())
    } else if tail_starts_with(t, pos, "t") {
        chain_list_tasks_exec(t, pos + "t".unicode_len())
    } else if tail_starts_with(t, pos, "notes") {
        chain_leaf2_exec(t, pos + "notes".unicode_len(), "list", "notes")
    } else if tail_starts_with(t, pos, "note") {
        chain_leaf2_exec(t, pos + "note".unicode_len(), "list", "notes")
    } else if tail_starts_with(t, pos, "nt") {
        chain_leaf2_exec(t, pos + "nt".unicode_len(), "list", "notes")
    } else if tail_starts_with(t, pos, "n") {
        chain_leaf2_exec(t, pos + "n".unicode_len(), "list", "notes")
    } else {
        None
    }
}

/// Walks the chain below `edit`.
fn chain_edit_exec(t: &str, pos: usize) -> (r: Option<Vec<String>>)
    requires
        pos <= t@.len(),
    ensures
        match r {
            Some(path) => chain_edit(t@.skip(pos as int)) == Some(views(path@)),
            None => chain_edit(t@.skip(pos as int)) is None,
        },
{
    proof {
        lemma_chain_skips(t@, pos as int);
    }
    if pos == t.unicode_len() {
        let mut path: Vec<String> = Vec::new();
        path.push(canon("edit"));
        proof {
            assert(views(path@) =~= seq!["edit"@]);
        }
        Some(path)
    } else if tail_starts_with(t, pos, "note") {
        chain_leaf2_exec(t, pos + "note".unicode_len(), "edit", "note")
    } else if tail_starts_with(t, pos, "nt") {
        chain_leaf2_exec(t, pos + "nt".unicode_len(), "edit", "note")
    } else if tail_starts_with(t, pos, "n") {
        chain_leaf2_exec(t, pos + "n".unicode_len(), "edit", "note")
    } else {
        None
    }
}

/// Walks the chain below `table tasks`.
fn chain_table_tasks_exec(t: &str, pos: usize) -> (r: Option<Vec<String>>)
    requires
        pos <= t@.len(),
    ensures
        match r {
            Some(path) => chain_table_tasks(t@.skip(pos as int)) == Some(views(path@)),
            None => chain_table_tasks(t@.skip(pos as int)) is None,
        },
{
    proof {
        lemma_chain_skips(t@, pos as int);
    }
    if pos == t.unicode_len() {
        let mut path: Vec<String> = Vec::new();
        path.push(canon("table"));
        path.push(canon("tasks"));
        proof {
            assert(views(path@) =~= seq!["table"@, "tasks"@]);
        }
        Some(path)
    } else if tail_starts_with(t, pos, "project") {
        chain_leaf3_exec(t, pos + "project".unicode_len(), "table", "tasks", "project")
    } else if tail_starts_with(t, pos, "proj") {
        chain_leaf3_exec(t, pos + "proj".unicode_len(), "table", "tasks", "project")
    } else if tail_starts_with(t, pos, "pro") {
        chain_leaf3_exec(t, pos + "pro".unicode_len(), "table", "tasks", "project")
    } else if tail_starts_with(t, pos, "pr") {
        chain_leaf3_exec(t, pos + "pr".unicode_len(), "table", "tasks", "project")
    } else {
        None
    }
}

/// Walks the chain below `table`.
fn chain_table_exec(t: &str, pos: usize) -> (r: Option<Vec<String>>)
    requires
        pos <= t@.len(),
    ensures
        match r {
            Some(path) => chain_table(t@.skip(pos as int)) == Some(views(path@)),
            None => chain_table(t@.skip(pos as int)) is None,
        },
{
    proof {
        lemma_chain_skips(t@, pos as int);
    }
    if pos == t.unicode_len() {
        let mut path: Vec<String> = Vec::new();
        path.push(canon("table"));
        proof {
            assert(views(path@) =~= seq!["table"@]);
        }
        Some(path)
    } else if tail_starts_with(t, pos, "projects") {
        chain_leaf2_exec(t, pos + "projects".unicode_len(), "table", "projects")
    } else if tail_starts_with(t, pos, "project") {
        chain_leaf2_exec(t, pos + "project".unicode_len(), "table", "projects")
    } else if tail_starts_with(t, pos, "proj") {
        chain_leaf2_exec(t, pos + "proj".unicode_len(), "table", "projects")
    } else if tail_starts_with(t, pos, "pro") {
        chain_leaf2_exec(t, pos + "pro".unicode_len(), "table", "projects")
    } else if tail_starts_with(t, pos, "pr") {
        chain_leaf2_exec(t, pos + "pr".unicode_len(), "table", "projects")
    } else if tail_starts_with(t, pos, "tasks") {
        chain_table_tasks_exec(t, pos + "tasks".unicode_len())
    } else if tail_starts_with(t, pos, "task") {
        chain_table_tasks_exec(t, pos + "task".unicode_len())
    } else if tail_starts_with(t, pos, "ts") {
        chain_table_tasks_exec(t, pos + "ts".unicode_len())
    } else if tail_starts_with(t, pos, "t") {
        chain_table_tasks_exec(t, pos + "t".unicode_len())
    } else if tail_starts_with(t, pos, "notes") {
        chain_leaf2_exec(t, pos + "notes".unicode_len(), "table", "notes")
    } else if tail_starts_with(t, pos, "note") {
        chain_leaf2_exec(t, pos + "note".unicode_len(), "table", "notes")
    } else if tail_starts_with(t, pos, "nt") {
        chain_leaf2_exec(t, pos + "nt".unicode_len(), "table", "notes")
    } else if tail_starts_with(t, pos, "n") {
        chain_leaf2_exec(t, pos + "n".unicode_len(), "table", "notes")
    } else {
        None
    }
}

/// Expands a shorthand chain, as `expand_chain` describes.
fn expand_chain_exec(t: &str) -> (r: Option<Vec<String>>)
    ensures
        match r {
            Some(path) => expand_chain(t@) == Some(views(path@)),
            None => expand_chain(t@) is None,
        },
{
    proof {
        lemma_skip0(t@);
    }
    if tail_starts_with(t, 0, "create") {
        chain_create_exec(t, "create".unicode_len())
    } else if tail_starts_with(t, 0, "cr") {
        chain_create_exec(t, "cr".unicode_len())
    } else if tail_starts_with(t, 0, "c") {
        chain_create_exec(t, "c".unicode_len())
    } else if tail_starts_with(t, 0, "list") {
        chain_list_exec(t, "list".unicode_len())
    } else if tail_starts_with(t, 0, "ls") {
        chain_list_exec(t, "ls".unicode_len())
    } else if tail_starts_with(t, 0, "l") {
        chain_list_exec(t, "l".unicode_len())
    } else if tail_starts_with(t, 0, "edit") {
        chain_edit_exec(t, "edit".unicode_len())
    } else if tail_starts_with(t, 0, "ed") {
        chain_edit_exec(t, "ed".unicode_len())
    } else if tail_starts_with(t, 0, "e") {
        chain_edit_exec(t, "e".unicode_len())
    } else if tail_starts_with(t, 0, "table") {
        chain_table_exec(t, "table".unicode_len())
    } else if tail_starts_with(t, 0, "tbl") {
        chain_table_exec(t, "tbl".unicode_len())
    } else if tail_starts_with(t, 0, "tab") {
        chain_table_exec(t, "tab".unicode_len())
    } else if tail_starts_with(t, 0, "tb") {
        chain_table_exec(t, "tb".unicode_len())
    } else if tail_starts_with(t, 0, "ta") {
        chain_table_exec(t, "ta".unicode_len())
    } else if tail_starts_with(t, 0, "t") {
        chain_table_exec(t, "t".unicode_len())
    } else if tail_starts_with(t, 0, "switch") {
        chain_leaf_exec(t, "switch".unicode_len(), "switch")
    } else if tail_starts_with(t, 0, "sw") {
        chain_leaf_exec(t, "sw".unicode_len(), "switch")
    } else if tail_starts_with(t, 0, "s") {
        chain_leaf_exec(t, "s".unicode_len(), "switch")
    } else if tail_starts_with(t, 0, "project") {
        chain_leaf_exec(t, "project".unicode_len(), "project")
    } else if tail_starts_with(t, 0, "proj") {
        chain_leaf_exec(t, "proj".unicode_len(), "project")
    } else if tail_starts_with(t, 0, "pro") {
        chain_leaf_exec(t, "pro".unicode_len(), "project")
    } else if tail_starts_with(t, 0, "pr") {
        chain_leaf_exec(t, "pr".unicode_len(), "project")
    } else if tail_starts_with(t, 0, "p") {
        chain_leaf_exec(t, "p".unicode_len(), "project")
    } else {
        None
    }
}


// --- Token tests -----------------------------------------------------------
/// Tests for each token class, mirroring the spec-level classes.
fn is_create_tok(t: &str) -> (r: bool)
    ensures
        r == tok_create(t@),
{
    str_eq(t, "create") || str_eq(t, "c") || str_eq(t, "cr")
}

/// See `tok_list`.
fn is_list_tok(t: &str) -> (r: bool)
    ensures
        r == tok_list(t@),
{
    str_eq(t, "list") || str_eq(t, "ls") || str_eq(t, "l")
}

/// See `tok_edit`.
fn is_edit_tok(t: &str) -> (r: bool)
    ensures
        r == tok_edit(t@),
{
    str_eq(t, "edit") || str_eq(t, "e") || str_eq(t, "ed")
}

/// See `tok_table`.
fn is_table_tok(t: &str) -> (r: bool)
    ensures
        r == tok_table(t@),
{
    str_eq(t, "table") || str_eq(t, "t") || str_eq(t, "tb") || str_eq(t, "tbl") || str_eq(t, "ta")
        || str_eq(t, "tab")
}

/// See `tok_switch`.
fn is_switch_tok(t: &str) -> (r: bool)
    ensures
        r == tok_switch(t@),
{
    str_eq(t, "switch") || str_eq(t, "s") || str_eq(t, "sw")
}

/// See `tok_project`.
fn is_project_tok(t: &str) -> (r: bool)
    ensures
        r == tok_project(t@),
{
    str_eq(t, "project") || str_eq(t, "p") || str_eq(t, "pr") || str_eq(t, "proj") || str_eq(
        t,
        "pro",
    )
}

/// See `tok_known`.
fn is_known_tok(t: &str) -> (r: bool)
    ensures
        r == tok_known(t@),
{
    str_eq(t, "init") || is_create_tok(t) || is_list_tok(t) || is_edit_tok(t) || is_table_tok(t)
        || is_switch_tok(t)
}

/// See `tok_project_sub`.
fn is_project_sub_tok(t: &str) -> (r: bool)
    ensures
        r == tok_project_sub(t@),
{
    str_eq(t, "project") || str_eq(t, "p") || str_eq(t, "pr")
}

/// See `tok_projects_sub`.
fn is_projects_sub_tok(t: &str) -> (r: bool)
    ensures
        r == tok_projects_sub(t@),
{
    str_eq(t, "projects") || str_eq(t, "project") || str_eq(t, "pr") || str_eq(t, "proj")
        || str_eq(t, "pro")
}

/// See `tok_tasks_sub`.
fn is_tasks_sub_tok(t: &str) -> (r: bool)
    ensures
        r == tok_tasks_sub(t@),
{
    str_eq(t, "tasks") || str_eq(t, "t") || str_eq(t, "ts") || str_eq(t, "task")
}

/// See `tok_notes_sub`.
fn is_notes_sub_tok(t: &str) -> (r: bool)
    ensures
        r == tok_notes_sub(t@),
{
    str_eq(t, "notes") || str_eq(t, "n") || str_eq(t, "nt") || str_eq(t, "note")
}

/// See `tok_note_sub`.
fn is_note_sub_tok(t: &str) -> (r: bool)
    ensures
        r == tok_note_sub(t@),
{
    str_eq(t, "note") || str_eq(t, "n") || str_eq(t, "nt")
}

/// See `tok_task_sub`.
fn is_task_sub_tok(t: &str) -> (r: bool)
    ensures
        r == tok_task_sub(t@),
{
    str_eq(t, "task") || str_eq(t, "t") || str_eq(t, "ts")
}

/// See `tok_all`.
fn is_all_tok(t: &str) -> (r: bool)
    ensures
        r == tok_all(t@),
{
    str_eq(t, "all") || str_eq(t, "a") || str_eq(t, "al")
}

/// See `tok_project_filter`.
fn is_project_filter_tok(t: &str) -> (r: bool)
    ensures
        r == tok_project_filter(t@),
{
    str_eq(t, "project") || str_eq(t, "pr") || str_eq(t, "proj") || str_eq(t, "pro")
}

/// See `tok_switch_flag`.
fn is_switch_flag_tok(t: &str) -> (r: bool)
    ensures
        r == tok_switch_flag(t@),
{
    str_eq(t, "--switch") || str_eq(t, "-s")
}

/// See `tok_project_flag`.
fn is_project_flag_tok(t: &str) -> (r: bool)
    ensures
        r == tok_project_flag(t@),
{
    str_eq(t, "--project") || str_eq(t, "-p")
}

// --- Canonical parsing, executable -----------------------------------------
/// Parses a canonical token list, as `spec_parse_known` describes.
fn parse_known(toks: &Vec<String>) -> (r: Command)
    ensures
        r@ == spec_parse_known(views(toks@)),
{
    let ghost tv = views(toks@);
    proof {
        assert(forall|m: int| 0 <= m < toks@.len() ==> tv[m] == (#[trigger] toks@[m])@);
    }
    let n = toks.len();
    if n == 0 {
        return Command::Invalid;
    }
    let t0 = toks[0].as_str();
    if str_eq(t0, "init") {
        if n == 1 {
            Command::Init
        } else {
            Command::Invalid
        }
    } else if is_create_tok(t0) {
        if n >= 2 && is_project_sub_tok(toks[1].as_str()) {
            if n == 3 {
                Command::CreateProject { name: toks[2].clone(), switch: false }
            } else if n == 4 && is_switch_flag_tok(toks[3].as_str()) {
                Command::CreateProject { name: toks[2].clone(), switch: true }
            } else {
                Command::Invalid
            }
        } else if n >= 2 && is_note_sub_tok(toks[1].as_str()) {
            if n >= 3 {
                let d = join_args(toks, 2);
                proof {
                    assert(toks@.map_values(|a: String| a@) =~= tv);
                }
                Command::CreateNote { description: d }
            } else {
                Command::Invalid
            }
        } else if n >= 2 && is_task_sub_tok(toks[1].as_str()) {
            if n >= 3 {
                let d = join_args(toks, 2);
                proof {
                    assert(toks@.map_values(|a: String| a@) =~= tv);
                }
                Command::CreateTask { description: d }
            } else {
                Command::Invalid
            }
        } else {
            Command::Invalid
        }
    } else if is_list_tok(t0) {
        if n == 1 {
            Command::Summary
        } else if is_projects_sub_tok(toks[1].as_str()) {
            if n == 2 {
                Command::ListProjects
            } else {
                Command::Invalid
            }
        } else if is_tasks_sub_tok(toks[1].as_str()) {
            if n == 2 {
                Command::ListTasks { all: false }
            } else if n == 3 && is_all_tok(toks[2].as_str()) {
                Command::ListTasks { all: true }
            } else {
                Command::Invalid
            }
        } else if is_notes_sub_tok(toks[1].as_str()) {
            if n == 2 {
                Command::ListNotes
            } else {
                Command::Invalid
            }
        } else {
            Command::Invalid
        }
    } else if is_table_tok(t0) {
        if n >= 2 && is_projects_sub_tok(toks[1].as_str()) {
            if n == 2 {
                Command::TableProjects
            } else {
                Command::Invalid
            }
        } else if n >= 2 && is_tasks_sub_tok(toks[1].as_str()) {
            if n == 2 {
                Command::TableTasks { project: None }
            } else if n == 3 && is_project_filter_tok(toks[2].as_str()) {
                Command::TableTasks { project: None }
            } else if n == 4 && is_project_filter_tok(toks[2].as_str()) {
                Command::TableTasks { project: Some(toks[3].clone()) }
            } else {
                Command::Invalid
            }
        } else if n >= 2 && is_notes_sub_tok(toks[1].as_str()) {
            if n == 2 {
                Command::TableNotes { project: None }
            } else if n == 4 && is_project_flag_tok(toks[2].as_str()) {
                Command::TableNotes { project: Some(toks[3].clone()) }
            } else {
                Command::Invalid
            }
        } else {
            Command::Invalid
        }
    } else if is_switch_tok(t0) {
        if n == 2 {
            Command::Switch { name: toks[1].clone() }
        } else {
            Command::Invalid
        }
    } else if is_edit_tok(t0) {
        if n == 3 && is_note_sub_tok(toks[1].as_str()) {
            Command::EditNote { identifier: toks[2].clone() }
        } else {
            Command::Invalid
        }
    } else {
        Command::Invalid
    }
}

/// One resolution round, as `spec_resolve_step` describes.
pub fn resolve_step(args: &Vec<String>) -> (r: (Command, Vec<String>))
    ensures
        ({
            let (c, rest) = spec_resolve_step(views(args@));
            r.0@ == c && views(r.1@) == rest
        }),
{
    let ghost av = views(args@);
    proof {
        assert(forall|m: int| 0 <= m < args@.len() ==> av[m] == (#[trigger] args@[m])@);
    }
    if args.len() < 2 {
        let empty: Vec<String> = Vec::new();
        proof {
            assert(views(empty@) =~= Seq::<Seq<char>>::empty());
        }
        return (Command::Invalid, empty);
    }
    let t = args[1].as_str();
    if is_project_tok(t) {
        if args.len() < 3 {
            let empty: Vec<String> = Vec::new();
            proof {
                assert(views(empty@) =~= Seq::<Seq<char>>::empty());
            }
            (Command::Invalid, empty)
        } else {
            let identifier = args[2].clone();
            let mut rest: Vec<String> = Vec::new();
            let mut k: usize = 3;
            while k < args.len()
                invariant
                    3 <= k <= args@.len(),
                    av == views(args@),
                    av.len() == args@.len(),
                    rest@.len() == k - 3,
                    forall|m: int| 0 <= m < rest@.len() ==> (#[trigger] rest@[m])@ == args@[m
                        + 3]@,
                decreases args@.len() - k,
            {
                rest.push(args[k].clone());
                k += 1;
            }
            proof {
                assert forall|m: int|
                    0 <= m < views(rest@).len() implies views(rest@)[m] == av.subrange(
                    3,
                    args@.len() as int,
                )[m] by {
                    assert(views(rest@)[m] == rest@[m]@);
                    assert(views(args@)[m + 3] == args@[m + 3]@);
                }
                assert(views(rest@) =~= av.subrange(3, args@.len() as int));
                if args@.len() == 3 {
                    assert(av.subrange(3, 3) =~= Seq::<Seq<char>>::empty());
                }
            }
            (Command::ProjectRef { identifier }, rest)
        }
    } else if is_known_tok(t) {
        let mut toks: Vec<String> = Vec::new();
        let mut k: usize = 1;
        while k < args.len()
            invariant
                1 <= k <= args@.len(),
                av == views(args@),
                av.len() == args@.len(),
                toks@.len() == k - 1,
                forall|m: int| 0 <= m < toks@.len() ==> (#[trigger] toks@[m])@ == args@[m + 1]@,
            decreases args@.len() - k,
        {
            toks.push(args[k].clone());
            k += 1;
        }
        proof {
            assert forall|m: int|
                0 <= m < views(toks@).len() implies views(toks@)[m] == av.subrange(
                1,
                args@.len() as int,
            )[m] by {
                assert(views(toks@)[m] == toks@[m]@);
                assert(views(args@)[m + 1] == args@[m + 1]@);
            }
            assert(views(toks@) =~= av.subrange(1, args@.len() as int));
        }
        let c = parse_known(&toks);
        let empty: Vec<String> = Vec::new();
        proof {
            assert(views(empty@) =~= Seq::<Seq<char>>::empty());
        }
        (c, empty)
    } else {
        match expand_chain_exec(t) {
            None => {
                let empty: Vec<String> = Vec::new();
                proof {
                    assert(views(empty@) =~= Seq::<Seq<char>>::empty());
                }
                (Command::Invalid, empty)
            },
            Some(path) => {
                let ghost base = views(path@);
                let ghost blen = path@.len();
                let mut toks = path;
                let mut k: usize = 2;
                proof {
                    assert(forall|m: int|
                        0 <= m < blen ==> base[m] == (#[trigger] toks@[m])@);
                }
                while k < args.len()
                    invariant
                        2 <= k <= args@.len(),
                        av == views(args@),
                        av.len() == args@.len(),
                        blen == base.len(),
                        toks@.len() == blen + k - 2,
                        forall|m: int| 0 <= m < blen ==> base[m] == (#[trigger] toks@[m])@,
                        forall|m: int|
                            blen <= m < toks@.len() ==> (#[trigger] toks@[m])@ == args@[m - blen
                                + 2]@,
                    decreases args@.len() - k,
                {
                    toks.push(args[k].clone());
                    k += 1;
                }
                proof {
                    assert forall|m: int|
                        0 <= m < views(toks@).len() implies views(toks@)[m] == (base + av.subrange(
                        2,
                        args@.len() as int,
                    ))[m] by {
                        assert(views(toks@)[m] == toks@[m]@);
                        if m >= blen {
                            assert(views(args@)[m - blen + 2] == args@[m - blen + 2]@);
                        }
                    }
                    assert(views(toks@) =~= base + av.subrange(2, args@.len() as int));
                }
                let c = parse_known(&toks);
                let empty: Vec<String> = Vec::new();
                proof {
                    assert(views(empty@) =~= Seq::<Seq<char>>::empty());
                }
                (c, empty)
            },
        }
    }
}

/// Full resolution, as `spec_resolve_all` describes: an explicit loop over
/// the queue of pending argument slices.
#[verifier::rlimit(100)]
pub fn resolve_commands(args: Vec<String>) -> (r: Vec<Command>)
    ensures
        r@.map_values(|c: Command| c@) == spec_resolve_all(views(args@)),
{
    let mut cmds: Vec<Command> = Vec::new();
    let ghost mut done: Seq<CommandView> = Seq::empty();
    let mut pending = args;
    loop
        invariant
            done.len() == cmds@.len(),
            forall|m: int| 0 <= m < done.len() ==> (#[trigger] cmds@[m])@ == done[m],
            spec_resolve_all(views(args@)) == done + spec_resolve_all(views(pending@)),
        decreases pending@.len(),
    {
        let plen = pending.len();
        let (c, rest) = resolve_step(&pending);
        let ghost d0 = done;
        let ghost cv = c@;
        proof {
            done = done.push(cv);
        }
        cmds.push(c);
        if rest.len() == 0 || plen < 4 {
            proof {
                assert(spec_resolve_all(views(pending@)) =~= seq![cv]);
                assert(d0 + seq![cv] =~= d0.push(cv));
                assert(spec_resolve_all(views(args@)) =~= done);
                assert forall|m: int|
                    0 <= m < done.len() implies cmds@.map_values(|x: Command| x@)[m] == done[m] by {
                    assert(cmds@[m]@ == done[m]);
                }
                assert(cmds@.map_values(|x: Command| x@) =~= done);
            }
            return cmds;
        }
        let mut np: Vec<String> = Vec::new();
        np.push(pending[0].clone());
        let mut k: usize = 0;
        while k < rest.len()
            invariant
                k <= rest@.len(),
                np@.len() == k + 1,
                np@[0]@ == pending@[0]@,
                forall|m: int| 1 <= m < np@.len() ==> (#[trigger] np@[m])@ == rest@[m - 1]@,
            decreases rest@.len() - k,
        {
            np.push(rest[k].clone());
            k += 1;
        }
        proof {
            assert forall|m: int|
                0 <= m < views(np@).len() implies views(np@)[m] == (seq![views(pending@)[0]]
                + views(rest@))[m] by {
                assert(views(np@)[m] == np@[m]@);
                assert(views(pending@)[0] == pending@[0]@);
                if m >= 1 {
                    assert(np@[m]@ == rest@[m - 1]@);
                    assert(views(rest@)[m - 1] == rest@[m - 1]@);
                }
            }
            assert(views(np@) =~= seq![views(pending@)[0]] + views(rest@));
            assert(views(rest@).len() == rest@.len());
            assert(views(pending@).len() == pending@.len());
            assert(spec_resolve_all(views(pending@)) == seq![cv] + spec_resolve_all(views(np@)));
            assert(d0 + (seq![cv] + spec_resolve_all(views(np@))) =~= done + spec_resolve_all(
                views(np@),
            ));
            assert(np@.len() < pending@.len());
        }
        pending = np;
    }
}

// --- Dispatch --------------------------------------------------------------
/// How one resolved command changes the state; read-only and invalid
/// commands change nothing.
pub open spec fn spec_apply(v: StateView, c: CommandView) -> StateView {
    match c {
        CommandView::CreateProject { name, switch } => create_project_spec(v, name, switch),
        CommandView::CreateTask { description } => create_task_spec(v, description),
        CommandView::CreateNote { description } => create_note_spec(v, description, Seq::empty()),
        CommandView::Switch { name } => switch_project_spec(v, name),
        _ => v,
    }
}

/// Whether a command's domain operation takes effect on a state: project
/// creation needs a fresh name, task and note creation a resolvable
/// current project, and a switch an existing name.
pub open spec fn spec_apply_acts(v: StateView, c: CommandView) -> bool {
    match c {
        CommandView::CreateProject { name, .. } => !v.has_project_named(name),
        CommandView::CreateTask { .. } | CommandView::CreateNote { .. } => match v.current_project {
            Some(cur) => find_name_idx(v.projects, cur) != -1,
            None => false,
        },
        CommandView::Switch { name } => v.has_project_named(name),
        _ => false,
    }
}

/// Applies a mutating command to the state; every other command leaves it
/// untouched. Reports whether the domain operation took effect.
pub fn apply_command(state: &mut TedoState, cmd: &Command) -> (acted: bool)
    requires
        old(state)@.wf(),
        old(state)@.projects.len() < u32::MAX,
        old(state)@.ids_have_room(),
    ensures
        final(state)@ == spec_apply(old(state)@, cmd@),
        final(state)@.wf(),
        acted == spec_apply_acts(old(state)@, cmd@),
{
    match cmd {
        Command::CreateProject { name, switch } => create_project(state, name.as_str(), *switch),
        Command::CreateTask { description } => create_task(state, description.as_str()),
        Command::CreateNote { description } => {
            let r = create_note(state, description.as_str(), "");
            proof {
                reveal_strlit("");
                assert(""@ =~= Seq::<char>::empty());
            }
            r
        },
        Command::Switch { name } => {
            let r = switch_project(state, name.as_str());
            proof {
                crate::projects::lemma_switch_correctness(old(state)@, name@);
            }
            r
        },
        _ => false,
    }
}

} // verus!
