//! Project operations: the identifier resolver, project creation and the
//! current-project switch, with the laws they obey.
use vstd::prelude::*;
use vstd::string::StringExecFns;
use crate::model::{Project, ProjectView, StateView, Task, TedoState};
use crate::model::{find_id_idx, find_name_idx, find_prefix_idx, lemma_find_id_idx,
    lemma_find_name_idx, lemma_find_prefix_idx};
use crate::text::{parse_u32, parse_u32_str, prefix_of, str_eq, str_starts_with};

verus! {

/// What the identifier resolver returns: a numeric identifier selects the
/// first project with that id, any other string selects the first project
/// whose name starts with it, in stored order.
pub open spec fn spec_find(v: StateView, ident: Seq<char>) -> Option<ProjectView> {
    match parse_u32(ident) {
        Some(id) => {
            let i = find_id_idx(v.projects, id);
            if i == -1 {
                None
            } else {
                Some(v.projects[i])
            }
        },
        None => {
            let i = find_prefix_idx(v.projects, ident);
            if i == -1 {
                None
            } else {
                Some(v.projects[i])
            }
        },
    }
}

/// The current project: the current name, when set, resolved through the
/// same lookup as any other identifier; none when unset or stale.
pub open spec fn spec_current_project(v: StateView) -> Option<ProjectView> {
    match v.current_project {
        None => None,
        Some(name) => spec_find(v, name),
    }
}

/// How `create_project` changes the state: a duplicate name leaves it
/// untouched; otherwise a fresh project with the next sequential id is
/// appended, and with `switch` the current project becomes the new name.
pub open spec fn create_project_spec(v: StateView, name: Seq<char>, switch: bool) -> StateView {
    if v.has_project_named(name) {
        v
    } else {
        let p = ProjectView {
            id: (v.projects.len() + 1) as u32,
            name: name,
            tasks: Seq::empty(),
            notes: Seq::empty(),
        };
        StateView {
            current_project: if switch {
                Some(name)
            } else {
                v.current_project
            },
            projects: v.projects.push(p),
        }
    }
}

/// How `switch_project` changes the state: the current project becomes
/// `name` exactly when a project with that name exists.
pub open spec fn switch_project_spec(v: StateView, name: Seq<char>) -> StateView {
    if v.has_project_named(name) {
        StateView { current_project: Some(name), projects: v.projects }
    } else {
        v
    }
}

/// Whether some project carries exactly this name.
pub fn contains_project_named(state: &TedoState, name: &str) -> (r: bool)
    ensures
        r == state@.has_project_named(name@),
{
    let ghost v = state@.projects;
    let mut i: usize = 0;
    while i < state.projects.len()
        invariant
            i <= state.projects@.len(),
            v == state@.projects,
            v.len() == state.projects@.len(),
            forall|j: int| 0 <= j < i ==> (#[trigger] v[j]).name != name@,
        decreases state.projects@.len() - i,
    {
        if str_eq(state.projects[i].name.as_str(), name) {
            proof {
                assert(v[i as int].name == name@);
            }
            return true;
        }
        i += 1;
    }
    false
}

/// Index of the first project with exactly this name, when there is one.
pub fn find_named(state: &TedoState, name: &str) -> (r: Option<usize>)
    ensures
        match r {
            Some(i) => find_name_idx(state@.projects, name@) == i as int && i < state.projects@.len(),
            None => find_name_idx(state@.projects, name@) == -1,
        },
{
    let ghost v = state@.projects;
    let mut i: usize = 0;
    while i < state.projects.len()
        invariant
            i <= state.projects@.len(),
            v == state@.projects,
            v.len() == state.projects@.len(),
            forall|j: int| 0 <= j < i ==> (#[trigger] v[j]).name != name@,
        decreases state.projects@.len() - i,
    {
        if str_eq(state.projects[i].name.as_str(), name) {
            proof {
                assert(v[i as int].name == name@);
                lemma_find_name_idx(v, name@);
            }
            return Some(i);
        }
        i += 1;
    }
    proof {
        lemma_find_name_idx(v, name@);
    }
    None
}

impl Project {
    /// Resolves an identifier: a numeric string by id, any other by name
    /// prefix, first match in stored order either way.
    pub fn find(state: TedoState, identifier: &str) -> (r: Option<Project>)
        ensures
            match r {
                Some(p) => spec_find(state@, identifier@) == Some(p@),
                None => spec_find(state@, identifier@) is None,
            },
    {
        match parse_u32_str(identifier) {
            Some(id) => Project::find_by_id(state, id),
            None => Project::find_by_name(state, identifier.to_owned()),
        }
    }

    /// The first project with exactly this id, in stored order.
    pub fn find_by_id(state: TedoState, id: u32) -> (r: Option<Project>)
        ensures
            match r {
                Some(p) => find_id_idx(state@.projects, id) >= 0 && p@ == state@.projects[
                    find_id_idx(state@.projects, id)],
                None => find_id_idx(state@.projects, id) == -1,
            },
    {
        let ghost v = state@.projects;
        let mut i: usize = 0;
        while i < state.projects.len()
            invariant
                i <= state.projects@.len(),
                v == state@.projects,
                v.len() == state.projects@.len(),
                forall|j: int| 0 <= j < i ==> (#[trigger] v[j]).id != id,
            decreases state.projects@.len() - i,
        {
            if state.projects[i].id == id {
                proof {
                    assert(v[i as int].id == id);
                    lemma_find_id_idx(v, id);
                    assert(find_id_idx(v, id) == i as int);
                }
                let p = state.projects[i].duplicate();
                proof {
                    assert(p@ == state@.projects[i as int]);
                }
                return Some(p);
            }
            i += 1;
        }
        proof {
            lemma_find_id_idx(v, id);
        }
        None
    }

    /// The first project whose name starts with `name_start`, in stored
    /// order.
    pub fn find_by_name(state: TedoState, name_start: String) -> (r: Option<Project>)
        ensures
            match r {
                Some(p) => find_prefix_idx(state@.projects, name_start@) >= 0 && p@ == state@
                    .projects[find_prefix_idx(state@.projects, name_start@)],
                None => find_prefix_idx(state@.projects, name_start@) == -1,
            },
    {
        let ghost v = state@.projects;
        let mut i: usize = 0;
        while i < state.projects.len()
            invariant
                i <= state.projects@.len(),
                v == state@.projects,
                v.len() == state.projects@.len(),
                forall|j: int| 0 <= j < i ==> !prefix_of(name_start@, (#[trigger] v[j]).name),
            decreases state.projects@.len() - i,
        {
            if str_starts_with(state.projects[i].name.as_str(), name_start.as_str()) {
                proof {
                    assert(prefix_of(name_start@, v[i as int].name));
                    lemma_find_prefix_idx(v, name_start@);
                    assert(find_prefix_idx(v, name_start@) == i as int);
                }
                let p = state.projects[i].duplicate();
                proof {
                    assert(p@ == state@.projects[i as int]);
                }
                return Some(p);
            }
            i += 1;
        }
        proof {
            lemma_find_prefix_idx(v, name_start@);
        }
        None
    }
}

/// Resolves the current-project pointer, tolerating a stale or missing
/// reference by returning none.
pub fn current_project(state: TedoState) -> (r: Option<Project>)
    ensures
        match r {
            Some(p) => spec_current_project(state@) == Some(p@),
            None => spec_current_project(state@) is None,
        },
{
    let name = match &state.current_project {
        Some(n) => n.clone(),
        None => {
            return None;
        },
    };
    Project::find(state, name.as_str())
}

/// Appends a project with the next sequential id, unless the name is taken;
/// with `switch`, also makes it current.
pub fn create_project(state: &mut TedoState, name: &str, switch: bool) -> (created: bool)
    requires
        old(state)@.wf(),
        old(state)@.projects.len() < u32::MAX,
    ensures
        final(state)@ == create_project_spec(old(state)@, name@, switch),
        created == !old(state)@.has_project_named(name@),
        final(state)@.wf(),
{
    proof {
        lemma_create_project_wf(old(state)@, name@, switch);
    }
    if contains_project_named(state, name) {
        return false;
    }
    let id = state.projects.len() as u32 + 1;
    let new_project = Project { id, name: name.to_owned(), tasks: Vec::new(), notes: Vec::new() };
    proof {
        assert(new_project@.tasks =~= Seq::<crate::model::TaskView>::empty());
        assert(new_project@.notes =~= Seq::<crate::model::NoteView>::empty());
    }
    state.projects.push(new_project);
    if switch {
        state.current_project = Some(name.to_owned());
    }
    proof {
        assert(state@.projects =~= create_project_spec(old(state)@, name@, switch).projects);
    }
    true
}

/// Makes `name` the current project exactly when such a project exists.
pub fn set_current_project(state: &mut TedoState, name: &str) -> (switched: bool)
    ensures
        final(state)@ == switch_project_spec(old(state)@, name@),
        switched == old(state)@.has_project_named(name@),
{
    if contains_project_named(state, name) {
        state.current_project = Some(name.to_owned());
        true
    } else {
        false
    }
}

/// Switches the current project to `name` when it exists; otherwise the
/// state is left exactly as it was.
pub fn switch_project(state: &mut TedoState, name: &str) -> (switched: bool)
    ensures
        final(state)@ == switch_project_spec(old(state)@, name@),
        switched == old(state)@.has_project_named(name@),
{
    set_current_project(state, name)
}

/// Uniqueness law: creating a project keeps the state well formed — in
/// particular no two projects ever share a name — and a duplicate-name
/// creation leaves the project list exactly as it was.
pub proof fn lemma_create_project_wf(v: StateView, name: Seq<char>, switch: bool)
    requires
        v.wf(),
        v.projects.len() < u32::MAX,
    ensures
        create_project_spec(v, name, switch).wf(),
        forall|i: int, j: int|
            0 <= i < j < create_project_spec(v, name, switch).projects.len()
                ==> create_project_spec(v, name, switch).projects[i].name != create_project_spec(
                v,
                name,
                switch,
            ).projects[j].name,
        v.has_project_named(name) ==> create_project_spec(v, name, switch) == v,
        !v.has_project_named(name) ==> create_project_spec(v, name, switch).projects.len()
            == v.projects.len() + 1,
{
    let w = create_project_spec(v, name, switch);
    if !v.has_project_named(name) {
        assert(forall|i: int|
            0 <= i < v.projects.len() ==> (#[trigger] w.projects[i]) == v.projects[i]);
        assert(w.projects.last().wf());
        assert(forall|i: int, j: int|
            0 <= i < j < w.projects.len() ==> w.projects[i].name != w.projects[j].name) by {
            assert(forall|i: int|
                0 <= i < v.projects.len() ==> (#[trigger] v.projects[i]).name != name);
        }
    }
}

/// Sequential-id law: in a well-formed state the project ids are exactly
/// 1..N in creation order, and each project's task and note ids are exactly
/// 1..M in creation order, independent of the other projects.
pub proof fn lemma_sequential_ids(v: StateView)
    requires
        v.wf(),
    ensures
        forall|i: int| 0 <= i < v.projects.len() ==> (#[trigger] v.projects[i]).id == i + 1,
        forall|i: int, k: int|
            0 <= i < v.projects.len() && 0 <= k < v.projects[i].tasks.len() ==> (
            #[trigger] v.projects[i].tasks[k]).id == k + 1,
        forall|i: int, k: int|
            0 <= i < v.projects.len() && 0 <= k < v.projects[i].notes.len() ==> (
            #[trigger] v.projects[i].notes[k]).id == k + 1,
{
}

/// Switch-correctness law: switching sets the current project to `name`
/// exactly when a project named `name` exists, and otherwise changes
/// nothing at all.
pub proof fn lemma_switch_correctness(v: StateView, name: Seq<char>)
    ensures
        v.has_project_named(name) ==> switch_project_spec(v, name) == (StateView {
            current_project: Some(name),
            projects: v.projects,
        }),
        !v.has_project_named(name) ==> switch_project_spec(v, name) == v,
        switch_project_spec(v, name).projects == v.projects,
        v.wf() ==> switch_project_spec(v, name).wf(),
{
}

/// Prefix-policy law: a non-numeric identifier resolves to the first
/// project, in stored order, whose name starts with it.
pub proof fn lemma_resolver_prefix_first(v: StateView, ident: Seq<char>, i: int)
    requires
        parse_u32(ident) is None,
        0 <= i < v.projects.len(),
        prefix_of(ident, v.projects[i].name),
        forall|j: int| 0 <= j < i ==> !prefix_of(ident, (#[trigger] v.projects[j]).name),
    ensures
        spec_find(v, ident) == Some(v.projects[i]),
{
    lemma_find_prefix_idx(v.projects, ident);
}

} // verus!
