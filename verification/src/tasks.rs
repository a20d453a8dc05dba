//! Task creation against the current project, and the law that no task is
//! ever created without one.
use vstd::prelude::*;
use crate::model::{ProjectView, StateView, Task, TaskView, TedoState};
use crate::model::{find_name_idx, total_task_count};
use crate::projects::find_named;

verus! {

/// How `create_task` changes the state: with a resolvable current project
/// the task is appended there under the next sequential id; otherwise
/// nothing changes.
pub open spec fn create_task_spec(v: StateView, description: Seq<char>) -> StateView {
    match v.current_project {
        None => v,
        Some(cur) => {
            let i = find_name_idx(v.projects, cur);
            if i == -1 {
                v
            } else {
                let p = v.projects[i];
                let p2 = ProjectView {
                    tasks: p.tasks.push(
                        TaskView {
                            id: (p.tasks.len() + 1) as u32,
                            description: description,
                        },
                    ),
                    ..p
                };
                StateView { current_project: v.current_project, projects: v.projects.update(i, p2) }
            }
        },
    }
}

/// Appends a task with the next sequential id to the current project;
/// without a resolvable current project this is a no-op.
pub fn create_task(state: &mut TedoState, description: &str) -> (created: bool)
    requires
        old(state)@.wf(),
        old(state)@.ids_have_room(),
    ensures
        final(state)@ == create_task_spec(old(state)@, description@),
        final(state)@.wf(),
        created == match old(state)@.current_project {
            Some(cur) => find_name_idx(old(state)@.projects, cur) != -1,
            None => false,
        },
        total_task_count(final(state)@.projects) == total_task_count(old(state)@.projects) + (
        if created {
            1nat
        } else {
            0nat
        }),
{
    let cur = match &state.current_project {
        Some(n) => n.clone(),
        None => {
            return false;
        },
    };
    match find_named(state, cur.as_str()) {
        None => {
            false
        },
        Some(i) => {
            let ghost ov = state@;
            let ghost iv = i as int;
            let next_id = state.projects[i].tasks.len() as u32 + 1;
            proof {
                assert(state@.projects[iv] == state.projects@[iv]@);
                assert(ov.projects[iv].tasks.len() < u32::MAX);
            }
            state.projects[i].tasks.push(Task { id: next_id, description: description.to_owned() });
            proof {
                let target = create_task_spec(ov, description@);
                let p2 = target.projects[iv];
                assert(state.projects@[iv]@.tasks =~= p2.tasks);
                assert(state.projects@[iv]@ == p2);
                assert forall|k: int|
                    0 <= k < state@.projects.len() implies state@.projects[k] == target.projects[k]
                by {
                    assert(state@.projects[k] == state.projects@[k]@);
                    if k != iv {
                        assert(state.projects@[k]@ == ov.projects[k]);
                    }
                }
                assert(state@.projects =~= target.projects);
                assert(state@ == target);
                lemma_create_task_wf(ov, description@);
                lemma_total_task_count_update(ov.projects, iv, p2);
                assert(ov.projects.update(iv, p2) =~= target.projects);
            }
            true
        },
    }
}

/// Creating a task keeps the state well formed: the new task id extends
/// the dense per-project sequence and nothing else moves.
pub proof fn lemma_create_task_wf(v: StateView, description: Seq<char>)
    requires
        v.wf(),
        v.ids_have_room(),
    ensures
        create_task_spec(v, description).wf(),
{
    let w = create_task_spec(v, description);
    if v.current_project is Some {
        let cur = v.current_project->0;
        let i = find_name_idx(v.projects, cur);
        if i != -1 {
            crate::model::lemma_find_name_idx(v.projects, cur);
            let p = v.projects[i];
            let p2 = w.projects[i];
            assert(forall|k: int|
                0 <= k < w.projects.len() && k != i ==> w.projects[k] == v.projects[k]);
            assert(forall|k: int|
                0 <= k < p.tasks.len() ==> p2.tasks[k] == (#[trigger] p.tasks[k]));
            assert(p2.wf());
        }
    }
}

/// Replacing one project changes the total task count by exactly the
/// difference at that position.
pub proof fn lemma_total_task_count_update(s: Seq<ProjectView>, i: int, p: ProjectView)
    requires
        0 <= i < s.len(),
    ensures
        total_task_count(s.update(i, p)) + s[i].tasks.len() == total_task_count(s) + p.tasks.len(),
    decreases s.len(),
{
    if i == s.len() - 1 {
        assert(s.update(i, p).drop_last() =~= s.drop_last());
        assert(s.update(i, p).last() == p);
    } else {
        lemma_total_task_count_update(s.drop_last(), i, p);
        assert(s.update(i, p).drop_last() =~= s.drop_last().update(i, p));
        assert(s.update(i, p).last() == s.last());
    }
}

/// No-orphan law: without a resolvable current project, task creation
/// leaves the state — and with it the total task count across all
/// projects — exactly as it was.
pub proof fn lemma_no_orphan_task(v: StateView, description: Seq<char>)
    requires
        match v.current_project {
            Some(cur) => find_name_idx(v.projects, cur) == -1,
            None => true,
        },
    ensures
        create_task_spec(v, description) == v,
        total_task_count(create_task_spec(v, description).projects) == total_task_count(v.projects),
{
}

} // verus!
