//! The aggregate state model: projects owning ordered tasks and notes, and
//! the current-project pointer. Views map each executable type to its
//! mathematical shape, and well-formedness pins down the id and naming
//! invariants that every operation preserves.
use vstd::prelude::*;
use crate::text::prefix_of;

verus! {

/// One task of a project.
#[derive(Debug, PartialEq, Eq)]
pub struct Task {
    pub id: u32,
    pub description: String,
}

/// One note of a project, with an editable body.
#[derive(Debug, PartialEq, Eq)]
pub struct Note {
    pub id: u32,
    pub description: String,
    pub content: String,
}

/// A project with its ordered tasks and notes.
#[derive(Debug, PartialEq, Eq)]
pub struct Project {
    pub id: u32,
    pub name: String,
    pub tasks: Vec<Task>,
    pub notes: Vec<Note>,
}

/// The root aggregate: the current-project pointer and all projects.
#[derive(Debug, PartialEq, Eq)]
pub struct TedoState {
    pub current_project: Option<String>,
    pub projects: Vec<Project>,
}

/// Mathematical shape of a task.
pub struct TaskView {
    pub id: u32,
    pub description: Seq<char>,
}

/// Mathematical shape of a note.
pub struct NoteView {
    pub id: u32,
    pub description: Seq<char>,
    pub content: Seq<char>,
}

/// Mathematical shape of a project.
pub struct ProjectView {
    pub id: u32,
    pub name: Seq<char>,
    pub tasks: Seq<TaskView>,
    pub notes: Seq<NoteView>,
}

/// Mathematical shape of the whole state.
pub struct StateView {
    pub current_project: Option<Seq<char>>,
    pub projects: Seq<ProjectView>,
}

impl View for Task {
    type V = TaskView;

    open spec fn view(&self) -> TaskView {
        TaskView { id: self.id, description: self.description@ }
    }
}

impl View for Note {
    type V = NoteView;

    open spec fn view(&self) -> NoteView {
        NoteView { id: self.id, description: self.description@, content: self.content@ }
    }
}

impl View for Project {
    type V = ProjectView;

    open spec fn view(&self) -> ProjectView {
        ProjectView {
            id: self.id,
            name: self.name@,
            tasks: self.tasks@.map_values(|t: Task| t@),
            notes: self.notes@.map_values(|n: Note| n@),
        }
    }
}

impl View for TedoState {
    type V = StateView;

    open spec fn view(&self) -> StateView {
        StateView {
            current_project: match self.current_project {
                Some(ref n) => Some(n@),
                None => None,
            },
            projects: self.projects@.map_values(|p: Project| p@),
        }
    }
}

impl ProjectView {
    /// Task and note ids are the dense sequence 1, 2, ... in stored order.
    pub open spec fn wf(self) -> bool {
        &&& forall|k: int| 0 <= k < self.tasks.len() ==> (#[trigger] self.tasks[k]).id == k + 1
        &&& forall|k: int| 0 <= k < self.notes.len() ==> (#[trigger] self.notes[k]).id == k + 1
    }
}

impl StateView {
    /// Project ids are the dense sequence 1, 2, ... in creation order,
    /// project names are unique, and every project is itself well formed.
    /// The current-project name is allowed to be stale.
    pub open spec fn wf(self) -> bool {
        &&& forall|i: int| 0 <= i < self.projects.len() ==> (#[trigger] self.projects[i]).id == i
            + 1
        &&& forall|i: int, j: int|
            0 <= i < j < self.projects.len() ==> self.projects[i].name != self.projects[j].name
        &&& forall|i: int| 0 <= i < self.projects.len() ==> (#[trigger] self.projects[i]).wf()
    }

    /// Some project carries exactly this name.
    pub open spec fn has_project_named(self, name: Seq<char>) -> bool {
        exists|i: int| 0 <= i < self.projects.len() && (#[trigger] self.projects[i]).name == name
    }

    /// Machine limit: every project can still take one more task or note
    /// id without overflowing it.
    pub open spec fn ids_have_room(self) -> bool {
        forall|i: int|
            0 <= i < self.projects.len() ==> (#[trigger] self.projects[i]).tasks.len() < u32::MAX
                && self.projects[i].notes.len() < u32::MAX
    }
}

/// Index of the first project with this id, or -1.
pub open spec fn find_id_idx(s: Seq<ProjectView>, id: u32) -> int
    decreases s.len(),
{
    if s.len() == 0 {
        -1
    } else if s[0].id == id {
        0
    } else {
        let r = find_id_idx(s.drop_first(), id);
        if r == -1 {
            -1
        } else {
            r + 1
        }
    }
}

/// Index of the first project whose name starts with `p`, or -1.
pub open spec fn find_prefix_idx(s: Seq<ProjectView>, p: Seq<char>) -> int
    decreases s.len(),
{
    if s.len() == 0 {
        -1
    } else if prefix_of(p, s[0].name) {
        0
    } else {
        let r = find_prefix_idx(s.drop_first(), p);
        if r == -1 {
            -1
        } else {
            r + 1
        }
    }
}

/// Index of the first project with exactly this name, or -1.
pub open spec fn find_name_idx(s: Seq<ProjectView>, name: Seq<char>) -> int
    decreases s.len(),
{
    if s.len() == 0 {
        -1
    } else if s[0].name == name {
        0
    } else {
        let r = find_name_idx(s.drop_first(), name);
        if r == -1 {
            -1
        } else {
            r + 1
        }
    }
}

/// What `find_name_idx` returns: -1 and no project has the name, or the
/// first index carrying it.
pub proof fn lemma_find_name_idx(s: Seq<ProjectView>, name: Seq<char>)
    ensures
        find_name_idx(s, name) == -1 ==> forall|i: int|
            0 <= i < s.len() ==> (#[trigger] s[i]).name != name,
        find_name_idx(s, name) != -1 ==> {
            let r = find_name_idx(s, name);
            &&& 0 <= r < s.len()
            &&& s[r].name == name
            &&& forall|j: int| 0 <= j < r ==> (#[trigger] s[j]).name != name
        },
    decreases s.len(),
{
    if s.len() > 0 && s[0].name != name {
        lemma_find_name_idx(s.drop_first(), name);
        assert(forall|i: int| 1 <= i < s.len() ==> s[i] == s.drop_first()[i - 1]);
    }
}

/// What `find_id_idx` returns: -1 and no project has the id, or the first
/// index carrying it.
pub proof fn lemma_find_id_idx(s: Seq<ProjectView>, id: u32)
    ensures
        find_id_idx(s, id) == -1 ==> forall|i: int|
            0 <= i < s.len() ==> (#[trigger] s[i]).id != id,
        find_id_idx(s, id) != -1 ==> {
            let r = find_id_idx(s, id);
            &&& 0 <= r < s.len()
            &&& s[r].id == id
            &&& forall|j: int| 0 <= j < r ==> (#[trigger] s[j]).id != id
        },
    decreases s.len(),
{
    if s.len() > 0 && s[0].id != id {
        lemma_find_id_idx(s.drop_first(), id);
        assert(forall|i: int| 1 <= i < s.len() ==> s[i] == s.drop_first()[i - 1]);
    }
}

/// What `find_prefix_idx` returns: -1 and no project name starts with `p`,
/// or the first index whose name does.
pub proof fn lemma_find_prefix_idx(s: Seq<ProjectView>, p: Seq<char>)
    ensures
        find_prefix_idx(s, p) == -1 ==> forall|i: int|
            0 <= i < s.len() ==> !prefix_of(p, (#[trigger] s[i]).name),
        find_prefix_idx(s, p) != -1 ==> {
            let r = find_prefix_idx(s, p);
            &&& 0 <= r < s.len()
            &&& prefix_of(p, s[r].name)
            &&& forall|j: int| 0 <= j < r ==> !prefix_of(p, (#[trigger] s[j]).name)
        },
    decreases s.len(),
{
    if s.len() > 0 && !prefix_of(p, s[0].name) {
        lemma_find_prefix_idx(s.drop_first(), p);
        assert(forall|i: int| 1 <= i < s.len() ==> s[i] == s.drop_first()[i - 1]);
    }
}

impl Task {
    /// A copy whose view is the same.
    pub fn duplicate(&self) -> (r: Task)
        ensures
            r@ == self@,
    {
        Task { id: self.id, description: self.description.clone() }
    }
}

impl Note {
    /// A copy whose view is the same.
    pub fn duplicate(&self) -> (r: Note)
        ensures
            r@ == self@,
    {
        Note {
            id: self.id,
            description: self.description.clone(),
            content: self.content.clone(),
        }
    }
}

impl Project {
    /// A copy whose view is the same.
    pub fn duplicate(&self) -> (r: Project)
        ensures
            r@ == self@,
    {
        let mut tasks: Vec<Task> = Vec::new();
        let mut i: usize = 0;
        while i < self.tasks.len()
            invariant
                i <= self.tasks@.len(),
                tasks@.len() == i,
                forall|k: int| 0 <= k < i ==> (#[trigger] tasks@[k])@ == self.tasks@[k]@,
            decreases self.tasks@.len() - i,
        {
            tasks.push(self.tasks[i].duplicate());
            i += 1;
        }
        let mut notes: Vec<Note> = Vec::new();
        let mut j: usize = 0;
        while j < self.notes.len()
            invariant
                j <= self.notes@.len(),
                notes@.len() == j,
                forall|k: int| 0 <= k < j ==> (#[trigger] notes@[k])@ == self.notes@[k]@,
            decreases self.notes@.len() - j,
        {
            notes.push(self.notes[j].duplicate());
            j += 1;
        }
        let r = Project { id: self.id, name: self.name.clone(), tasks, notes };
        proof {
            assert forall|k: int| 0 <= k < r@.tasks.len() implies r@.tasks[k] == self@.tasks[k] by {
                assert(r@.tasks[k] == r.tasks@[k]@);
                assert(self@.tasks[k] == self.tasks@[k]@);
            }
            assert(r@.tasks =~= self@.tasks);
            assert forall|k: int| 0 <= k < r@.notes.len() implies r@.notes[k] == self@.notes[k] by {
                assert(r@.notes[k] == r.notes@[k]@);
                assert(self@.notes[k] == self.notes@[k]@);
            }
            assert(r@.notes =~= self@.notes);
        }
        r
    }
}

/// Total number of tasks across all projects.
pub open spec fn total_task_count(s: Seq<ProjectView>) -> nat
    decreases s.len(),
{
    if s.len() == 0 {
        0
    } else {
        total_task_count(s.drop_last()) + s.last().tasks.len()
    }
}

/// Total number of notes across all projects.
pub open spec fn total_note_count(s: Seq<ProjectView>) -> nat
    decreases s.len(),
{
    if s.len() == 0 {
        0
    } else {
        total_note_count(s.drop_last()) + s.last().notes.len()
    }
}

/// Decides well-formedness of a state, exactly as `StateView::wf` says.
pub fn state_wf(state: &TedoState) -> (r: bool)
    ensures
        r == state@.wf(),
{
    let ghost v = state@.projects;
    let n = state.projects.len();
    let mut i: usize = 0;
    while i < n
        invariant
            i <= n,
            v == state@.projects,
            n == state.projects@.len(),
            forall|a: int| 0 <= a < i ==> (#[trigger] v[a]).id == a + 1,
            forall|a: int, b: int| 0 <= a < b < i ==> v[a].name != v[b].name,
            forall|a: int| 0 <= a < i ==> (#[trigger] v[a]).wf(),
        decreases n - i,
    {
        let p = &state.projects[i];
        proof {
            assert(p@ == v[i as int]);
        }
        if i >= u32::MAX as usize || p.id != (i as u32) + 1 {
            proof {
                if i >= u32::MAX as usize {
                    assert(v[i as int].id != i + 1);
                }
            }
            return false;
        }
        let mut b: usize = 0;
        while b < i
            invariant
                b <= i,
                i < n,
                v == state@.projects,
                n == state.projects@.len(),
                p == state.projects@[i as int],
                forall|a: int| 0 <= a < b ==> v[a].name != (#[trigger] v[a], v[i as int].name).1,
            decreases i - b,
        {
            if crate::text::str_eq(state.projects[b].name.as_str(), p.name.as_str()) {
                proof {
                    assert(v[b as int].name == v[i as int].name);
                }
                return false;
            }
            b += 1;
        }
        let mut k: usize = 0;
        while k < p.tasks.len()
            invariant
                k <= p.tasks@.len(),
                i < n,
                v == state@.projects,
                n == state.projects@.len(),
                p == state.projects@[i as int],
                forall|a: int| 0 <= a < k ==> (#[trigger] p@.tasks[a]).id == a + 1,
            decreases p.tasks@.len() - k,
        {
            if k >= u32::MAX as usize || p.tasks[k].id != (k as u32) + 1 {
                proof {
                    assert(p@.tasks[k as int].id != k + 1);
                    assert(!v[i as int].wf());
                }
                return false;
            }
            k += 1;
        }
        let mut k2: usize = 0;
        while k2 < p.notes.len()
            invariant
                k2 <= p.notes@.len(),
                i < n,
                v == state@.projects,
                n == state.projects@.len(),
                p == state.projects@[i as int],
                forall|a: int| 0 <= a < k2 ==> (#[trigger] p@.notes[a]).id == a + 1,
            decreases p.notes@.len() - k2,
        {
            if k2 >= u32::MAX as usize || p.notes[k2].id != (k2 as u32) + 1 {
                proof {
                    assert(p@.notes[k2 as int].id != k2 + 1);
                    assert(!v[i as int].wf());
                }
                return false;
            }
            k2 += 1;
        }
        proof {
            assert(v[i as int].wf());
        }
        i += 1;
    }
    true
}

} // verus!
