//! Note creation and note-body editing against the current project, with
//! the law that no note is ever created without one.
use vstd::prelude::*;
use crate::model::{Note, NoteView, ProjectView, StateView, TedoState};
use crate::model::{find_name_idx, total_note_count};
use crate::projects::find_named;

verus! {

/// Index of the first note with this id, or -1.
pub open spec fn find_note_idx(s: Seq<NoteView>, id: u32) -> int
    decreases s.len(),
{
    if s.len() == 0 {
        -1
    } else if s[0].id == id {
        0
    } else {
        let r = find_note_idx(s.drop_first(), id);
        if r == -1 {
            -1
        } else {
            r + 1
        }
    }
}

/// What `find_note_idx` returns: -1 and no note has the id, or the first
/// index carrying it.
pub proof fn lemma_find_note_idx(s: Seq<NoteView>, id: u32)
    ensures
        find_note_idx(s, id) == -1 ==> forall|i: int|
            0 <= i < s.len() ==> (#[trigger] s[i]).id != id,
        find_note_idx(s, id) != -1 ==> {
            let r = find_note_idx(s, id);
            &&& 0 <= r < s.len()
            &&& s[r].id == id
            &&& forall|j: int| 0 <= j < r ==> (#[trigger] s[j]).id != id
        },
    decreases s.len(),
{
    if s.len() > 0 && s[0].id != id {
        lemma_find_note_idx(s.drop_first(), id);
        assert(forall|i: int| 1 <= i < s.len() ==> s[i] == s.drop_first()[i - 1]);
    }
}

/// How `create_note` changes the state: with a resolvable current project
/// the note is appended there under the next sequential id; otherwise
/// nothing changes.
pub open spec fn create_note_spec(v: StateView, description: Seq<char>, content: Seq<char>) -> StateView {
    match v.current_project {
        None => v,
        Some(cur) => {
            let i = find_name_idx(v.projects, cur);
            if i == -1 {
                v
            } else {
                let p = v.projects[i];
                let p2 = ProjectView {
                    notes: p.notes.push(
                        NoteView {
                            id: (p.notes.len() + 1) as u32,
                            description: description,
                            content: content,
                        },
                    ),
                    ..p
                };
                StateView { current_project: v.current_project, projects: v.projects.update(i, p2) }
            }
        },
    }
}

/// Appends a note with the next sequential id to the current project;
/// without a resolvable current project this is a no-op.
pub fn create_note(state: &mut TedoState, description: &str, content: &str) -> (created: bool)
    requires
        old(state)@.wf(),
        old(state)@.ids_have_room(),
    ensures
        final(state)@ == create_note_spec(old(state)@, description@, content@),
        final(state)@.wf(),
        created == match old(state)@.current_project {
            Some(cur) => find_name_idx(old(state)@.projects, cur) != -1,
            None => false,
        },
        total_note_count(final(state)@.projects) == total_note_count(old(state)@.projects) + (
        if created {
            1nat
        } else {
            0nat
        }),
{
    let cur = match &state.current_project {
        Some(n) => n.clone(),
        None => {
            return false;
        },
    };
    match find_named(state, cur.as_str()) {
        None => {
            false
        },
        Some(i) => {
            let ghost ov = state@;
            let ghost iv = i as int;
            let next_id = state.projects[i].notes.len() as u32 + 1;
            proof {
                assert(state@.projects[iv] == state.projects@[iv]@);
                assert(ov.projects[iv].notes.len() < u32::MAX);
            }
            state.projects[i].notes.push(
                Note { id: next_id, description: description.to_owned(), content: content.to_owned() },
            );
            proof {
                let target = create_note_spec(ov, description@, content@);
                let p2 = target.projects[iv];
                assert(state.projects@[iv]@.notes =~= p2.notes);
                assert(state.projects@[iv]@ == p2);
                assert forall|k: int|
                    0 <= k < state@.projects.len() implies state@.projects[k] == target.projects[k]
                by {
                    assert(state@.projects[k] == state.projects@[k]@);
                    if k != iv {
                        assert(state.projects@[k]@ == ov.projects[k]);
                    }
                }
                assert(state@.projects =~= target.projects);
                assert(state@ == target);
                lemma_create_note_wf(ov, description@, content@);
                lemma_total_note_count_update(ov.projects, iv, p2);
                assert(ov.projects.update(iv, p2) =~= target.projects);
            }
            true
        },
    }
}

/// The note with this id in the current project, when both exist.
pub open spec fn spec_find_note(v: StateView, id: u32) -> Option<NoteView> {
    match v.current_project {
        None => None,
        Some(cur) => {
            let i = find_name_idx(v.projects, cur);
            if i == -1 {
                None
            } else {
                let k = find_note_idx(v.projects[i].notes, id);
                if k == -1 {
                    None
                } else {
                    Some(v.projects[i].notes[k])
                }
            }
        },
    }
}

/// The body of the note with this id in the current project, when both
/// exist: what an editing session starts from.
pub fn find_note_content(state: &TedoState, id: u32) -> (r: Option<String>)
    ensures
        match r {
            Some(c) => spec_find_note(state@, id) matches Some(n) && n.content == c@,
            None => spec_find_note(state@, id) is None,
        },
{
    let cur = match &state.current_project {
        Some(n) => n.clone(),
        None => {
            return None;
        },
    };
    match find_named(state, cur.as_str()) {
        None => None,
        Some(i) => {
            let ghost notes = state@.projects[i as int].notes;
            proof {
                assert(state@.projects[i as int] == state.projects@[i as int]@);
            }
            let p = &state.projects[i];
            let mut k: usize = 0;
            while k < p.notes.len()
                invariant
                    k <= p.notes@.len(),
                    state@.current_project == Some(cur@),
                    find_name_idx(state@.projects, cur@) == i as int,
                    0 <= i < state.projects@.len(),
                    notes == state@.projects[i as int].notes,
                    notes.len() == p.notes@.len(),
                    forall|m: int| 0 <= m < notes.len() ==> notes[m] == (#[trigger] p.notes@[m])@,
                    forall|m: int| 0 <= m < k ==> (#[trigger] notes[m]).id != id,
                decreases p.notes@.len() - k,
            {
                if p.notes[k].id == id {
                    proof {
                        assert(notes[k as int].id == id);
                        lemma_find_note_idx(notes, id);
                        assert(find_note_idx(notes, id) == k as int);
                    }
                    let c = p.notes[k].content.clone();
                    proof {
                        assert(state@.current_project == Some(cur@));
                        assert(find_name_idx(state@.projects, cur@) == i as int);
                        assert(spec_find_note(state@, id) == Some(notes[k as int]));
                        assert(notes[k as int] == p.notes@[k as int]@);
                        assert(c@ == notes[k as int].content);
                    }
                    return Some(c);
                }
                k += 1;
            }
            proof {
                lemma_find_note_idx(notes, id);
            }
            None
        },
    }
}

/// How `set_note_content` changes the state: the body of the current
/// project's note with this id is replaced; anything else stays put.
pub open spec fn set_note_content_spec(v: StateView, id: u32, content: Seq<char>) -> StateView {
    match v.current_project {
        None => v,
        Some(cur) => {
            let i = find_name_idx(v.projects, cur);
            if i == -1 {
                v
            } else {
                let p = v.projects[i];
                let k = find_note_idx(p.notes, id);
                if k == -1 {
                    v
                } else {
                    let n2 = NoteView { content: content, ..p.notes[k] };
                    let p2 = ProjectView { notes: p.notes.update(k, n2), ..p };
                    StateView {
                        current_project: v.current_project,
                        projects: v.projects.update(i, p2),
                    }
                }
            }
        },
    }
}

/// Replaces the body of the note with this id in the current project;
/// when there is no such note, nothing changes.
pub fn set_note_content(state: &mut TedoState, id: u32, content: &str) -> (changed: bool)
    ensures
        final(state)@ == set_note_content_spec(old(state)@, id, content@),
        changed == (spec_find_note(old(state)@, id) is Some),
{
    let cur = match &state.current_project {
        Some(n) => n.clone(),
        None => {
            return false;
        },
    };
    match find_named(state, cur.as_str()) {
        None => {
            false
        },
        Some(i) => {
            let ghost ov = state@;
            let ghost iv = i as int;
            let ghost notes = ov.projects[iv].notes;
            proof {
                assert(ov.projects[iv] == state.projects@[iv]@);
            }
            let mut k: usize = 0;
            let nlen = state.projects[i].notes.len();
            while k < nlen
                invariant
                    k <= nlen,
                    iv == i,
                    0 <= iv < state.projects@.len(),
                    ov == state@,
                    ov == old(state)@,
                    ov.current_project == Some(cur@),
                    find_name_idx(ov.projects, cur@) == iv,
                    nlen == state.projects@[iv]@.notes.len(),
                    notes == ov.projects[iv].notes,
                    ov.projects[iv] == state.projects@[iv]@,
                    forall|m: int| 0 <= m < k ==> (#[trigger] notes[m]).id != id,
                decreases nlen - k,
            {
                if state.projects[i].notes[k].id == id {
                    proof {
                        assert(notes[k as int].id == id);
                        lemma_find_note_idx(notes, id);
                        assert(find_note_idx(notes, id) == k as int);
                    }
                    let ghost kv = k as int;
                    state.projects[i].notes[k].content = content.to_owned();
                    proof {
                        let target = set_note_content_spec(ov, id, content@);
                        let n2 = NoteView { content: content@, ..notes[kv] };
                        let p2 = ProjectView {
                            notes: notes.update(kv, n2),
                            ..ov.projects[iv]
                        };
                        assert(ov.current_project == Some(cur@));
                        assert(find_name_idx(ov.projects, cur@) == iv);
                        assert(find_note_idx(ov.projects[iv].notes, id) == kv);
                        assert(target.projects == ov.projects.update(iv, p2));
                        assert forall|m: int|
                            0 <= m < state.projects@[iv]@.notes.len() implies state.projects@[iv]@
                            .notes[m] == p2.notes[m] by {
                            assert(state.projects@[iv]@.notes[m] == state.projects@[iv].notes@[m]@);
                            if m != kv {
                                assert(state.projects@[iv].notes@[m]@ == notes[m]);
                            }
                        }
                        assert(state.projects@[iv]@.notes =~= p2.notes);
                        assert(state.projects@[iv]@ == p2);
                        assert forall|m: int|
                            0 <= m < state@.projects.len() implies state@.projects[m]
                            == target.projects[m] by {
                            assert(state@.projects[m] == state.projects@[m]@);
                            if m != iv {
                                assert(state.projects@[m]@ == ov.projects[m]);
                            }
                        }
                        assert(state@.projects =~= target.projects);
                        assert(state@ == target);
                    }
                    return true;
                }
                k += 1;
            }
            proof {
                lemma_find_note_idx(notes, id);
            }
            false
        },
    }
}

/// Creating a note keeps the state well formed: the new note id extends
/// the dense per-project sequence and nothing else moves.
pub proof fn lemma_create_note_wf(v: StateView, description: Seq<char>, content: Seq<char>)
    requires
        v.wf(),
        v.ids_have_room(),
    ensures
        create_note_spec(v, description, content).wf(),
{
    let w = create_note_spec(v, description, content);
    if v.current_project is Some {
        let cur = v.current_project->0;
        let i = find_name_idx(v.projects, cur);
        if i != -1 {
            crate::model::lemma_find_name_idx(v.projects, cur);
            let p = v.projects[i];
            let p2 = w.projects[i];
            assert(forall|k: int|
                0 <= k < w.projects.len() && k != i ==> w.projects[k] == v.projects[k]);
            assert(forall|k: int|
                0 <= k < p.notes.len() ==> p2.notes[k] == (#[trigger] p.notes[k]));
            assert(p2.wf());
        }
    }
}

/// Replacing one project changes the total note count by exactly the
/// difference at that position.
pub proof fn lemma_total_note_count_update(s: Seq<ProjectView>, i: int, p: ProjectView)
    requires
        0 <= i < s.len(),
    ensures
        total_note_count(s.update(i, p)) + s[i].notes.len() == total_note_count(s) + p.notes.len(),
    decreases s.len(),
{
    if i == s.len() - 1 {
        assert(s.update(i, p).drop_last() =~= s.drop_last());
        assert(s.update(i, p).last() == p);
    } else {
        lemma_total_note_count_update(s.drop_last(), i, p);
        assert(s.update(i, p).drop_last() =~= s.drop_last().update(i, p));
        assert(s.update(i, p).last() == s.last());
    }
}

/// No-orphan law: without a resolvable current project, note creation
/// leaves the state — and with it the total note count across all
/// projects — exactly as it was.
pub proof fn lemma_no_orphan_note(v: StateView, description: Seq<char>, content: Seq<char>)
    requires
        match v.current_project {
            Some(cur) => find_name_idx(v.projects, cur) == -1,
            None => true,
        },
    ensures
        create_note_spec(v, description, content) == v,
        total_note_count(create_note_spec(v, description, content).projects) == total_note_count(
            v.projects,
        ),
{
}

} // verus!
