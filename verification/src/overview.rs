//! The compute side of the overview listing: totals over all projects and
//! the shortest-unique-prefix shorthands shown next to project names.
use vstd::prelude::*;
use vstd::string::StrSliceExecFns;
use crate::model::{StateView, TedoState, total_note_count, total_task_count};
use crate::text::{prefix_of, str_eq};

verus! {

/// The names of the projects, in stored order.
pub open spec fn names_of(v: StateView) -> Seq<Seq<char>> {
    v.projects.map_values(|p: crate::model::ProjectView| p.name)
}

/// A task count stays below the number of projects times the per-project
/// bound.
proof fn lemma_total_task_count_bound(s: Seq<crate::model::ProjectView>)
    requires
        forall|i: int| 0 <= i < s.len() ==> (#[trigger] s[i]).tasks.len() < u32::MAX,
    ensures
        total_task_count(s) <= s.len() * (u32::MAX - 1),
    decreases s.len(),
{
    if s.len() > 0 {
        lemma_total_task_count_bound(s.drop_last());
        assert((s.len() - 1) * (u32::MAX - 1) + (u32::MAX - 1) == s.len() * (u32::MAX - 1))
            by (nonlinear_arith);
    }
}

/// The same bound for notes.
proof fn lemma_total_note_count_bound(s: Seq<crate::model::ProjectView>)
    requires
        forall|i: int| 0 <= i < s.len() ==> (#[trigger] s[i]).notes.len() < u32::MAX,
    ensures
        total_note_count(s) <= s.len() * (u32::MAX - 1),
    decreases s.len(),
{
    if s.len() > 0 {
        lemma_total_note_count_bound(s.drop_last());
        assert((s.len() - 1) * (u32::MAX - 1) + (u32::MAX - 1) == s.len() * (u32::MAX - 1))
            by (nonlinear_arith);
    }
}

/// Total number of tasks across all projects.
pub fn total_tasks(state: &TedoState) -> (r: u64)
    requires
        state@.wf(),
        state@.ids_have_room(),
    ensures
        r == total_task_count(state@.projects),
{
    let ghost v = state@.projects;
    let mut acc: u64 = 0;
    let mut i: usize = 0;
    while i < state.projects.len()
        invariant
            i <= state.projects@.len(),
            v == state@.projects,
            v.len() == state.projects@.len(),
            state@.wf(),
            state@.ids_have_room(),
            acc == total_task_count(v.subrange(0, i as int)),
        decreases state.projects@.len() - i,
    {
        let n = state.projects[i].tasks.len();
        proof {
            assert(v[i as int] == state.projects@[i as int]@);
            assert(n == v[i as int].tasks.len());
            assert(v.subrange(0, i + 1).drop_last() =~= v.subrange(0, i as int));
            assert(v.subrange(0, i + 1).last() == v[i as int]);
            assert(v[v.len() - 1].id == v.len());
            assert(v.len() <= u32::MAX);
            lemma_total_task_count_bound(v.subrange(0, i as int));
            assert(i * (u32::MAX - 1) + u32::MAX < u64::MAX) by (nonlinear_arith)
                requires
                    0 <= i <= u32::MAX,
            ;
        }
        acc = acc + (n as u64);
        i += 1;
    }
    proof {
        assert(v.subrange(0, v.len() as int) =~= v);
    }
    acc
}

/// Total number of notes across all projects.
pub fn total_notes(state: &TedoState) -> (r: u64)
    requires
        state@.wf(),
        state@.ids_have_room(),
    ensures
        r == total_note_count(state@.projects),
{
    let ghost v = state@.projects;
    let mut acc: u64 = 0;
    let mut i: usize = 0;
    while i < state.projects.len()
        invariant
            i <= state.projects@.len(),
            v == state@.projects,
            v.len() == state.projects@.len(),
            state@.wf(),
            state@.ids_have_room(),
            acc == total_note_count(v.subrange(0, i as int)),
        decreases state.projects@.len() - i,
    {
        let n = state.projects[i].notes.len();
        proof {
            assert(v[i as int] == state.projects@[i as int]@);
            assert(n == v[i as int].notes.len());
            assert(v.subrange(0, i + 1).drop_last() =~= v.subrange(0, i as int));
            assert(v.subrange(0, i + 1).last() == v[i as int]);
            assert(v[v.len() - 1].id == v.len());
            assert(v.len() <= u32::MAX);
            lemma_total_note_count_bound(v.subrange(0, i as int));
            assert(i * (u32::MAX - 1) + u32::MAX < u64::MAX) by (nonlinear_arith)
                requires
                    0 <= i <= u32::MAX,
            ;
        }
        acc = acc + (n as u64);
        i += 1;
    }
    proof {
        assert(v.subrange(0, v.len() as int) =~= v);
    }
    acc
}

/// The shortest prefix of `name` of length at least `from` that is not
/// already taken, or nothing when every prefix of `name` is taken.
pub open spec fn spec_shorthand_from(name: Seq<char>, taken: Seq<Seq<char>>, from: int) -> Option<
    Seq<char>,
>
    decreases name.len() - from + 1,
{
    if from < 1 || from > name.len() {
        None
    } else if !taken.contains(name.subrange(0, from)) {
        Some(name.subrange(0, from))
    } else {
        spec_shorthand_from(name, taken, from + 1)
    }
}

/// The shorthand a project gets: the shortest nonempty prefix of its name
/// that no earlier project took.
pub open spec fn spec_shorthand(name: Seq<char>, taken: Seq<Seq<char>>) -> Option<Seq<char>> {
    spec_shorthand_from(name, taken, 1)
}

/// The shorthands of all names, assigned in stored order; each chosen
/// shorthand becomes taken for the names after it.
pub open spec fn spec_shorthands_from(names: Seq<Seq<char>>, k: int, taken: Seq<Seq<char>>) -> Seq<
    Option<Seq<char>>,
>
    decreases names.len() - k,
{
    if k < 0 || k >= names.len() {
        Seq::empty()
    } else {
        let o = spec_shorthand(names[k], taken);
        seq![o] + spec_shorthands_from(
            names,
            k + 1,
            match o {
                Some(sh) => taken.push(sh),
                None => taken,
            },
        )
    }
}

/// Whether `taken` holds a string equal to `p`.
fn taken_contains(taken: &Vec<String>, p: &str) -> (r: bool)
    ensures
        r == taken@.map_values(|t: String| t@).contains(p@),
{
    let ghost tv = taken@.map_values(|t: String| t@);
    let mut i: usize = 0;
    while i < taken.len()
        invariant
            i <= taken@.len(),
            tv == taken@.map_values(|t: String| t@),
            tv.len() == taken@.len(),
            forall|m: int| 0 <= m < i ==> (#[trigger] tv[m]) != p@,
        decreases taken@.len() - i,
    {
        if str_eq(taken[i].as_str(), p) {
            proof {
                assert(tv[i as int] == p@);
            }
            return true;
        }
        proof {
            assert(tv[i as int] == taken@[i as int]@);
        }
        i += 1;
    }
    proof {
        if tv.contains(p@) {
            let w = choose|m: int| 0 <= m < tv.len() && tv[m] == p@;
            assert(tv[w] != p@);
        }
    }
    false
}

/// The shortest prefix of `name` not yet taken, when there is one.
fn shorthand_for(name: &str, taken: &Vec<String>) -> (r: Option<String>)
    ensures
        match r {
            Some(sh) => spec_shorthand(name@, taken@.map_values(|t: String| t@)) == Some(sh@),
            None => spec_shorthand(name@, taken@.map_values(|t: String| t@)) is None,
        },
{
    let ghost tv = taken@.map_values(|t: String| t@);
    let len = name.unicode_len();
    let mut l: usize = 0;
    while l < len
        invariant
            l <= len,
            len == name@.len(),
            tv == taken@.map_values(|t: String| t@),
            spec_shorthand(name@, tv) == spec_shorthand_from(name@, tv, l + 1),
        decreases len - l,
    {
        let pl = l + 1;
        let p = name.substring_char(0, pl);
        if !taken_contains(taken, p) {
            proof {
                assert(p@ == name@.subrange(0, pl as int));
                assert(spec_shorthand_from(name@, tv, pl as int) == Some(
                    name@.subrange(0, pl as int),
                ));
            }
            return Some(String::from_str(p));
        }
        proof {
            assert(p@ == name@.subrange(0, pl as int));
            assert(spec_shorthand_from(name@, tv, pl as int) == spec_shorthand_from(
                name@,
                tv,
                pl + 1,
            ));
        }
        l += 1;
    }
    proof {
        assert(spec_shorthand_from(name@, tv, l + 1) is None);
    }
    None
}

/// Assigns every project the shortest prefix of its name that no earlier
/// project took; a project whose prefixes are all taken gets nothing.
pub fn project_shorthands(state: &TedoState) -> (r: Vec<Option<String>>)
    ensures
        r@.map_values(
            |o: Option<String>|
                match o {
                    Some(sh) => Some(sh@),
                    None => None,
                },
        ) == spec_shorthands_from(names_of(state@), 0, Seq::empty()),
{
    let ghost names = names_of(state@);
    let mut out: Vec<Option<String>> = Vec::new();
    let ghost mut outv: Seq<Option<Seq<char>>> = Seq::empty();
    let mut taken: Vec<String> = Vec::new();
    let ghost mut takenv: Seq<Seq<char>> = Seq::empty();
    let mut i: usize = 0;
    proof {
        assert(taken@.map_values(|t: String| t@) =~= takenv);
    }
    while i < state.projects.len()
        invariant
            i <= state.projects@.len(),
            names == names_of(state@),
            names.len() == state.projects@.len(),
            taken@.map_values(|t: String| t@) == takenv,
            out@.len() == i,
            outv.len() == i,
            forall|m: int|
                0 <= m < i ==> outv[m] == (match #[trigger] out@[m] {
                    Some(sh) => Some(sh@),
                    None => None,
                }),
            spec_shorthands_from(names, 0, Seq::empty()) == outv + spec_shorthands_from(
                names,
                i as int,
                takenv,
            ),
        decreases state.projects@.len() - i,
    {
        let p = &state.projects[i];
        proof {
            assert(p@ == state@.projects[i as int]);
            assert(names[i as int] == p@.name);
        }
        let sh = shorthand_for(p.name.as_str(), &taken);
        proof {
            assert(spec_shorthands_from(names, i as int, takenv) == seq![
                spec_shorthand(names[i as int], takenv),
            ] + spec_shorthands_from(
                names,
                i + 1,
                match spec_shorthand(names[i as int], takenv) {
                    Some(s) => takenv.push(s),
                    None => takenv,
                },
            ));
        }
        match sh {
            Some(shs) => {
                let ghost shv = shs@;
                taken.push(shs.clone());
                out.push(Some(shs));
                proof {
                    outv = outv.push(Some(shv));
                    takenv = takenv.push(shv);
                    assert(taken@.map_values(|t: String| t@) =~= takenv);
                    assert(outv.drop_last() + (seq![outv.last()] + spec_shorthands_from(
                        names,
                        i + 1,
                        takenv,
                    )) =~= outv + spec_shorthands_from(names, i + 1, takenv));
                }
            },
            None => {
                out.push(None);
                proof {
                    outv = outv.push(None);
                    assert(outv.drop_last() + (seq![outv.last()] + spec_shorthands_from(
                        names,
                        i + 1,
                        takenv,
                    )) =~= outv + spec_shorthands_from(names, i + 1, takenv));
                }
            },
        }
        i += 1;
    }
    proof {
        assert(spec_shorthands_from(names, i as int, takenv) =~= Seq::<Option<Seq<char>>>::empty());
        assert(outv + Seq::<Option<Seq<char>>>::empty() =~= outv);
        assert forall|m: int|
            0 <= m < out@.len() implies out@.map_values(
            |o: Option<String>|
                match o {
                    Some(sh) => Some(sh@),
                    None => None,
                },
        )[m] == outv[m] by {
            assert(outv[m] == (match out@[m] {
                Some(sh) => Some(sh@),
                None => None,
            }));
        }
        assert(out@.map_values(
            |o: Option<String>|
                match o {
                    Some(sh) => Some(sh@),
                    None => None,
                },
        ) =~= outv);
    }
    out
}

} // verus!
