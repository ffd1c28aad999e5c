//! Which root tasks a project report covers, and the notes it prints about
//! that selection.
use vstd::prelude::*;

use crate::output::{human_number, safe_text};
use crate::sort::{sort_strings, sorted_views, views};
use crate::text::{extend_str, grouped, str_eq, string_of};
use crate::words::collapsed;

verus! {

/// How a project report's tasks were chosen, and what was left out.
pub struct ProjectSelection {
    pub target: String,
    pub resolver: String,
    pub missing_source_roots: usize,
    pub direct_assignments: usize,
    pub workspace_fallbacks: usize,
    pub projectless_threads: usize,
    pub projectless_exclusions: usize,
    pub other_project_exclusions: usize,
    pub incomplete_root_reports: usize,
    pub unpriced_root_reports: usize,
}

/// `a + b`, or `usize::MAX` when that overflows.
pub open spec fn plus_sat(a: nat, b: nat) -> nat {
    if a + b > usize::MAX {
        usize::MAX as nat
    } else {
        a + b
    }
}

/// How many tasks the selection includes: direct assignments, workspace
/// fallbacks and projectless threads, adding up without overflow.
pub fn fallback_task_count(selection: &ProjectSelection) -> (r: usize)
    ensures
        r == plus_sat(
            plus_sat(selection.direct_assignments as nat, selection.workspace_fallbacks as nat),
            selection.projectless_threads as nat,
        ),
{
    let a = if selection.direct_assignments > usize::MAX - selection.workspace_fallbacks {
        usize::MAX
    } else {
        selection.direct_assignments + selection.workspace_fallbacks
    };
    if a > usize::MAX - selection.projectless_threads {
        usize::MAX
    } else {
        a + selection.projectless_threads
    }
}

/// The notes a project report adds about its selection (none for a corpus
/// report): a line on incomplete and partially priced task trees when there
/// are any, and a line on exclusions when there are any.
pub open spec fn selection_notes(s: ProjectSelection, corpus: bool) -> Seq<char> {
    if corpus {
        Seq::<char>::empty()
    } else {
        (if s.incomplete_root_reports > 0 || s.unpriced_root_reports > 0 {
            "Task trees: "@ + grouped(s.incomplete_root_reports as nat) + " incomplete · "@ + grouped(
                s.unpriced_root_reports as nat,
            ) + " with partial cost.\n"@
        } else {
            Seq::<char>::empty()
        }) + (if s.missing_source_roots > 0 || s.projectless_exclusions > 0
            || s.other_project_exclusions > 0 {
            "Excluded: "@ + grouped(s.missing_source_roots as nat) + " missing source · "@ + grouped(
                s.projectless_exclusions as nat,
            ) + " projectless · "@ + grouped(s.other_project_exclusions as nat) + " other project.\n"@
        } else {
            Seq::<char>::empty()
        })
    }
}

/// Appends the selection notes (see `selection_notes`).
pub fn append_selection_notes(rendered: &mut String, selection: &ProjectSelection, corpus: bool)
    ensures
        final(rendered)@ == old(rendered)@ + selection_notes(*selection, corpus),
{
    if corpus {
        return;
    }
    let ghost start = rendered@;
    let mut out: Vec<char> = Vec::new();
    if selection.incomplete_root_reports > 0 || selection.unpriced_root_reports > 0 {
        extend_str(&mut out, "Task trees: ");
        extend_str(&mut out, human_number(selection.incomplete_root_reports as u64).as_str());
        extend_str(&mut out, " incomplete · ");
        extend_str(&mut out, human_number(selection.unpriced_root_reports as u64).as_str());
        extend_str(&mut out, " with partial cost.\n");
    }
    let ghost first = out@;
    if selection.missing_source_roots > 0 || selection.projectless_exclusions > 0
        || selection.other_project_exclusions > 0 {
        extend_str(&mut out, "Excluded: ");
        extend_str(&mut out, human_number(selection.missing_source_roots as u64).as_str());
        extend_str(&mut out, " missing source · ");
        extend_str(&mut out, human_number(selection.projectless_exclusions as u64).as_str());
        extend_str(&mut out, " projectless · ");
        extend_str(&mut out, human_number(selection.other_project_exclusions as u64).as_str());
        extend_str(&mut out, " other project.\n");
    }
    assert(out@ =~= selection_notes(*selection, corpus));
    let text = string_of(&out);
    rendered.append(text.as_str());
}

/// Each cache notice as one sanitised line.
pub open spec fn notice_lines(notices: Seq<String>) -> Seq<char>
    decreases notices.len(),
{
    if notices.len() == 0 {
        Seq::<char>::empty()
    } else {
        notice_lines(notices.drop_last()) + collapsed(notices.last()@, true) + seq!['\n']
    }
}

/// The text reporting the cache's notices, one sanitised line each.
pub fn write_cache_notices(notices: &[String]) -> (r: String)
    ensures
        r@ == notice_lines(notices@),
{
    let mut out: Vec<char> = Vec::new();
    let mut i: usize = 0;
    while i < notices.len()
        invariant
            i <= notices.len(),
            out@ == notice_lines(notices@.take(i as int)),
        decreases notices.len() - i,
    {
        assert(notices@.take(i + 1).drop_last() =~= notices@.take(i as int));
        let line = safe_text(notices[i].as_str());
        extend_str(&mut out, line.as_str());
        out.push('\n');
        i += 1;
    }
    assert(notices@.take(notices.len() as int) =~= notices@);
    string_of(&out)
}

/// What a project scope sees of one root task: whether its recorded
/// directory lies beneath one of the scope's paths, the project it is
/// assigned to, and whether it is marked projectless.
pub struct ScopeRoot {
    pub id: String,
    pub beneath: bool,
    pub assignment: Option<String>,
    pub projectless: bool,
}

/// How a project scope treats a root task.
#[derive(Clone, Copy, Debug, PartialEq, Eq, Structural)]
pub enum ScopeDecision {
    Direct,
    WorkspaceFallback,
    ProjectlessExclusion,
    OtherProjectExclusion,
    Unrelated,
}

/// A root assigned to the selected project is included directly; one beneath
/// the scope's paths is included when unassigned and not projectless, and
/// otherwise excluded as projectless or as another project's.
pub open spec fn scope_decision(root: ScopeRoot, selected_project: Option<Seq<char>>) -> ScopeDecision {
    let direct = match (selected_project, root.assignment) {
        (Some(p), Some(a)) => a@ == p,
        _ => false,
    };
    if direct {
        ScopeDecision::Direct
    } else if root.beneath && root.assignment is None && !root.projectless {
        ScopeDecision::WorkspaceFallback
    } else if root.beneath && root.projectless {
        ScopeDecision::ProjectlessExclusion
    } else if root.beneath && root.assignment is Some {
        ScopeDecision::OtherProjectExclusion
    } else {
        ScopeDecision::Unrelated
    }
}

/// How a project scope treats a root task (see `scope_decision`).
pub fn classify_root(root: &ScopeRoot, selected_project: Option<&str>) -> (r: ScopeDecision)
    ensures
        r == scope_decision(
            *root,
            match selected_project {
                Some(p) => Some(p@),
                None => None,
            },
        ),
{
    let direct = match (selected_project, &root.assignment) {
        (Some(p), Some(a)) => str_eq(a.as_str(), p),
        _ => false,
    };
    if direct {
        ScopeDecision::Direct
    } else if root.beneath && root.assignment.is_none() && !root.projectless {
        ScopeDecision::WorkspaceFallback
    } else if root.beneath && root.projectless {
        ScopeDecision::ProjectlessExclusion
    } else if root.beneath && root.assignment.is_some() {
        ScopeDecision::OtherProjectExclusion
    } else {
        ScopeDecision::Unrelated
    }
}

/// How many of the first `n` roots get decision `d`.
pub open spec fn count_decision(
    roots: Seq<ScopeRoot>,
    selected_project: Option<Seq<char>>,
    d: ScopeDecision,
    n: int,
) -> nat
    decreases n,
{
    if n <= 0 {
        0
    } else {
        count_decision(roots, selected_project, d, n - 1) + if scope_decision(
            roots[n - 1],
            selected_project,
        ) == d {
            1nat
        } else {
            0nat
        }
    }
}

proof fn lemma_count_decision_bound(
    roots: Seq<ScopeRoot>,
    selected_project: Option<Seq<char>>,
    d: ScopeDecision,
    n: int,
)
    requires
        0 <= n,
    ensures
        count_decision(roots, selected_project, d, n) <= n,
    decreases n,
{
    if n > 0 {
        lemma_count_decision_bound(roots, selected_project, d, n - 1);
    }
}

/// The tallies of a scope and the ids of the roots it includes, sorted.
pub struct ScopeTally {
    pub direct_assignments: usize,
    pub workspace_fallbacks: usize,
    pub projectless_exclusions: usize,
    pub other_project_exclusions: usize,
    pub thread_ids: Vec<String>,
}

/// Tallies a project scope over its roots: each decision counted, and the
/// ids of the directly assigned and workspace-fallback roots, sorted.
pub fn tally_scope(roots: &[ScopeRoot], selected_project: Option<&str>) -> (r: ScopeTally)
    ensures
        ({
            let p = match selected_project {
                Some(p) => Some(p@),
                None => None,
            };
            let n = roots.len() as int;
            &&& r.direct_assignments == count_decision(roots@, p, ScopeDecision::Direct, n)
            &&& r.workspace_fallbacks == count_decision(roots@, p, ScopeDecision::WorkspaceFallback, n)
            &&& r.projectless_exclusions == count_decision(roots@, p, ScopeDecision::ProjectlessExclusion, n)
            &&& r.other_project_exclusions == count_decision(roots@, p, ScopeDecision::OtherProjectExclusion, n)
            &&& sorted_views(views(r.thread_ids@))
            &&& views(r.thread_ids@).to_multiset() == included_ids(roots@, p, n).to_multiset()
        }),
{
    let ghost p = match selected_project {
        Some(p) => Some(p@),
        None => None,
    };
    let mut direct: usize = 0;
    let mut fallback: usize = 0;
    let mut projectless: usize = 0;
    let mut other: usize = 0;
    let mut ids: Vec<String> = Vec::new();
    let mut i: usize = 0;
    while i < roots.len()
        invariant
            i <= roots.len(),
            p == match selected_project {
                Some(p) => Some(p@),
                None => None,
            },
            direct == count_decision(roots@, p, ScopeDecision::Direct, i as int),
            fallback == count_decision(roots@, p, ScopeDecision::WorkspaceFallback, i as int),
            projectless == count_decision(roots@, p, ScopeDecision::ProjectlessExclusion, i as int),
            other == count_decision(roots@, p, ScopeDecision::OtherProjectExclusion, i as int),
            views(ids@) == included_ids(roots@, p, i as int),
        decreases roots.len() - i,
    {
        proof {
            lemma_count_decision_bound(roots@, p, ScopeDecision::Direct, i as int);
            lemma_count_decision_bound(roots@, p, ScopeDecision::WorkspaceFallback, i as int);
            lemma_count_decision_bound(roots@, p, ScopeDecision::ProjectlessExclusion, i as int);
            lemma_count_decision_bound(roots@, p, ScopeDecision::OtherProjectExclusion, i as int);
        }
        let d = classify_root(&roots[i], selected_project);
        match d {
            ScopeDecision::Direct => {
                direct = direct + 1;
                ids.push(roots[i].id.clone());
            },
            ScopeDecision::WorkspaceFallback => {
                fallback = fallback + 1;
                ids.push(roots[i].id.clone());
            },
            ScopeDecision::ProjectlessExclusion => {
                projectless = projectless + 1;
            },
            ScopeDecision::OtherProjectExclusion => {
                other = other + 1;
            },
            ScopeDecision::Unrelated => {},
        }
        proof {
            if d == ScopeDecision::Direct || d == ScopeDecision::WorkspaceFallback {
                assert(views(ids@) =~= included_ids(roots@, p, i as int).push(roots@[i as int].id@));
            }
        }
        i += 1;
    }
    let ghost unsorted = views(ids@);
    sort_strings(&mut ids);
    ScopeTally {
        direct_assignments: direct,
        workspace_fallbacks: fallback,
        projectless_exclusions: projectless,
        other_project_exclusions: other,
        thread_ids: ids,
    }
}

/// The ids of the first `n` roots that a scope includes, in order.
pub open spec fn included_ids(roots: Seq<ScopeRoot>, selected_project: Option<Seq<char>>, n: int) -> Seq<
    Seq<char>,
>
    decreases n,
{
    if n <= 0 {
        Seq::<Seq<char>>::empty()
    } else {
        let d = scope_decision(roots[n - 1], selected_project);
        if d == ScopeDecision::Direct || d == ScopeDecision::WorkspaceFallback {
            included_ids(roots, selected_project, n - 1).push(roots[n - 1].id@)
        } else {
            included_ids(roots, selected_project, n - 1)
        }
    }
}

} // verus!
