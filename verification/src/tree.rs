//! What a report on one task tree takes from the rollout index and the
//! session index: the order of the tasks, and the notes on incomplete input.
use vstd::prelude::*;

use crate::discovery::{distinct, is_descendant, DiscoveryWarning, RolloutIndex};
use crate::session::{entry_for, Snapshot};
use crate::sort::{sorted_views, views};
use crate::text::{extend_str, string_of};

verus! {

/// The text that an I/O error kind displays.
pub uninterp spec fn kind_display(kind: std::io::ErrorKind) -> Seq<char>;

/// Displays an I/O error kind (`std::io::ErrorKind`'s `Display`, a fixed
/// description of each kind); the text is named, not stated.
#[verifier::external_body]
fn kind_text(kind: std::io::ErrorKind) -> (r: String)
    ensures
        r@ == kind_display(kind),
{
    format!("{}", kind)
}

/// Why a report on one task tree could not be made.
pub enum TreeError {
    RolloutNotFound { thread_id: String, home: String },
}

/// The tasks a report on `thread_id` reads, in order: the task itself, then
/// its descendants sorted by id; an error when the index has no such task.
pub fn tree_order(index: &RolloutIndex, thread_id: &str, home: &str) -> (r: Result<Vec<String>, TreeError>)
    ensures
        match r {
            Ok(ids) => ids.len() >= 1 && ids@[0]@ == thread_id@ && (exists|i: int|
                0 <= i < index.entries().len() && #[trigger] index.entries()[i].id@ == thread_id@) && ({
                let rest = views(ids@).drop_first();
                &&& sorted_views(rest)
                &&& distinct(rest)
                &&& forall|x: Seq<char>| #[trigger] rest.contains(x) <==> exists|i: int|
                    #[trigger] is_descendant(index.entries(), thread_id@, i) && index.entries()[i].id@ == x
            }),
            Err(TreeError::RolloutNotFound { thread_id: t, home: h }) => t@ == thread_id@ && h@ == home@
                && forall|i: int| 0 <= i < index.entries().len() ==> #[trigger] index.entries()[i].id@ != thread_id@,
        },
{
    match index.descendants(thread_id) {
        None => Err(TreeError::RolloutNotFound { thread_id: String::from_str(thread_id), home: String::from_str(home) }),
        Some(descendants) => {
            let mut ids: Vec<String> = Vec::new();
            ids.push(String::from_str(thread_id));
            let mut k: usize = 0;
            while k < descendants.len()
                invariant
                    k <= descendants.len(),
                    ids.len() == k + 1,
                    ids@[0]@ == thread_id@,
                    views(ids@).drop_first() == views(descendants@).take(k as int),
                decreases descendants.len() - k,
            {
                ids.push(descendants[k].clone());
                assert(views(ids@).drop_first() =~= views(descendants@).take(k + 1));
                k += 1;
            }
            assert(views(descendants@).take(descendants.len() as int) =~= views(descendants@));
            Ok(ids)
        },
    }
}

/// The note on a directory or file that the rollout scan could not read.
pub open spec fn warning_text(w: DiscoveryWarning) -> Seq<char> {
    "rollout scan could not read "@ + w.path@ + " ("@ + kind_display(w.error) + ")"@
}

/// The notes on the rollout scan: one per unreadable place, then one each
/// when malformed or oversized records were skipped.
pub open spec fn scan_note_list(warnings: Seq<DiscoveryWarning>, oversized: nat, malformed: nat) -> Seq<Seq<char>> {
    warnings.map_values(|w: DiscoveryWarning| warning_text(w)) + (if malformed > 0 {
        seq!["rollout scan skipped malformed JSONL records"@]
    } else {
        Seq::<Seq<char>>::empty()
    }) + (if oversized > 0 {
        seq!["rollout scan skipped oversized JSONL records"@]
    } else {
        Seq::<Seq<char>>::empty()
    })
}

/// The notes on the rollout scan, and whether its input is incomplete.
pub struct ScanNotes {
    pub warnings: Vec<String>,
    pub incomplete: bool,
}

/// The notes on the rollout scan behind `index` (see `scan_note_list`);
/// the input is incomplete when there is any note.
pub fn scan_notes(index: &RolloutIndex) -> (r: ScanNotes)
    ensures
        views(r.warnings@) == scan_note_list(
            index.warning_list(),
            index.skipped().0 as nat,
            index.skipped().1 as nat,
        ),
        r.incomplete == (index.warning_list().len() > 0 || index.skipped().0 > 0 || index.skipped().1 > 0),
{
    let warnings = index.warnings();
    let mut out: Vec<String> = Vec::new();
    let mut i: usize = 0;
    while i < warnings.len()
        invariant
            i <= warnings.len(),
            warnings@ == index.warning_list(),
            views(out@) == warnings@.take(i as int).map_values(|w: DiscoveryWarning| warning_text(w)),
        decreases warnings.len() - i,
    {
        let w = &warnings[i];
        let mut line: Vec<char> = Vec::new();
        extend_str(&mut line, "rollout scan could not read ");
        extend_str(&mut line, w.path.as_str());
        extend_str(&mut line, " (");
        let kind = kind_text(w.error);
        extend_str(&mut line, kind.as_str());
        extend_str(&mut line, ")");
        out.push(string_of(&line));
        assert(warnings@.take(i + 1).map_values(|w: DiscoveryWarning| warning_text(w)) =~= warnings@.take(
            i as int,
        ).map_values(|w: DiscoveryWarning| warning_text(w)).push(warning_text(warnings@[i as int])));
        assert(views(out@) =~= views(out@.drop_last()).push(out@.last()@));
        i += 1;
    }
    assert(warnings@.take(warnings.len() as int) =~= warnings@);
    let ghost listed = views(out@);
    if index.malformed_lines_skipped() > 0 {
        out.push(String::from_str("rollout scan skipped malformed JSONL records"));
        assert(views(out@) =~= listed.push("rollout scan skipped malformed JSONL records"@));
    }
    let ghost listed2 = views(out@);
    if index.oversized_lines_skipped() > 0 {
        out.push(String::from_str("rollout scan skipped oversized JSONL records"));
        assert(views(out@) =~= listed2.push("rollout scan skipped oversized JSONL records"@));
    }
    let incomplete = warnings.len() > 0 || index.oversized_lines_skipped() > 0 || index.malformed_lines_skipped() > 0;
    ScanNotes { warnings: out, incomplete }
}

/// The notes on the session index: that it could not be read, or else one
/// each for oversized and malformed records.
pub open spec fn session_note_list(s: Snapshot) -> Seq<Seq<char>> {
    if s.failure() is Some {
        seq!["session index could not be read"@]
    } else {
        (if s.counts().1 > 0 {
            seq!["session index skipped oversized JSONL records"@]
        } else {
            Seq::<Seq<char>>::empty()
        }) + (if s.counts().0 > 0 {
            seq!["session index contains malformed JSONL records"@]
        } else {
            Seq::<Seq<char>>::empty()
        })
    }
}

/// Adds the notes on the session index (see `session_note_list`).
pub fn add_session_notes(snapshot: &Snapshot, notes: &mut Vec<String>)
    ensures
        views(final(notes)@) == views(old(notes)@) + session_note_list(*snapshot),
{
    let ghost start = views(notes@);
    if snapshot.read_error().is_some() {
        notes.push(String::from_str("session index could not be read"));
        assert(views(notes@) =~= start + seq!["session index could not be read"@]);
    } else {
        if snapshot.oversized_records() > 0 {
            notes.push(String::from_str("session index skipped oversized JSONL records"));
            assert(views(notes@) =~= start + seq!["session index skipped oversized JSONL records"@]);
        }
        let ghost mid = views(notes@);
        if snapshot.malformed_records() > 0 {
            notes.push(String::from_str("session index contains malformed JSONL records"));
            assert(views(notes@) =~= mid + seq!["session index contains malformed JSONL records"@]);
        }
        assert(views(notes@) =~= start + session_note_list(*snapshot));
    }
}

/// The name of a thread, taken from the session index only when every
/// record of it was read.
pub fn thread_name(snapshot: &Snapshot, thread_id: &str) -> (r: Option<String>)
    ensures
        match r {
            Some(name) => snapshot.counts() == (0usize, 0usize) && snapshot.failure() is None
                && (entry_for(snapshot.entries(), thread_id@) matches Some(e) && e.name@ == name@),
            None => !(snapshot.counts() == (0usize, 0usize) && snapshot.failure() is None)
                || entry_for(snapshot.entries(), thread_id@) is None,
        },
{
    if !snapshot.is_complete() {
        return None;
    }
    match snapshot.entry(thread_id) {
        Some(e) => Some(e.name.clone()),
        None => None,
    }
}

/// Where one rollout of a task tree goes in the report.
#[derive(Clone, Copy, Debug, PartialEq, Eq, Structural)]
pub enum TreeStep {
    /// The selected rollout was read: its counts go to the root's row.
    Root,
    /// A descendant was read: its counts go to the descendants' row.
    Child,
    /// The selected rollout could not be read: the report fails.
    SelectedUnreadable,
    /// A descendant could not be read: it is counted as unreadable and
    /// warned about, and the report goes on.
    ChildUnreadable,
}

/// The decision for rollout `id` of the tree of `thread_id`, given whether
/// it could be read.
pub fn tree_step(id: &str, thread_id: &str, readable: bool) -> (r: TreeStep)
    ensures
        r == (if id@ == thread_id@ {
            if readable { TreeStep::Root } else { TreeStep::SelectedUnreadable }
        } else {
            if readable { TreeStep::Child } else { TreeStep::ChildUnreadable }
        }),
{
    let selected = crate::text::str_eq(id, thread_id);
    if selected {
        if readable { TreeStep::Root } else { TreeStep::SelectedUnreadable }
    } else {
        if readable { TreeStep::Child } else { TreeStep::ChildUnreadable }
    }
}

/// The warning for a descendant that could not be read.
pub fn unreadable_warning(id: &str) -> (r: String)
    ensures
        r@ == "descendant rollout "@ + id@ + " could not be read"@,
{
    let mut out: Vec<char> = Vec::new();
    extend_str(&mut out, "descendant rollout ");
    extend_str(&mut out, id);
    extend_str(&mut out, " could not be read");
    string_of(&out)
}

} // verus!
