//! Where the launchd agent and the schedule status live.
use vstd::prelude::*;

use crate::paths::{join_path, joined};
use crate::text::{extend_str, string_of};

verus! {

/// The files of a macOS schedule.
pub struct Paths {
    plist: String,
    status: String,
}

impl Paths {
    /// The property list and the status file.
    pub closed spec fn files(&self) -> (Seq<char>, Seq<char>) {
        (self.plist@, self.status@)
    }

    /// The layout of the schedule files under a home directory:
    /// `Library/LaunchAgents/<label>.plist` and
    /// `Library/Application Support/codex-cost-meter/status.json`.
    pub open spec fn layout(home: Seq<char>) -> (Seq<char>, Seq<char>) {
        (
            joined(
                joined(joined(home, "Library"@, false), "LaunchAgents"@, false),
                "io.github.deinspanjer.codex-cost-meter.plist"@,
                false,
            ),
            joined(
                joined(
                    joined(joined(home, "Library"@, false), "Application Support"@, false),
                    "codex-cost-meter"@,
                    false,
                ),
                "status.json"@,
                false,
            ),
        )
    }

    /// The schedule files under a home directory (see `layout`).
    pub fn new(home: &str) -> (r: Paths)
        ensures
            r.files() == Paths::layout(home@),
    {
        let library = join_path(home, "Library", false);
        let agents = join_path(library.as_str(), "LaunchAgents", false);
        let support = join_path(library.as_str(), "Application Support", false);
        let own = join_path(support.as_str(), "codex-cost-meter", false);
        Paths {
            plist: join_path(agents.as_str(), "io.github.deinspanjer.codex-cost-meter.plist", false),
            status: join_path(own.as_str(), "status.json", false),
        }
    }

    /// The launchd property list file.
    pub fn plist(&self) -> (r: &str)
        ensures
            r@ == self.files().0,
    {
        self.plist.as_str()
    }

    /// The schedule status file.
    pub fn status(&self) -> (r: &str)
        ensures
            r@ == self.files().1,
    {
        self.status.as_str()
    }
}

/// What `schedule install` reports: the property list it installed.
pub fn schedule_install_output(paths: &Paths) -> (r: String)
    ensures
        r@ == "schedule installed: "@ + paths.files().0 + seq!['\n'],
{
    let mut out: Vec<char> = Vec::new();
    extend_str(&mut out, "schedule installed: ");
    extend_str(&mut out, paths.plist());
    out.push('\n');
    string_of(&out)
}


/// The first lines of `schedule status`: what the scheduler reports.
pub fn inspection_text(installed: bool, loaded: bool) -> (r: String)
    ensures
        r@ == "installed: "@ + crate::schedule::yes_no_text(installed) + seq!['\n'] + "loaded: "@ + crate::schedule::yes_no_text(loaded) + seq!['\n'],
{
    let mut out: Vec<char> = Vec::new();
    crate::text::extend_str(&mut out, "installed: ");
    crate::text::extend_str(&mut out, crate::output::yes_no(installed));
    out.push('\n');
    crate::text::extend_str(&mut out, "loaded: ");
    crate::text::extend_str(&mut out, crate::output::yes_no(loaded));
    out.push('\n');
    crate::text::string_of(&out)
}

/// Whether `launchctl bootout` left no job behind: it succeeded, or it
/// exited with 3 (no such job).
pub fn bootout_succeeded(success: bool, exit_code: Option<i32>) -> (r: bool)
    ensures
        r == (success || exit_code == Some(3i32)),
{
    success || exit_code == Some(3i32)
}

/// What `launchctl print` says of the job: loaded when it succeeded, not
/// loaded when it exited with 3 or 113 (no such job), and nothing can be
/// said otherwise.
pub fn print_outcome(success: bool, exit_code: Option<i32>) -> (r: Option<bool>)
    ensures
        r == if success {
            Some(true)
        } else if exit_code == Some(3i32) || exit_code == Some(113i32) {
            Some(false)
        } else {
            None::<bool>
        },
{
    if success {
        Some(true)
    } else if exit_code == Some(3i32) || exit_code == Some(113i32) {
        Some(false)
    } else {
        None
    }
}

/// Whether a byte is an ASCII digit.
pub open spec fn is_digit_byte(b: u8) -> bool {
    48 <= b <= 57
}

/// Whether a byte is ASCII whitespace as `str::trim` sees it.
pub open spec fn is_space_byte(b: u8) -> bool {
    b == 32 || b == 9 || b == 10 || b == 11 || b == 12 || b == 13
}

/// The user id printed by `id -u`: the output without surrounding
/// whitespace, when that is a non-empty run of ASCII digits.
pub open spec fn uid_text(out: Seq<u8>, from: int, to: int) -> bool {
    0 <= from < to <= out.len() && (forall|i: int| from <= i < to ==> is_digit_byte(#[trigger] out[i])) && (forall|i: int|
        0 <= i < from ==> is_space_byte(#[trigger] out[i])) && (forall|i: int| to <= i < out.len() ==> is_space_byte(
        #[trigger] out[i],
    ))
}

proof fn lemma_uid_bounds(out: Seq<u8>, from: int, to: int, a: int, c: int)
    requires
        0 <= from < to <= out.len(),
        forall|i: int| 0 <= i < from ==> is_space_byte(#[trigger] out[i]),
        forall|i: int| to <= i < out.len() ==> is_space_byte(#[trigger] out[i]),
        !is_space_byte(out[from]),
        !is_space_byte(out[to - 1]),
        uid_text(out, a, c),
    ensures
        a == from && c == to,
{
    if a < from {
        assert(is_space_byte(out[a]) && is_digit_byte(out[a]));
    } else if a > from {
        assert(is_space_byte(out[from]));
    } else if c < to {
        assert(is_space_byte(out[to - 1]));
    } else if c > to {
        assert(is_space_byte(out[to]) && is_digit_byte(out[to]));
    }
}

/// The user id printed by `id -u` (see `uid_text`); none when the output is
/// anything else.
pub fn uid_from_output(out: &[u8]) -> (r: Option<String>)
    ensures
        match r {
            Some(uid) => exists|from: int, to: int| #[trigger] uid_text(out@, from, to) && uid@.len() == to - from
                && forall|i: int| 0 <= i < to - from ==> (#[trigger] uid@[i]) as u32 == out@[from + i] as u32,
            None => forall|from: int, to: int| !#[trigger] uid_text(out@, from, to),
        },
{
    let mut from: usize = 0;
    while from < out.len() && (out[from] == 32 || out[from] == 9 || out[from] == 10 || out[from] == 11
        || out[from] == 12 || out[from] == 13)
        invariant
            from <= out.len(),
            forall|i: int| 0 <= i < from ==> is_space_byte(#[trigger] out@[i]),
        decreases out.len() - from,
    {
        from += 1;
    }
    let mut to: usize = out.len();
    while to > from && (out[to - 1] == 32 || out[to - 1] == 9 || out[to - 1] == 10 || out[to - 1] == 11
        || out[to - 1] == 12 || out[to - 1] == 13)
        invariant
            from <= to <= out.len(),
            forall|i: int| 0 <= i < from ==> is_space_byte(#[trigger] out@[i]),
            forall|i: int| to <= i < out.len() ==> is_space_byte(#[trigger] out@[i]),
            from < out.len() ==> !is_space_byte(out@[from as int]),
        decreases to - from,
    {
        to -= 1;
    }
    if to == from {
        proof {
            assert forall|a: int, c: int| !#[trigger] uid_text(out@, a, c) by {
                if uid_text(out@, a, c) {
                    if a < from {
                        assert(is_space_byte(out@[a]) && is_digit_byte(out@[a]));
                    } else {
                        assert(is_space_byte(out@[a]) && is_digit_byte(out@[a]));
                    }
                }
            }
        }
        return None;
    }
    let mut k: usize = from;
    let mut uid: Vec<char> = Vec::new();
    while k < to
        invariant
            from <= k <= to <= out.len(),
            from < to,
            forall|i: int| 0 <= i < from ==> is_space_byte(#[trigger] out@[i]),
            forall|i: int| to <= i < out.len() ==> is_space_byte(#[trigger] out@[i]),
            !is_space_byte(out@[from as int]),
            !is_space_byte(out@[to - 1]),
            uid.len() == k - from,
            forall|i: int| from <= i < k ==> is_digit_byte(#[trigger] out@[i]),
            forall|i: int| 0 <= i < k - from ==> (#[trigger] uid@[i]) as u32 == out@[from + i] as u32,
        decreases to - k,
    {
        let b = out[k];
        if b < 48 || b > 57 {
            proof {
                assert forall|a: int, c: int| !#[trigger] uid_text(out@, a, c) by {
                    if uid_text(out@, a, c) {
                        lemma_uid_bounds(out@, from as int, to as int, a, c);
                        assert(is_digit_byte(out@[k as int]));
                    }
                }
            }
            return None;
        }
        let c: char = if b == 48 { '0' } else if b == 49 { '1' } else if b == 50 { '2' } else if b == 51 {
            '3'
        } else if b == 52 { '4' } else if b == 53 { '5' } else if b == 54 { '6' } else if b == 55 { '7' } else if b
            == 56 { '8' } else { '9' };
        uid.push(c);
        k += 1;
    }
    assert(uid_text(out@, from as int, to as int));
    Some(crate::text::string_of(&uid))
}

} // verus!
