//! Where the Task Scheduler definition, the cleanup script and the schedule
//! status live, which system tools run, and what a failed registration says.
use vstd::prelude::*;
use vstd::utf8::{decode_utf8, valid_utf8};

use crate::paths::{join_path, joined};
use crate::text::{chars_of, replace_text, replaced, slice_chars, string_of};
use crate::words::{collapse, collapsed};

verus! {

/// The files of a Windows schedule.
pub struct Paths {
    status: String,
    definition: String,
    cleanup: String,
}

impl Paths {
    /// The status file, the task definition and the cleanup script.
    pub closed spec fn files(&self) -> (Seq<char>, Seq<char>, Seq<char>) {
        (self.status@, self.definition@, self.cleanup@)
    }

    /// The layout of the schedule files under the local application data
    /// directory, all in its `codex-cost-meter` directory.
    pub open spec fn layout(local_app_data: Seq<char>) -> (Seq<char>, Seq<char>, Seq<char>) {
        let directory = joined(local_app_data, "codex-cost-meter"@, true);
        (
            joined(directory, "status.json"@, true),
            joined(directory, "schedule-definition.xml"@, true),
            joined(directory, "schedule-cleanup.ps1"@, true),
        )
    }

    /// The schedule files under the local application data directory.
    pub fn new(local_app_data: &str) -> (r: Paths)
        ensures
            r.files() == Paths::layout(local_app_data@),
    {
        let directory = join_path(local_app_data, "codex-cost-meter", true);
        Paths {
            status: join_path(directory.as_str(), "status.json", true),
            definition: join_path(directory.as_str(), "schedule-definition.xml", true),
            cleanup: join_path(directory.as_str(), "schedule-cleanup.ps1", true),
        }
    }

    /// The schedule status file.
    pub fn status(&self) -> (r: &str)
        ensures
            r@ == self.files().0,
    {
        self.status.as_str()
    }

    /// The temporary task definition file.
    pub fn definition(&self) -> (r: &str)
        ensures
            r@ == self.files().1,
    {
        self.definition.as_str()
    }

    /// The cleanup script file.
    pub fn cleanup(&self) -> (r: &str)
        ensures
            r@ == self.files().2,
    {
        self.cleanup.as_str()
    }
}

/// What `schedule install` reports.
pub fn schedule_install_output(_paths: &Paths) -> (r: String)
    ensures
        r@ == "schedule registered\n"@,
{
    String::from_str("schedule registered\n")
}

/// The system tools the scheduler runs.
pub open spec fn known_tool(tool: Seq<char>) -> bool {
    tool == "schtasks.exe"@ || tool == "whoami.exe"@ || tool == "powershell.exe"@
}

/// Runs the fixed system tools from the system directory.
pub struct SystemRunner {
    system32: String,
}

impl SystemRunner {
    /// The system directory the tools are taken from.
    pub closed spec fn system_directory(&self) -> Seq<char> {
        self.system32@
    }

    /// A runner for the `SystemRoot` value; `None` when it is unset or empty.
    pub fn new(system_root: Option<String>) -> (r: Option<SystemRunner>)
        ensures
            match r {
                Some(runner) => system_root matches Some(root) && root@.len() > 0
                    && runner.system_directory() == joined(root@, "System32"@, true),
                None => system_root is None || system_root.unwrap()@.len() == 0,
            },
    {
        match system_root {
            Some(root) => if root.as_str().is_empty() {
                None
            } else {
                Some(SystemRunner { system32: join_path(root.as_str(), "System32", true) })
            },
            None => None,
        }
    }

    /// The path of a system tool: in the system directory, PowerShell in its
    /// `WindowsPowerShell\v1.0` directory.
    pub fn program(&self, tool: &str) -> (r: String)
        requires
            known_tool(tool@),
        ensures
            r@ == if tool@ == "powershell.exe"@ {
                joined(
                    joined(joined(self.system_directory(), "WindowsPowerShell"@, true), "v1.0"@, true),
                    "powershell.exe"@,
                    true,
                )
            } else {
                joined(self.system_directory(), tool@, true)
            },
    {
        if crate::text::str_eq(tool, "powershell.exe") {
            let shell = join_path(self.system32.as_str(), "WindowsPowerShell", true);
            let version = join_path(shell.as_str(), "v1.0", true);
            join_path(version.as_str(), "powershell.exe", true)
        } else {
            join_path(self.system32.as_str(), tool, true)
        }
    }
}

/// What `String::from_utf8_lossy` gives for some bytes.
pub uninterp spec fn lossy_text(bytes: Seq<u8>) -> Seq<char>;

/// `String::from_utf8_lossy`: the text of the bytes, each invalid sequence
/// replaced by U+FFFD. The result is named by `lossy_text`; for valid UTF-8
/// it is the decoded text, as the documentation states.
#[verifier::external_body]
fn utf8_lossy(bytes: &[u8]) -> (r: String)
    ensures
        r@ == lossy_text(bytes@),
        valid_utf8(bytes@) ==> r@ == decode_utf8(bytes@),
{
    String::from_utf8_lossy(bytes).into_owned()
}

/// How many characters of a registration failure's diagnostic are kept.
pub const MAX_CREATE_DIAGNOSTIC_CHARS: usize = 256;

/// A failed task registration: the tool's exit code and its diagnostic.
pub struct CreateTaskError {
    pub exit_code: Option<i32>,
    pub diagnostic: String,
}

/// The diagnostic kept of a failed registration's error output: the text
/// with the definition path and the user's SID masked, whitespace and
/// control runs collapsed, at most 256 characters.
pub open spec fn create_diagnostic(text: Seq<char>, definition: Seq<char>, sid: Seq<char>) -> Seq<char> {
    let masked = replaced(
        replaced(text, definition, "<temporary-definition>"@),
        sid,
        "<current-user>"@,
    );
    let clean = collapsed(masked, true);
    if clean.len() <= MAX_CREATE_DIAGNOSTIC_CHARS {
        clean
    } else {
        clean.take(MAX_CREATE_DIAGNOSTIC_CHARS as int)
    }
}

/// The error for a failed registration (see `create_diagnostic`).
pub fn create_task_error(stderr: &[u8], exit_code: Option<i32>, paths: &Paths, sid: &str) -> (r: CreateTaskError)
    ensures
        r.exit_code == exit_code,
        r.diagnostic@ == create_diagnostic(lossy_text(stderr@), paths.files().1, sid@),
{
    let text = utf8_lossy(stderr);
    let first = replace_text(text.as_str(), paths.definition(), "<temporary-definition>");
    let second = replace_text(first.as_str(), sid, "<current-user>");
    let chars = chars_of(second.as_str());
    let clean = collapse(&chars, true);
    let kept = if clean.len() <= MAX_CREATE_DIAGNOSTIC_CHARS {
        slice_chars(&clean, 0, clean.len())
    } else {
        slice_chars(&clean, 0, MAX_CREATE_DIAGNOSTIC_CHARS)
    };
    proof {
        assert(clean@.subrange(0, clean@.len() as int) =~= clean@);
        assert(clean@.subrange(0, MAX_CREATE_DIAGNOSTIC_CHARS as int) =~= clean@.take(MAX_CREATE_DIAGNOSTIC_CHARS as int));
    }
    CreateTaskError { exit_code, diagnostic: string_of(&kept) }
}


/// The first lines of `schedule status`: what the scheduler reports.
pub fn inspection_text(registered: bool) -> (r: String)
    ensures
        r@ == "registered: "@ + crate::schedule::yes_no_text(registered) + seq!['\n'],
{
    let mut out: Vec<char> = Vec::new();
    crate::text::extend_str(&mut out, "registered: ");
    crate::text::extend_str(&mut out, crate::output::yes_no(registered));
    out.push('\n');
    crate::text::string_of(&out)
}

/// Whether the task is registered, from what `schtasks /Query /HRESULT`
/// gave: registered when it succeeded, absent when it exited with the
/// HRESULT for a missing file (0x80070002, as a signed exit code), and
/// nothing can be said otherwise.
pub fn query_outcome(success: bool, exit_code: Option<i32>) -> (r: Option<bool>)
    ensures
        r == if success {
            Some(true)
        } else if exit_code == Some(-2147024894i32) {
            Some(false)
        } else {
            None::<bool>
        },
{
    if success {
        Some(true)
    } else if exit_code == Some(-2147024894i32) {
        Some(false)
    } else {
        None
    }
}

} // verus!
