//! Where the systemd user units and the schedule status live.
use vstd::prelude::*;

use crate::paths::{join_path, joined};
use crate::text::{extend_str, string_of};

verus! {

/// The systemd service unit's file name.
pub open spec fn service_name() -> Seq<char> {
    "io.github.deinspanjer.codex-cost-meter.service"@
}

/// The systemd timer unit's file name.
pub open spec fn timer_name() -> Seq<char> {
    "io.github.deinspanjer.codex-cost-meter.timer"@
}

/// The files of a Linux schedule.
pub struct Paths {
    service: String,
    timer: String,
    status: String,
}

impl Paths {
    /// The service unit, the timer unit and the status file.
    pub closed spec fn files(&self) -> (Seq<char>, Seq<char>, Seq<char>) {
        (self.service@, self.timer@, self.status@)
    }

    /// The schedule files for a home directory and the `XDG_CONFIG_HOME` and
    /// `XDG_STATE_HOME` values; an empty value counts as unset.
    pub fn new(home: &str, config_home: Option<String>, state_home: Option<String>) -> (r: Paths)
        ensures
            r.files() == Paths::layout(
                home@,
                match config_home {
                    Some(c) => if c@.len() > 0 { Some(c@) } else { None },
                    None => None,
                },
                match state_home {
                    Some(s) => if s@.len() > 0 { Some(s@) } else { None },
                    None => None,
                },
            ),
    {
        let config = match config_home {
            Some(c) => if !c.as_str().is_empty() {
                Some(c)
            } else {
                None
            },
            None => None,
        };
        let state = match state_home {
            Some(s) => if !s.as_str().is_empty() {
                Some(s)
            } else {
                None
            },
            None => None,
        };
        Paths::from_homes(home, config, state)
    }

    /// The layout of the schedule files: the units under
    /// `<config>/systemd/user` (config defaults to `~/.config`) and the status
    /// under `<state>/codex-cost-meter/status.json` (state defaults to
    /// `~/.local/state`).
    pub open spec fn layout(home: Seq<char>, config_home: Option<Seq<char>>, state_home: Option<Seq<char>>) -> (
        Seq<char>,
        Seq<char>,
        Seq<char>,
    ) {
        let config = match config_home {
            Some(c) => c,
            None => joined(home, ".config"@, false),
        };
        let state = match state_home {
            Some(s) => s,
            None => joined(home, ".local/state"@, false),
        };
        let units = joined(config, "systemd/user"@, false);
        (
            joined(units, service_name(), false),
            joined(units, timer_name(), false),
            joined(state, "codex-cost-meter/status.json"@, false),
        )
    }

    /// The schedule files for a home directory and optional configuration and
    /// state directories (see `layout`).
    pub fn from_homes(home: &str, config_home: Option<String>, state_home: Option<String>) -> (r: Paths)
        ensures
            r.files() == Paths::layout(
                home@,
                match config_home {
                    Some(c) => Some(c@),
                    None => None,
                },
                match state_home {
                    Some(s) => Some(s@),
                    None => None,
                },
            ),
    {
        let config = match config_home {
            Some(c) => c,
            None => join_path(home, ".config", false),
        };
        let state = match state_home {
            Some(s) => s,
            None => join_path(home, ".local/state", false),
        };
        let units = join_path(config.as_str(), "systemd/user", false);
        Paths {
            service: join_path(units.as_str(), "io.github.deinspanjer.codex-cost-meter.service", false),
            timer: join_path(units.as_str(), "io.github.deinspanjer.codex-cost-meter.timer", false),
            status: join_path(state.as_str(), "codex-cost-meter/status.json", false),
        }
    }

    /// The service unit file.
    pub fn service(&self) -> (r: &str)
        ensures
            r@ == self.files().0,
    {
        self.service.as_str()
    }

    /// The timer unit file.
    pub fn timer(&self) -> (r: &str)
        ensures
            r@ == self.files().1,
    {
        self.timer.as_str()
    }

    /// The schedule status file.
    pub fn status(&self) -> (r: &str)
        ensures
            r@ == self.files().2,
    {
        self.status.as_str()
    }
}

/// What `schedule install` reports: the timer unit it installed.
pub fn schedule_install_output(paths: &Paths) -> (r: String)
    ensures
        r@ == "schedule installed: "@ + paths.files().1 + seq!['\n'],
{
    let mut out: Vec<char> = Vec::new();
    extend_str(&mut out, "schedule installed: ");
    extend_str(&mut out, paths.timer());
    out.push('\n');
    string_of(&out)
}


/// The first lines of `schedule status`: what the scheduler reports.
pub fn inspection_text(installed: bool, active: bool) -> (r: String)
    ensures
        r@ == "installed: "@ + crate::schedule::yes_no_text(installed) + seq!['\n'] + "active: "@ + crate::schedule::yes_no_text(active) + seq!['\n'],
{
    let mut out: Vec<char> = Vec::new();
    crate::text::extend_str(&mut out, "installed: ");
    crate::text::extend_str(&mut out, crate::output::yes_no(installed));
    out.push('\n');
    crate::text::extend_str(&mut out, "active: ");
    crate::text::extend_str(&mut out, crate::output::yes_no(active));
    out.push('\n');
    crate::text::string_of(&out)
}

} // verus!
