//! The scheduled command and the definitions that the platform schedulers
//! receive: a systemd service unit, a launchd property list and a Task
//! Scheduler task.
use vstd::prelude::*;

use crate::platform::{
    quote_argument, runtime_argument, runtime_text, systemd_body, systemd_quote, windows_quoted,
    xml_escaped, xml_text,
};
use crate::sort::views;
use crate::text::{decimal, extend_str, push_decimal, string_of};
use crate::words::{join, lemma_join_push};

verus! {

/// What the scheduled update runs with. `reprice_before` is the cutoff as
/// RFC 3339 text.
pub struct InstallOptions {
    pub codex_home: String,
    pub idle_minutes: u64,
    pub limit: usize,
    pub max_runtime_seconds: u64,
    pub max_width: usize,
    pub title_metrics: String,
    pub reprice_before: Option<String>,
}

/// The arguments of the scheduled `schedule run` command, with the Codex
/// home and the title metrics given by `home` and `metrics`.
pub open spec fn run_arguments(o: InstallOptions, home: Seq<char>, metrics: Seq<char>) -> Seq<Seq<char>> {
    seq![
        "schedule"@,
        "run"@,
        "--codex-home"@,
        home,
        "--idle-minutes"@,
        decimal(o.idle_minutes as nat),
        "--limit"@,
        decimal(o.limit as nat),
        "--max-runtime"@,
        runtime_text(o.max_runtime_seconds as nat),
        "--max-width"@,
        decimal(o.max_width as nat),
        "--title-metrics"@,
        metrics,
    ] + match o.reprice_before {
        Some(t) => seq!["--reprice-before"@, t@],
        None => Seq::<Seq<char>>::empty(),
    } + seq!["--apply"@]
}

/// The arguments of the scheduled command, as given.
pub open spec fn scheduled_args(o: InstallOptions) -> Seq<Seq<char>> {
    run_arguments(o, o.codex_home@, o.title_metrics@)
}

fn decimal_text(n: u64) -> (r: String)
    ensures
        r@ == decimal(n as nat),
{
    let mut v: Vec<char> = Vec::new();
    push_decimal(&mut v, n);
    string_of(&v)
}

fn run_argument_list(o: &InstallOptions, home: String, metrics: String) -> (r: Vec<String>)
    ensures
        views(r@) == run_arguments(*o, home@, metrics@),
{
    let mut v: Vec<String> = Vec::new();
    v.push(String::from_str("schedule"));
    v.push(String::from_str("run"));
    v.push(String::from_str("--codex-home"));
    v.push(home);
    v.push(String::from_str("--idle-minutes"));
    v.push(decimal_text(o.idle_minutes));
    v.push(String::from_str("--limit"));
    v.push(decimal_text(o.limit as u64));
    v.push(String::from_str("--max-runtime"));
    v.push(runtime_argument(o.max_runtime_seconds));
    v.push(String::from_str("--max-width"));
    v.push(decimal_text(o.max_width as u64));
    v.push(String::from_str("--title-metrics"));
    v.push(metrics);
    match &o.reprice_before {
        Some(t) => {
            v.push(String::from_str("--reprice-before"));
            v.push(t.clone());
        },
        None => {},
    }
    v.push(String::from_str("--apply"));
    assert(views(v@) =~= run_arguments(*o, home@, metrics@));
    v
}

/// The arguments of the scheduled update command, in order.
pub fn scheduled_arguments(options: &InstallOptions) -> (r: Vec<String>)
    ensures
        views(r@) == scheduled_args(*options),
{
    run_argument_list(options, options.codex_home.clone(), options.title_metrics.clone())
}

/// Joins strings with a separator.
pub fn join_strings(parts: &Vec<String>, sep: &str) -> (r: String)
    ensures
        r@ == join(views(parts@), sep@),
{
    let mut out: Vec<char> = Vec::new();
    let mut i: usize = 0;
    while i < parts.len()
        invariant
            i <= parts.len(),
            out@ == join(views(parts@).take(i as int), sep@),
        decreases parts.len() - i,
    {
        let ghost ws = views(parts@);
        proof {
            lemma_join_push(ws.take(i as int), ws[i as int], sep@);
            assert(ws.take(i as int).push(ws[i as int]) =~= ws.take(i + 1));
        }
        if i > 0 {
            extend_str(&mut out, sep);
        }
        extend_str(&mut out, parts[i].as_str());
        i += 1;
    }
    assert(views(parts@).take(parts.len() as int) =~= views(parts@));
    string_of(&out)
}

/// The systemd service unit that runs the scheduled update once; the
/// executable, the Codex home and the title metrics are quoted as systemd
/// words.
pub open spec fn service_unit_text(o: InstallOptions, executable: Seq<char>) -> Seq<char> {
    let quote = |s: Seq<char>| seq!['"'] + systemd_body(s) + seq!['"'];
    "[Unit]\nDescription=Codex Cost Meter scheduled update\n\n[Service]\nType=oneshot\nExecStart="@
        + join(
        seq![quote(executable)] + run_arguments(o, quote(o.codex_home@), quote(o.title_metrics@)),
        seq![' '],
    ) + "\nStandardOutput=null\nStandardError=null\n"@
}

/// The systemd service unit (see `service_unit_text`).
pub fn service_unit(options: &InstallOptions, executable: &str) -> (r: String)
    ensures
        r@ == service_unit_text(*options, executable@),
{
    let args = run_argument_list(
        options,
        systemd_quote(options.codex_home.as_str()),
        systemd_quote(options.title_metrics.as_str()),
    );
    let mut words: Vec<String> = Vec::new();
    let head = systemd_quote(executable);
    let ghost head_v = head@;
    words.push(head);
    assert(views(words@) =~= seq![head_v] + views(args@).take(0));
    let mut i: usize = 0;
    while i < args.len()
        invariant
            i <= args.len(),
            views(words@) == seq![head_v] + views(args@).take(i as int),
        decreases args.len() - i,
    {
        let ghost before = views(words@);
        words.push(args[i].clone());
        assert(views(words@) =~= before.push(args@[i as int]@));
        assert(views(args@).take(i + 1) =~= views(args@).take(i as int).push(args@[i as int]@));
        assert(views(words@) =~= seq![head_v] + views(args@).take(i + 1));
        i += 1;
    }
    assert(views(args@).take(args.len() as int) =~= views(args@));
    let line = join_strings(&words, " ");
    proof {
        reveal_strlit(" ");
        assert(" "@ =~= seq![' ']);
        let quote = |s: Seq<char>| seq!['"'] + systemd_body(s) + seq!['"'];
        assert(seq![head_v] + views(args@) =~= seq![quote(executable@)] + run_arguments(
            *options,
            quote(options.codex_home@),
            quote(options.title_metrics@),
        ));
    }
    let mut out: Vec<char> = Vec::new();
    extend_str(&mut out, "[Unit]\nDescription=Codex Cost Meter scheduled update\n\n[Service]\nType=oneshot\nExecStart=");
    extend_str(&mut out, line.as_str());
    extend_str(&mut out, "\nStandardOutput=null\nStandardError=null\n");
    assert(out@ =~= "[Unit]\nDescription=Codex Cost Meter scheduled update\n\n[Service]\nType=oneshot\nExecStart="@ + line@ + "\nStandardOutput=null\nStandardError=null\n"@);
    string_of(&out)
}

/// One `<string>` element of the property list's argument array.
pub open spec fn plist_string(s: Seq<char>) -> Seq<char> {
    "    <string>"@ + xml_escaped(s) + "</string>"@
}

/// The `<string>` elements of some arguments.
pub open spec fn plist_strings(args: Seq<Seq<char>>) -> Seq<Seq<char>> {
    args.map_values(|s: Seq<char>| plist_string(s))
}

/// Arguments quoted for the Windows C runtime.
pub open spec fn windows_words(args: Seq<Seq<char>>) -> Seq<Seq<char>> {
    args.map_values(|s: Seq<char>| windows_quoted(s))
}

/// The launchd property list that runs the scheduled update every five
/// minutes, the executable first in its argument array.
pub open spec fn property_list_text(o: InstallOptions, executable: Seq<char>) -> Seq<char> {
    "<?xml version=\"1.0\" encoding=\"UTF-8\"?>\n<!DOCTYPE plist PUBLIC \"-//Apple//DTD PLIST 1.0//EN\" \"http://www.apple.com/DTDs/PropertyList-1.0.dtd\">\n<plist version=\"1.0\">\n<dict>\n  <key>Label</key>\n  <string>io.github.deinspanjer.codex-cost-meter</string>\n  <key>ProgramArguments</key>\n  <array>\n"@
        + join(plist_strings(seq![executable] + scheduled_args(o)), seq!['\n'])
        + "\n  </array>\n  <key>RunAtLoad</key>\n  <true/>\n  <key>StartInterval</key>\n  <integer>300</integer>\n  <key>ProcessType</key>\n  <string>Background</string>\n</dict>\n</plist>\n"@
}

/// The launchd property list (see `property_list_text`).
pub fn property_list(options: &InstallOptions, executable: &str) -> (r: String)
    ensures
        r@ == property_list_text(*options, executable@),
{
    let args = scheduled_arguments(options);
    let ghost all = seq![executable@] + scheduled_args(*options);
    let mut lines: Vec<String> = Vec::new();
    let mut first: Vec<char> = Vec::new();
    extend_str(&mut first, "    <string>");
    extend_str(&mut first, xml_text(executable).as_str());
    extend_str(&mut first, "</string>");
    lines.push(string_of(&first));
    assert(views(lines@) =~= plist_strings(all.take(1)));
    let mut i: usize = 0;
    while i < args.len()
        invariant
            i <= args.len(),
            views(args@) == scheduled_args(*options),
            all == seq![executable@] + scheduled_args(*options),
            views(lines@) == plist_strings(all.take(i + 1)),
        decreases args.len() - i,
    {
        let mut line: Vec<char> = Vec::new();
        extend_str(&mut line, "    <string>");
        extend_str(&mut line, xml_text(args[i].as_str()).as_str());
        extend_str(&mut line, "</string>");
        let ghost before = views(lines@);
        let made = string_of(&line);
        assert(made@ == plist_string(args@[i as int]@));
        lines.push(made);
        assert(views(lines@) =~= before.push(plist_string(args@[i as int]@)));
        assert(all.take(i + 2) =~= all.take(i + 1).push(args@[i as int]@));
        assert(views(lines@) =~= plist_strings(all.take(i + 2)));
        i += 1;
    }
    assert(all.take(args.len() + 1) =~= all);
    let body = join_strings(&lines, "\n");
    let mut out: Vec<char> = Vec::new();
    extend_str(&mut out, "<?xml version=\"1.0\" encoding=\"UTF-8\"?>\n<!DOCTYPE plist PUBLIC \"-//Apple//DTD PLIST 1.0//EN\" \"http://www.apple.com/DTDs/PropertyList-1.0.dtd\">\n<plist version=\"1.0\">\n<dict>\n  <key>Label</key>\n  <string>io.github.deinspanjer.codex-cost-meter</string>\n  <key>ProgramArguments</key>\n  <array>\n");
    extend_str(&mut out, body.as_str());
    extend_str(&mut out, "\n  </array>\n  <key>RunAtLoad</key>\n  <true/>\n  <key>StartInterval</key>\n  <integer>300</integer>\n  <key>ProcessType</key>\n  <string>Background</string>\n</dict>\n</plist>\n");
    proof {
        reveal_strlit("\n");
        assert("\n"@ =~= seq!['\n']);
    }
    assert(out@ =~= "<?xml version=\"1.0\" encoding=\"UTF-8\"?>\n<!DOCTYPE plist PUBLIC \"-//Apple//DTD PLIST 1.0//EN\" \"http://www.apple.com/DTDs/PropertyList-1.0.dtd\">\n<plist version=\"1.0\">\n<dict>\n  <key>Label</key>\n  <string>io.github.deinspanjer.codex-cost-meter</string>\n  <key>ProgramArguments</key>\n  <array>\n"@ + body@ + "\n  </array>\n  <key>RunAtLoad</key>\n  <true/>\n  <key>StartInterval</key>\n  <integer>300</integer>\n  <key>ProcessType</key>\n  <string>Background</string>\n</dict>\n</plist>\n"@);
    string_of(&out)
}

/// The scheduled arguments as one Windows command line.
pub open spec fn windows_arguments(o: InstallOptions) -> Seq<char> {
    join(windows_words(scheduled_args(o)), seq![' '])
}

/// The Task Scheduler definition that runs the scheduled update every five
/// minutes as the user with security identifier `sid`.
pub open spec fn task_xml_text(o: InstallOptions, executable: Seq<char>, sid: Seq<char>) -> Seq<char> {
    "<?xml version=\"1.0\" ?>\n<Task version=\"1.4\" xmlns=\"http://schemas.microsoft.com/windows/2004/02/mit/task\">\n  <Triggers><RegistrationTrigger><Repetition><Interval>PT5M</Interval></Repetition></RegistrationTrigger></Triggers>\n  <Principals><Principal id=\"Author\"><UserId>"@
        + xml_escaped(sid)
        + "</UserId><LogonType>InteractiveToken</LogonType><RunLevel>LeastPrivilege</RunLevel></Principal></Principals>\n  <Settings><MultipleInstancesPolicy>IgnoreNew</MultipleInstancesPolicy><DisallowStartIfOnBatteries>false</DisallowStartIfOnBatteries><StopIfGoingOnBatteries>false</StopIfGoingOnBatteries></Settings>\n  <Actions Context=\"Author\"><Exec><Command>"@
        + xml_escaped(executable) + "</Command><Arguments>"@ + xml_escaped(windows_arguments(o))
        + "</Arguments></Exec></Actions>\n</Task>\n"@
}

/// The Task Scheduler definition (see `task_xml_text`).
pub fn task_xml(options: &InstallOptions, executable: &str, sid: &str) -> (r: String)
    ensures
        r@ == task_xml_text(*options, executable@, sid@),
{
    let args = scheduled_arguments(options);
    let mut quoted: Vec<String> = Vec::new();
    assert(views(quoted@) =~= windows_words(scheduled_args(*options).take(0)));
    let mut i: usize = 0;
    while i < args.len()
        invariant
            i <= args.len(),
            views(args@) == scheduled_args(*options),
            views(quoted@) == windows_words(scheduled_args(*options).take(i as int)),
        decreases args.len() - i,
    {
        let ghost before = views(quoted@);
        let q = quote_argument(args[i].as_str());
        quoted.push(q);
        assert(views(quoted@) =~= before.push(windows_quoted(args@[i as int]@)));
        assert(scheduled_args(*options).take(i + 1) =~= scheduled_args(*options).take(i as int).push(
            args@[i as int]@,
        ));
        assert(views(quoted@) =~= windows_words(scheduled_args(*options).take(i + 1)));
        i += 1;
    }
    assert(scheduled_args(*options).take(args.len() as int) =~= scheduled_args(*options));
    let arguments = join_strings(&quoted, " ");
    proof {
        reveal_strlit(" ");
    }
    let mut out: Vec<char> = Vec::new();
    extend_str(&mut out, "<?xml version=\"1.0\" ?>\n<Task version=\"1.4\" xmlns=\"http://schemas.microsoft.com/windows/2004/02/mit/task\">\n  <Triggers><RegistrationTrigger><Repetition><Interval>PT5M</Interval></Repetition></RegistrationTrigger></Triggers>\n  <Principals><Principal id=\"Author\"><UserId>");
    extend_str(&mut out, xml_text(sid).as_str());
    extend_str(&mut out, "</UserId><LogonType>InteractiveToken</LogonType><RunLevel>LeastPrivilege</RunLevel></Principal></Principals>\n  <Settings><MultipleInstancesPolicy>IgnoreNew</MultipleInstancesPolicy><DisallowStartIfOnBatteries>false</DisallowStartIfOnBatteries><StopIfGoingOnBatteries>false</StopIfGoingOnBatteries></Settings>\n  <Actions Context=\"Author\"><Exec><Command>");
    extend_str(&mut out, xml_text(executable).as_str());
    extend_str(&mut out, "</Command><Arguments>");
    extend_str(&mut out, xml_text(arguments.as_str()).as_str());
    extend_str(&mut out, "</Arguments></Exec></Actions>\n</Task>\n");
    proof {
        assert(" "@ =~= seq![' ']);
    }
    string_of(&out)
}

} // verus!
