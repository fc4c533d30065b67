//! The ChatGPT/Codex desktop application around a switch of `CODEX_HOME`:
//! whether it runs, stopping it first, and starting it again afterwards.
//!
//! The application is driven through operating-system commands; the
//! decisions taken between them are made here, from what each command
//! reported.
use vstd::prelude::*;
use crate::text::{
    trim, trim_chars, chars_of, string_from_chars, has_prefix, starts_with, slice_range, line_end,
    line_end_exec, contains_seq, contains_chars, parse_unsigned, parse_unsigned_exec,
};

verus! {

/// What is remembered about the desktop application across a switch.
#[derive(Clone, Debug, Default)]
pub struct DesktopSwitch {
    /// It was running and was stopped for the switch.
    pub was_running: bool,
    /// Its Start menu application ID, where the platform has one.
    pub app_id: Option<String>,
}

/// The platform the connector runs on, as far as the desktop application
/// is concerned.
#[derive(Clone, Copy, Debug, PartialEq, Eq, Structural)]
pub enum Platform {
    Windows,
    MacOs,
    Other,
}

/// Why handling the desktop application failed.
#[derive(Clone, Debug, PartialEq, Eq)]
pub enum DesktopError {
    /// The application did not quit within the allowed time.
    StopTimedOut,
    /// The application did not start within the allowed time.
    LaunchTimedOut,
    /// No installed application was found.
    NotInstalled,
    /// It was running before the switch, but its application ID is unknown.
    MissingAppId,
    /// Its process ID could not be read.
    MissingPid,
    /// It started without the selected `CODEX_HOME`.
    WrongCodexHome,
    /// It started with a `CODEX_HOME` although none was selected.
    UnexpectedCodexHome,
}

// ---------------------------------------------------------------------------
// `lsappinfo` output

/// The key that starts the process ID line of `lsappinfo`.
pub open spec fn pid_key() -> Seq<char> {
    "\"pid\"="@
}

/// A trimmed line reports a running process: it gives a process ID that is
/// not `[ NULL ]`.
pub open spec fn line_running(l: Seq<char>) -> bool {
    has_prefix(l, pid_key()) && !contains_seq(l, "[ NULL ]"@)
}

/// The process ID a trimmed line gives, if it is a process ID line whose
/// value parses as a `u32`.
pub open spec fn line_pid(l: Seq<char>) -> Option<nat> {
    if has_prefix(l, pid_key()) {
        parse_unsigned(trim(l.subrange(pid_key().len() as int, l.len() as int)), u32::MAX as nat)
    } else {
        None
    }
}

/// Some line at or after `a` reports a running process (`lines().any(..)`).
pub open spec fn running_from(s: Seq<char>, a: int) -> bool
    decreases s.len() + 1 - a,
{
    if a < 0 || a >= s.len() {
        false
    } else {
        let e = line_end(s, a);
        line_running(trim(s.subrange(a, e))) || running_from(s, e + 1)
    }
}

/// The first process ID given by a line at or after `a` (`lines().find_map(..)`).
pub open spec fn pid_from(s: Seq<char>, a: int) -> Option<nat>
    decreases s.len() + 1 - a,
{
    if a < 0 || a >= s.len() {
        None
    } else {
        let e = line_end(s, a);
        match line_pid(trim(s.subrange(a, e))) {
            Some(v) => Some(v),
            None => pid_from(s, e + 1),
        }
    }
}

fn trimmed_line(s: &[char], a: usize, e: usize) -> (t: Vec<char>)
    requires
        a <= e <= s@.len(),
    ensures
        t@ == trim(s@.subrange(a as int, e as int)),
{
    let l = slice_range(s, a, e);
    trim_chars(l.as_slice())
}

/// `lsappinfo` reports a running process for the application; having no
/// window does not matter.
pub fn has_running_process(info: &str) -> (r: bool)
    ensures
        r == running_from(info@, 0),
{
    let s = chars_of(info);
    let n = s.len();
    let key = chars_of("\"pid\"=");
    let null = chars_of("[ NULL ]");
    let mut a: usize = 0;
    while a < n
        invariant
            a <= n + 1,
            n == s@.len(),
            key@ == pid_key(),
            null@ == "[ NULL ]"@,
            running_from(s@, 0) == running_from(s@, a as int),
            s@ == info@,
        decreases n + 1 - a,
    {
        let e = line_end_exec(s.as_slice(), a);
        let t = trimmed_line(s.as_slice(), a, e);
        if starts_with(t.as_slice(), key.as_slice()) && !contains_chars(t.as_slice(), null.as_slice()) {
            return true;
        }
        if e >= n {
            assert(!running_from(s@, e as int + 1));
            return false;
        }
        a = e + 1;
    }
    false
}

/// The process ID that `lsappinfo` reports for the application.
pub fn application_pid(info: &str) -> (r: Option<u32>)
    ensures
        match r {
            Some(v) => pid_from(info@, 0) == Some(v as nat),
            None => pid_from(info@, 0) is None,
        },
{
    let s = chars_of(info);
    let n = s.len();
    let key = chars_of("\"pid\"=");
    let mut a: usize = 0;
    while a < n
        invariant
            a <= n + 1,
            n == s@.len(),
            key@ == pid_key(),
            pid_from(s@, 0) == pid_from(s@, a as int),
            s@ == info@,
        decreases n + 1 - a,
    {
        let e = line_end_exec(s.as_slice(), a);
        let t = trimmed_line(s.as_slice(), a, e);
        if starts_with(t.as_slice(), key.as_slice()) {
            let rest = slice_range(t.as_slice(), key.len(), t.len());
            let value = trim_chars(rest.as_slice());
            match parse_unsigned_exec(value.as_slice(), 0xffff_ffff) {
                Some(v) => {
                    return Some(v as u32);
                },
                None => {},
            }
        }
        if e >= n {
            assert(pid_from(s@, e as int + 1) is None);
            return None;
        }
        a = e + 1;
    }
    None
}

// ---------------------------------------------------------------------------
// Decisions around the switch

/// Where the desktop application may be installed on macOS, in order of
/// preference.
pub const APPLICATION_PATHS: [&'static str; 2] = ["/Applications/ChatGPT.app", "/Applications/Codex.app"];

/// The first candidate location that is an application directory.
pub fn installed_application_path(chatgpt_present: bool, codex_present: bool) -> (r: Option<usize>)
    ensures
        chatgpt_present ==> r == Some(0usize),
        !chatgpt_present && codex_present ==> r == Some(1usize),
        !chatgpt_present && !codex_present ==> r is None,
{
    if chatgpt_present {
        Some(0)
    } else if codex_present {
        Some(1)
    } else {
        None
    }
}

/// What has been observed while stopping the application.
#[derive(Debug)]
pub enum StopObservation {
    /// macOS: no installed application was found.
    NotInstalled,
    /// macOS: `lsappinfo` for the application, before asking it to quit.
    Before(String),
    /// macOS: `lsappinfo` after asking it to quit, and whether the time to
    /// wait (15 seconds) is over.
    AfterQuit(String, bool),
    /// Windows: what the stop script reported.
    Reported(bool, Option<String>),
}

/// The next step of stopping the application.
#[derive(Debug)]
pub enum StopStep {
    /// Done; this is what to remember for the restart.
    Done(DesktopSwitch),
    /// Ask the application to quit, then observe again.
    Quit,
    /// Wait a moment, then observe again.
    Wait,
}

/// An observation made while stopping, as values.
pub enum StopSeen {
    NotInstalled,
    Before(Seq<char>),
    AfterQuit(Seq<char>, bool),
    Reported(bool, Option<Seq<char>>),
}

/// The outcome of a stop step, as values: done (whether it was running,
/// its application ID), ask it to quit, wait, or give up.
pub enum StopOutcome {
    Done(bool, Option<Seq<char>>),
    Quit,
    Wait,
    TimedOut,
}

pub open spec fn opt_chars(o: Option<String>) -> Option<Seq<char>> {
    match o {
        Some(s) => Some(s@),
        None => None,
    }
}

pub open spec fn seen_view(seen: StopObservation) -> StopSeen {
    match seen {
        StopObservation::NotInstalled => StopSeen::NotInstalled,
        StopObservation::Before(info) => StopSeen::Before(info@),
        StopObservation::AfterQuit(info, expired) => StopSeen::AfterQuit(info@, expired),
        StopObservation::Reported(was_running, app_id) => StopSeen::Reported(was_running, opt_chars(app_id)),
    }
}

pub open spec fn stop_view(r: Result<StopStep, DesktopError>) -> StopOutcome {
    match r {
        Ok(StopStep::Done(d)) => StopOutcome::Done(d.was_running, opt_chars(d.app_id)),
        Ok(StopStep::Quit) => StopOutcome::Quit,
        Ok(StopStep::Wait) => StopOutcome::Wait,
        Err(_) => StopOutcome::TimedOut,
    }
}

/// The step of a stop for an observation.
pub open spec fn stop_spec(platform: Platform, seen: StopSeen) -> StopOutcome {
    if platform == Platform::Other {
        StopOutcome::Done(false, None)
    } else {
        match seen {
            StopSeen::NotInstalled => StopOutcome::Done(false, None),
            StopSeen::Before(info) => if running_from(info, 0) {
                StopOutcome::Quit
            } else {
                StopOutcome::Done(false, None)
            },
            StopSeen::AfterQuit(info, expired) => if !running_from(info, 0) {
                StopOutcome::Done(true, None)
            } else if expired {
                StopOutcome::TimedOut
            } else {
                StopOutcome::Wait
            },
            StopSeen::Reported(was_running, app_id) => StopOutcome::Done(was_running, app_id),
        }
    }
}

/// Stops the desktop application before `CODEX_HOME` is switched. On macOS
/// an application that is not installed or not running needs nothing; a
/// running one is asked to quit and watched until it is gone, for at most
/// 15 seconds. On Windows the stop script does it all. Elsewhere there is
/// nothing to stop.
pub fn stop_for_codex_home_switch(platform: Platform, seen: StopObservation) -> (r: Result<StopStep, DesktopError>)
    ensures
        stop_view(r) == stop_spec(platform, seen_view(seen)),
        platform == Platform::Other ==> (r matches Ok(StopStep::Done(d)) && !d.was_running && d.app_id is None),
        platform != Platform::Other ==> match seen {
            StopObservation::NotInstalled => r matches Ok(StopStep::Done(d)) && !d.was_running
                && d.app_id is None,
            StopObservation::Before(info) => if running_from(info@, 0) {
                r matches Ok(StopStep::Quit)
            } else {
                r matches Ok(StopStep::Done(d)) && !d.was_running && d.app_id is None
            },
            StopObservation::AfterQuit(info, expired) => if !running_from(info@, 0) {
                r matches Ok(StopStep::Done(d)) && d.was_running && d.app_id is None
            } else if expired {
                r == Err::<StopStep, DesktopError>(DesktopError::StopTimedOut)
            } else {
                r matches Ok(StopStep::Wait)
            },
            StopObservation::Reported(was_running, app_id) => r matches Ok(StopStep::Done(d))
                && d.was_running == was_running && d.app_id == app_id,
        },
{
    if platform == Platform::Other {
        return Ok(StopStep::Done(DesktopSwitch { was_running: false, app_id: None }));
    }
    match seen {
        StopObservation::NotInstalled => Ok(StopStep::Done(DesktopSwitch { was_running: false, app_id: None })),
        StopObservation::Before(info) => {
            if has_running_process(info.as_str()) {
                Ok(StopStep::Quit)
            } else {
                Ok(StopStep::Done(DesktopSwitch { was_running: false, app_id: None }))
            }
        },
        StopObservation::AfterQuit(info, expired) => {
            if !has_running_process(info.as_str()) {
                Ok(StopStep::Done(DesktopSwitch { was_running: true, app_id: None }))
            } else if expired {
                Err(DesktopError::StopTimedOut)
            } else {
                Ok(StopStep::Wait)
            }
        },
        StopObservation::Reported(was_running, app_id) => Ok(StopStep::Done(DesktopSwitch { was_running, app_id })),
    }
}

/// What has been observed while starting the application.
#[derive(Debug)]
pub enum LaunchObservation {
    /// No installed application was found.
    NotInstalled,
    /// `lsappinfo` after opening it, and whether the time to wait (45
    /// seconds) is over.
    Polled(String, bool),
    /// The environment of its process as `ps` printed it, and the
    /// `CODEX_HOME` selected for it (none when unset).
    Environment(String, Option<String>),
    /// Windows: the launch script succeeded.
    Reported,
}

/// The next step of starting the application.
#[derive(Debug)]
pub enum LaunchStep {
    /// Read the environment of this process, then observe again.
    Inspect(u32),
    /// Wait a moment, then observe again.
    Wait,
    /// Started with the right `CODEX_HOME`.
    Done,
}

/// `ps` shows the process started under the selected `CODEX_HOME` (or,
/// with none selected, without one).
pub open spec fn environment_ok(process: Seq<char>, expected: Option<Seq<char>>) -> Result<(), DesktopError> {
    match expected {
        Some(e) => if contains_seq(process, "CODEX_HOME="@ + e) {
            Ok(())
        } else {
            Err(DesktopError::WrongCodexHome)
        },
        None => if contains_seq(process, "CODEX_HOME="@) {
            Err(DesktopError::UnexpectedCodexHome)
        } else {
            Ok(())
        },
    }
}

/// Checks the environment of the started application.
pub fn verify_application_codex_home(process: &str, expected: &Option<String>) -> (r: Result<(), DesktopError>)
    ensures
        r == environment_ok(process@, match expected {
            Some(e) => Some(e@),
            None => None,
        }),
{
    let p = chars_of(process);
    match expected {
        Some(e) => {
            let mut needle = String::from_str("CODEX_HOME=");
            needle.append(e.as_str());
            let n = chars_of(needle.as_str());
            if contains_chars(p.as_slice(), n.as_slice()) {
                Ok(())
            } else {
                Err(DesktopError::WrongCodexHome)
            }
        },
        None => {
            let n = chars_of("CODEX_HOME=");
            if contains_chars(p.as_slice(), n.as_slice()) {
                Err(DesktopError::UnexpectedCodexHome)
            } else {
                Ok(())
            }
        },
    }
}

/// Starts the desktop application and checks it: on macOS it is opened,
/// watched until `lsappinfo` reports it running (at most 45 seconds), and
/// its process must carry the selected `CODEX_HOME`; on Windows the launch
/// script does it all.
pub fn launch_and_verify(seen: LaunchObservation) -> (r: Result<LaunchStep, DesktopError>)
    ensures
        match seen {
            LaunchObservation::NotInstalled => r == Err::<LaunchStep, DesktopError>(DesktopError::NotInstalled),
            LaunchObservation::Polled(info, expired) => if running_from(info@, 0) {
                match pid_from(info@, 0) {
                    Some(pid) => r matches Ok(LaunchStep::Inspect(p)) && p == pid,
                    None => r == Err::<LaunchStep, DesktopError>(DesktopError::MissingPid),
                }
            } else if expired {
                r == Err::<LaunchStep, DesktopError>(DesktopError::LaunchTimedOut)
            } else {
                r matches Ok(LaunchStep::Wait)
            },
            LaunchObservation::Environment(process, expected) => match environment_ok(process@, match expected {
                Some(e) => Some(e@),
                None => None,
            }) {
                Ok(_) => r matches Ok(LaunchStep::Done),
                Err(e) => r == Err::<LaunchStep, DesktopError>(e),
            },
            LaunchObservation::Reported => r matches Ok(LaunchStep::Done),
        },
{
    match seen {
        LaunchObservation::NotInstalled => Err(DesktopError::NotInstalled),
        LaunchObservation::Polled(info, expired) => {
            if has_running_process(info.as_str()) {
                match application_pid(info.as_str()) {
                    Some(pid) => Ok(LaunchStep::Inspect(pid)),
                    None => Err(DesktopError::MissingPid),
                }
            } else if expired {
                Err(DesktopError::LaunchTimedOut)
            } else {
                Ok(LaunchStep::Wait)
            }
        },
        LaunchObservation::Environment(process, expected) => {
            match verify_application_codex_home(process.as_str(), &expected) {
                Ok(()) => Ok(LaunchStep::Done),
                Err(e) => Err(e),
            }
        },
        LaunchObservation::Reported => Ok(LaunchStep::Done),
    }
}

/// How to bring the application back after the switch.
#[derive(Clone, Debug, PartialEq, Eq)]
pub enum RestartPlan {
    /// It was not running (or the platform has none): nothing to do; the
    /// switch reports that it did not restart.
    NotNeeded,
    /// Windows: run the restart script for this application ID.
    RestartApp(String),
    /// macOS: launch and verify it as [`launch_and_verify`] does.
    Launch,
}

/// A restart plan as values.
pub enum RestartOutcome {
    NotNeeded,
    RestartApp(Seq<char>),
    Launch,
    MissingAppId,
}

pub open spec fn restart_view(r: Result<RestartPlan, DesktopError>) -> RestartOutcome {
    match r {
        Ok(RestartPlan::NotNeeded) => RestartOutcome::NotNeeded,
        Ok(RestartPlan::RestartApp(id)) => RestartOutcome::RestartApp(id@),
        Ok(RestartPlan::Launch) => RestartOutcome::Launch,
        Err(_) => RestartOutcome::MissingAppId,
    }
}

/// The restart for what the stop remembered.
pub open spec fn restart_spec(was_running: bool, app_id: Option<Seq<char>>, platform: Platform) -> RestartOutcome {
    if !was_running || platform == Platform::Other {
        RestartOutcome::NotNeeded
    } else if platform == Platform::MacOs {
        RestartOutcome::Launch
    } else {
        match app_id {
            Some(id) => RestartOutcome::RestartApp(id),
            None => RestartOutcome::MissingAppId,
        }
    }
}

/// What a finished stop remembered (whether the application ran) and the
/// restart it then leads to; none while the stop is not finished.
pub open spec fn restart_after(platform: Platform, seen: StopSeen) -> Option<(bool, RestartOutcome)> {
    match stop_spec(platform, seen) {
        StopOutcome::Done(w, id) => Some((w, restart_spec(w, id, platform))),
        _ => None,
    }
}

/// Stopping and then restarting restores the running state seen before the
/// stop. A stop that finishes remembers whether the application ran, and
/// the restart brings it back exactly when it did: on macOS an application
/// not seen running is left alone, one seen running is asked to quit, the
/// stop finishes only once it is gone (remembering that it ran), and it is
/// launched again; on Windows the script's report decides, and the
/// application is restarted under its ID.
pub proof fn lemma_restart_restores_running_state(platform: Platform, before: Seq<char>, seen: StopSeen)
    ensures
        restart_after(platform, seen) matches Some((w, plan)) ==> ((plan == RestartOutcome::NotNeeded) <==> (!w
            || platform == Platform::Other)),
        platform == Platform::MacOs ==> stop_spec(platform, StopSeen::Before(before)) == (if running_from(before, 0) {
            StopOutcome::Quit
        } else {
            StopOutcome::Done(false, None)
        }),
        platform == Platform::MacOs ==> (restart_after(platform, seen) matches Some((w, plan)) ==> plan == (if w {
            RestartOutcome::Launch
        } else {
            RestartOutcome::NotNeeded
        })),
        platform != Platform::Other ==> (seen is AfterQuit ==> (restart_after(platform, seen) matches Some((w, _))
            ==> w)),
        platform == Platform::Windows ==> (seen matches StopSeen::Reported(w, Some(id)) ==> (w ==> restart_after(
            platform,
            seen,
        ) == Some((true, RestartOutcome::RestartApp(id))))),
{
}

impl DesktopSwitch {
    /// Restarts the application when it was running before the switch.
    pub fn restart_and_verify(&self, platform: Platform) -> (r: Result<RestartPlan, DesktopError>)
        ensures
            restart_view(r) == restart_spec(self.was_running, opt_chars(self.app_id), platform),
            (!self.was_running || platform == Platform::Other) ==> r == Ok::<RestartPlan, DesktopError>(
                RestartPlan::NotNeeded,
            ),
            self.was_running && platform == Platform::MacOs ==> r == Ok::<RestartPlan, DesktopError>(
                RestartPlan::Launch,
            ),
            self.was_running && platform == Platform::Windows ==> match self.app_id {
                Some(id) => r matches Ok(RestartPlan::RestartApp(a)) && a@ == id@,
                None => r == Err::<RestartPlan, DesktopError>(DesktopError::MissingAppId),
            },
    {
        if !self.was_running || platform == Platform::Other {
            return Ok(RestartPlan::NotNeeded);
        }
        if platform == Platform::MacOs {
            return Ok(RestartPlan::Launch);
        }
        match &self.app_id {
            Some(id) => Ok(RestartPlan::RestartApp(id.clone())),
            None => Err(DesktopError::MissingAppId),
        }
    }
}

/// The detail of a failed command: its trimmed stderr, or its exit status
/// when that is blank.
pub fn command_error(stderr: &str, status: &str) -> (r: String)
    ensures
        trim(stderr@).len() > 0 ==> r@ == trim(stderr@),
        trim(stderr@).len() == 0 ==> r@ == "exit="@ + status@,
{
    let t = trim_chars(chars_of(stderr).as_slice());
    if t.len() > 0 {
        string_from_chars(t.as_slice())
    } else {
        let mut r = String::from_str("exit=");
        r.append(status);
        r
    }
}

} // verus!
