//! Inspection of the `codex` command found on the process `PATH`: its
//! version and whether it offers `app-server`.
use vstd::prelude::*;
use crate::text::{trim, trim_chars, chars_of, string_from_chars};

verus! {

/// The command that is looked up on `PATH`.
pub const COMMAND: &'static str = "codex";

/// What inspecting the command found.
#[derive(Clone, Debug)]
pub struct CliInspection {
    pub version: Option<String>,
    pub app_server_supported: bool,
    pub error: Option<String>,
}

/// The command could not be used at all.
#[derive(Clone, Debug)]
pub struct CommandError {
    pub reason: String,
}

/// How one run of the command ended.
#[derive(Clone, Debug)]
pub enum CommandRun {
    /// The process could not be started; the operating system's message.
    SpawnFailed(String),
    /// The process ran: whether it succeeded, its exit status as printed,
    /// and its output decoded leniently as UTF-8.
    Exited { success: bool, status: String, stdout: String, stderr: String },
}

/// The version text: trimmed stdout, or trimmed stderr when stdout is
/// blank; none when both are blank.
pub open spec fn version_text(stdout: Seq<char>, stderr: Seq<char>) -> Option<Seq<char>> {
    let t = if trim(stdout).len() == 0 { trim(stderr) } else { trim(stdout) };
    if t.len() == 0 { None } else { Some(t) }
}

fn own(s: &str) -> (r: String)
    ensures
        r@ == s@,
{
    String::from_str(s)
}

fn joined(prefix: &str, detail: &str) -> (r: String)
    ensures
        r@ == prefix@ + detail@,
{
    let mut r = String::from_str(prefix);
    r.append(detail);
    r
}

/// The outcome of the `codex --version` run: the reason the command is
/// unusable, or the version text read from it.
pub open spec fn version_outcome(run: CommandRun) -> Result<Option<Seq<char>>, Seq<char>> {
    match run {
        CommandRun::SpawnFailed(e) => Err("执行 codex --version 失败："@ + e@),
        CommandRun::Exited { success, status, stdout, stderr } => if !success {
            Err("codex --version 退出状态为 "@ + status@)
        } else {
            Ok(version_text(stdout@, stderr@))
        },
    }
}

/// An optional string whose view is the given optional text.
pub open spec fn opt_text_is(v: Option<String>, t: Option<Seq<char>>) -> bool {
    match (v, t) {
        (Some(a), Some(b)) => a@ == b,
        (None, None) => true,
        _ => false,
    }
}

/// Decides on the run of `codex --version`: a run that could not start or
/// that failed makes the command unusable; otherwise the version text is read.
pub fn inspect_version(run: &CommandRun) -> (r: Result<Option<String>, CommandError>)
    ensures
        match version_outcome(*run) {
            Err(reason) => r matches Err(err) && err.reason@ == reason,
            Ok(t) => r matches Ok(v) && opt_text_is(v, t),
        },
{
    match run {
        CommandRun::SpawnFailed(e) => Err(CommandError { reason: joined("执行 codex --version 失败：", e.as_str()) }),
        CommandRun::Exited { success, status, stdout, stderr } => {
            if !*success {
                return Err(CommandError { reason: joined("codex --version 退出状态为 ", status.as_str()) });
            }
            let out = trim_chars(chars_of(stdout.as_str()).as_slice());
            let text = if out.len() == 0 {
                trim_chars(chars_of(stderr.as_str()).as_slice())
            } else {
                out
            };
            if text.len() == 0 {
                Ok(None)
            } else {
                Ok(Some(string_from_chars(text.as_slice())))
            }
        },
    }
}

/// Inspects the command from its two runs: `codex --version` (which must
/// work) and `codex app-server --help` (whose failure is reported, not
/// fatal). The second run is made only when the first one is accepted by
/// [`inspect_version`].
pub fn inspect(version_run: &CommandRun, app_server_run: &CommandRun) -> (r: Result<CliInspection, CommandError>)
    ensures
        match version_outcome(*version_run) {
            Err(reason) => r matches Err(err) && err.reason@ == reason,
            Ok(t) => r matches Ok(ins) && opt_text_is(ins.version, t) && match *app_server_run {
                CommandRun::SpawnFailed(e) => !ins.app_server_supported
                    && (ins.error matches Some(m) && m@ == "验证 codex app-server 失败："@ + e@),
                CommandRun::Exited { success, status, .. } => if success {
                    ins.app_server_supported && ins.error is None
                } else {
                    !ins.app_server_supported
                        && (ins.error matches Some(m) && m@ == "codex app-server --help 退出状态为 "@ + status@)
                },
            },
        },
{
    let version = match inspect_version(version_run) {
        Ok(v) => v,
        Err(e) => return Err(e),
    };
    match app_server_run {
        CommandRun::Exited { success, status, .. } => {
            if *success {
                Ok(CliInspection { version, app_server_supported: true, error: None })
            } else {
                Ok(CliInspection {
                    version,
                    app_server_supported: false,
                    error: Some(joined("codex app-server --help 退出状态为 ", status.as_str())),
                })
            }
        },
        CommandRun::SpawnFailed(e) => Ok(CliInspection {
            version,
            app_server_supported: false,
            error: Some(joined("验证 codex app-server 失败：", e.as_str())),
        }),
    }
}

/// How the command is reported in the connector's status: always found
/// through the process `PATH` under its own name, with no other path
/// checked; then the inspection's findings, or the error that made the
/// command unusable.
#[derive(Clone, Debug)]
pub struct CliStatus {
    pub mode: &'static str,
    pub resolved: &'static str,
    pub source: &'static str,
    pub checked_paths: Vec<String>,
    pub version: Option<String>,
    pub app_server_supported: Option<bool>,
    pub inspection_error: Option<String>,
    pub error: Option<String>,
}

/// The fixed part of every status: looked up on `PATH` as `codex`.
pub open spec fn path_lookup(s: CliStatus) -> bool {
    s.mode@ == "path"@ && s.resolved@ == COMMAND@ && s.source@ == "process_path"@ && s.checked_paths@.len() == 0
}

impl CliInspection {
    /// The status of a usable command.
    pub fn status_value(&self) -> (r: CliStatus)
        ensures
            path_lookup(r),
            r.version == self.version,
            r.app_server_supported == Some(self.app_server_supported),
            r.inspection_error == self.error,
            r.error is None,
    {
        CliStatus {
            mode: "path",
            resolved: COMMAND,
            source: "process_path",
            checked_paths: Vec::new(),
            version: self.version.clone(),
            app_server_supported: Some(self.app_server_supported),
            inspection_error: self.error.clone(),
            error: None,
        }
    }
}

impl CommandError {
    /// The status of an unusable command: nothing inspected, and the
    /// error's message.
    pub fn status_value(&self) -> (r: CliStatus)
        ensures
            path_lookup(r),
            r.version is None,
            r.app_server_supported is None,
            r.inspection_error is None,
            r.error matches Some(m) && m@ == "无法通过当前进程 PATH 执行 Codex CLI 命令“codex”（"@ + self.reason@
                + "）。请确认宿主已向连接器注入当前用户 PATH"@,
    {
        CliStatus {
            mode: "path",
            resolved: COMMAND,
            source: "process_path",
            checked_paths: Vec::new(),
            version: None,
            app_server_supported: None,
            inspection_error: None,
            error: Some(self.message()),
        }
    }

    /// The error's data: the command that was run and why it is unusable.
    pub fn data_value(&self) -> (r: (&'static str, String))
        ensures
            r.0@ == COMMAND@,
            r.1@ == self.reason@,
    {
        (COMMAND, self.reason.clone())
    }

    /// The message shown for an unusable command.
    pub fn message(&self) -> (r: String)
        ensures
            r@ == "无法通过当前进程 PATH 执行 Codex CLI 命令“codex”（"@ + self.reason@
                + "）。请确认宿主已向连接器注入当前用户 PATH"@,
    {
        let mut r = own("无法通过当前进程 PATH 执行 Codex CLI 命令“codex”（");
        r.append(self.reason.as_str());
        r.append("）。请确认宿主已向连接器注入当前用户 PATH");
        r
    }
}

} // verus!
