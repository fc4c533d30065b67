//! The connector's local HTTP service: startup readiness, the decision to
//! set Codex up, management authorisation, reading a request head, and
//! routing.
use vstd::prelude::*;
use crate::app_server::{words, split_words};
use crate::text::{
    trim, trim_chars, chars_of, chars_eq, has_prefix, starts_with, slice_range, line_end, line_end_exec,
    index_of, find_char, eq_ignore_ascii_case, eq_ignore_ascii_case_exec, parse_unsigned, parse_unsigned_exec,
    string_from_chars,
};

verus! {

// ---------------------------------------------------------------------------
// Startup readiness

/// Where the connector's own initialisation stands.
#[derive(Clone, Copy, Debug, PartialEq, Eq, Structural)]
pub enum StartupPhase {
    Initializing,
    Ready,
    Failed,
}

/// The connector's initialisation as last recorded.
#[derive(Clone, Debug)]
pub struct StartupSnapshot {
    pub phase: StartupPhase,
    pub message: String,
    pub error: Option<String>,
    pub started_at: String,
    pub completed_at: Option<String>,
}

impl StartupSnapshot {
    /// Initialisation has begun at `now`.
    pub fn initializing(now: String) -> (r: Self)
        ensures
            r.phase == StartupPhase::Initializing,
            r.message@ == "正在初始化 Codex 远程连接器本机环境"@,
            r.error is None,
            r.started_at == now,
            r.completed_at is None,
    {
        StartupSnapshot {
            phase: StartupPhase::Initializing,
            message: String::from_str("正在初始化 Codex 远程连接器本机环境"),
            error: None,
            started_at: now,
            completed_at: None,
        }
    }

    /// The state shown when the recorded one cannot be read.
    pub fn unavailable(now: String) -> (r: Self)
        ensures
            r.phase == StartupPhase::Failed,
            r.message@ == "Codex 远程连接器初始化状态不可用"@,
            r.error matches Some(e) && e@ == "startup readiness lock poisoned"@,
            r.completed_at == Some(now),
    {
        StartupSnapshot {
            phase: StartupPhase::Failed,
            message: String::from_str("Codex 远程连接器初始化状态不可用"),
            error: Some(String::from_str("startup readiness lock poisoned")),
            started_at: now.clone(),
            completed_at: Some(now),
        }
    }

    /// Initialisation succeeded at `now`.
    pub fn ready(&mut self, now: String)
        ensures
            final(self).phase == StartupPhase::Ready,
            final(self).message@ == "Codex 远程连接器已就绪"@,
            final(self).error is None,
            final(self).started_at == old(self).started_at,
            final(self).completed_at == Some(now),
    {
        self.phase = StartupPhase::Ready;
        self.message = String::from_str("Codex 远程连接器已就绪");
        self.error = None;
        self.completed_at = Some(now);
    }

    /// Initialisation failed at `now`, for this reason.
    pub fn fail(&mut self, error: String, now: String)
        ensures
            final(self).phase == StartupPhase::Failed,
            final(self).message@ == "Codex 远程连接器初始化失败"@,
            final(self).error == Some(error),
            final(self).started_at == old(self).started_at,
            final(self).completed_at == Some(now),
    {
        self.phase = StartupPhase::Failed;
        self.message = String::from_str("Codex 远程连接器初始化失败");
        self.error = Some(error);
        self.completed_at = Some(now);
    }

    pub fn is_ready(&self) -> (r: bool)
        ensures
            r == (self.phase == StartupPhase::Ready),
    {
        self.phase == StartupPhase::Ready
    }

    /// The phase's name in status reports.
    pub fn status_name(&self) -> (r: &'static str)
        ensures
            self.phase == StartupPhase::Initializing ==> r@ == "initializing"@,
            self.phase == StartupPhase::Ready ==> r@ == "ready"@,
            self.phase == StartupPhase::Failed ==> r@ == "failed"@,
    {
        match self.phase {
            StartupPhase::Initializing => "initializing",
            StartupPhase::Ready => "ready",
            StartupPhase::Failed => "failed",
        }
    }

    /// The error reported while the connector is not ready: its code, and
    /// the recorded error (or, without one, the message).
    pub fn startup_error(&self) -> (r: Option<(&'static str, String)>)
        ensures
            self.phase == StartupPhase::Ready ==> r is None,
            self.phase == StartupPhase::Failed ==> (r matches Some((code, m)) && code@
                == "connector_initialization_failed"@ && m@ == (match self.error {
                Some(e) => e@,
                None => self.message@,
            })),
            self.phase == StartupPhase::Initializing ==> (r matches Some((code, m)) && code@
                == "connector_initializing"@ && m@ == (match self.error {
                Some(e) => e@,
                None => self.message@,
            })),
    {
        if self.phase == StartupPhase::Ready {
            return None;
        }
        let code = if self.phase == StartupPhase::Failed {
            "connector_initialization_failed"
        } else {
            "connector_initializing"
        };
        let m = match &self.error {
            Some(e) => e.clone(),
            None => self.message.clone(),
        };
        Some((code, m))
    }
}

// ---------------------------------------------------------------------------
// Setting Codex up

/// The recorded state of the automatic Codex set-up.
#[derive(Clone, Debug)]
pub struct SetupStatus {
    pub status: String,
    pub workspace_id: Option<u64>,
    pub message: String,
    pub error: Option<String>,
    pub retryable: bool,
    pub automatic_retry_count: u64,
}

/// What to do about Codex's set-up.
#[derive(Clone, Copy, Debug, PartialEq, Eq, Structural)]
pub enum SetupReadinessDecision {
    Ready,
    Start(u64),
    Initializing,
    Failed,
    NeedsWorkspace,
}

/// The decision, from the set-up state, the current workspace (and whether
/// a credential covers it), and whether the CLI is usable already.
pub open spec fn setup_decision(
    status: Seq<char>,
    setup_workspace: Option<u64>,
    retries: u64,
    current_workspace_id: Option<u64>,
    credential_available: bool,
    cli_ready: bool,
) -> SetupReadinessDecision {
    if cli_ready {
        SetupReadinessDecision::Ready
    } else if status == "running"@ {
        SetupReadinessDecision::Initializing
    } else if current_workspace_id is None || !credential_available {
        SetupReadinessDecision::NeedsWorkspace
    } else {
        let w = current_workspace_id->Some_0;
        if status == "failed"@ && setup_workspace == Some(w) {
            SetupReadinessDecision::Failed
        } else if status == "needs_retry"@ || (status == "interrupted"@ && retries <= 1) {
            SetupReadinessDecision::Start(w)
        } else if status == "interrupted"@ {
            SetupReadinessDecision::Failed
        } else {
            SetupReadinessDecision::Start(w)
        }
    }
}

/// The set-up decision in every case: a usable CLI is ready; otherwise a
/// running set-up is initialising; without a current workspace that a
/// credential covers, a workspace is needed; for a covered current
/// workspace `w`, a set-up marked for retry is started for `w` whatever the
/// retry count, an interrupted one is started again for its first
/// automatic retry only and reported as failed after that, a failure for
/// `w` is reported, and anything else starts the set-up for `w`.
pub proof fn lemma_setup_decision(
    status: Seq<char>,
    setup_workspace: Option<u64>,
    retries: u64,
    current_workspace_id: Option<u64>,
    credential_available: bool,
    cli_ready: bool,
)
    ensures
        ({
            let d = setup_decision(status, setup_workspace, retries, current_workspace_id, credential_available, cli_ready);
            &&& cli_ready ==> d == SetupReadinessDecision::Ready
            &&& !cli_ready && status == "running"@ ==> d == SetupReadinessDecision::Initializing
            &&& !cli_ready && status != "running"@ && (current_workspace_id is None || !credential_available)
                ==> d == SetupReadinessDecision::NeedsWorkspace
            &&& current_workspace_id is Some && !cli_ready && credential_available ==> ({
                let w = current_workspace_id->Some_0;
                &&& status == "needs_retry"@ ==> d == SetupReadinessDecision::Start(w)
                &&& status == "interrupted"@ && retries <= 1 ==> d == SetupReadinessDecision::Start(w)
                &&& status == "interrupted"@ && retries > 1 ==> d == SetupReadinessDecision::Failed
                &&& status == "failed"@ && setup_workspace == Some(w) ==> d == SetupReadinessDecision::Failed
                &&& status == "failed"@ && setup_workspace != Some(w) ==> d == SetupReadinessDecision::Start(w)
                &&& status != "running"@ && status != "failed"@ && status != "interrupted"@
                    ==> d == SetupReadinessDecision::Start(w)
            })
        }),
{
    reveal_strlit("running");
    reveal_strlit("needs_retry");
    reveal_strlit("interrupted");
    reveal_strlit("failed");
    assert("needs_retry"@.len() == 11 && "interrupted"@.len() == 11 && "running"@.len() == 7 && "failed"@.len() == 6);
    assert("needs_retry"@[0] != "interrupted"@[0]);
}

fn text_is(s: &String, lit: &str) -> (r: bool)
    ensures
        r == (s@ == lit@),
{
    let a = chars_of(s.as_str());
    let b = chars_of(lit);
    chars_eq(a.as_slice(), b.as_slice())
}

/// Decides whether Codex is ready, being set up, must be set up for the
/// current workspace, failed for it, or needs a workspace first. A setup
/// interrupted once is retried automatically; interrupted again, it is
/// reported as failed.
pub fn decide_setup_readiness(
    setup: &SetupStatus,
    current_workspace_id: Option<u64>,
    current_workspace_credential_available: bool,
    cli_ready: bool,
) -> (r: SetupReadinessDecision)
    ensures
        r == setup_decision(
            setup.status@,
            setup.workspace_id,
            setup.automatic_retry_count,
            current_workspace_id,
            current_workspace_credential_available,
            cli_ready,
        ),
{
    if cli_ready {
        return SetupReadinessDecision::Ready;
    }
    if text_is(&setup.status, "running") {
        return SetupReadinessDecision::Initializing;
    }
    let workspace_id = match current_workspace_id {
        Some(w) => {
            if !current_workspace_credential_available {
                return SetupReadinessDecision::NeedsWorkspace;
            }
            w
        },
        None => return SetupReadinessDecision::NeedsWorkspace,
    };
    if text_is(&setup.status, "failed") && setup.workspace_id == Some(workspace_id) {
        return SetupReadinessDecision::Failed;
    }
    let interrupted = text_is(&setup.status, "interrupted");
    if text_is(&setup.status, "needs_retry") || (interrupted && setup.automatic_retry_count <= 1) {
        return SetupReadinessDecision::Start(workspace_id);
    }
    if interrupted {
        return SetupReadinessDecision::Failed;
    }
    SetupReadinessDecision::Start(workspace_id)
}

/// A credential of the account covers the current workspace.
pub fn workspace_credential_available(current_workspace_id: Option<u64>, credential_workspace_ids: &Vec<u64>) -> (r: bool)
    ensures
        r == (current_workspace_id matches Some(w) && credential_workspace_ids@.contains(w)),
{
    let w = match current_workspace_id {
        Some(w) => w,
        None => return false,
    };
    let n = credential_workspace_ids.len();
    let mut i: usize = 0;
    while i < n
        invariant
            i <= n,
            n == credential_workspace_ids@.len(),
            forall|k: int| 0 <= k < i ==> credential_workspace_ids@[k] != w,
            current_workspace_id == Some(w),
        decreases n - i,
    {
        if credential_workspace_ids[i] == w {
            assert(credential_workspace_ids@[i as int] == w);
            return true;
        }
        i = i + 1;
    }
    false
}

/// The readiness label and message reported for a decision; a failure
/// shows the set-up's own error when it has one.
pub fn readiness_report(decision: SetupReadinessDecision, setup_error: &Option<String>) -> (r: (&'static str, String))
    ensures
        decision == SetupReadinessDecision::Ready ==> r.0@ == "ready"@ && r.1@ == "Codex CLI 与 app-server 能力已就绪"@,
        decision is Start || decision == SetupReadinessDecision::Initializing ==> r.0@ == "initializing"@ && r.1@
            == "正在自动安装并验证 Codex CLI"@,
        decision == SetupReadinessDecision::Failed ==> r.0@ == "failed"@ && r.1@ == (match setup_error {
            Some(e) => e@,
            None => "Codex 初始化失败，请检查失败步骤后重试"@,
        }),
        decision == SetupReadinessDecision::NeedsWorkspace ==> r.0@ == "needs_workspace"@ && r.1@
            == "当前百积木账号没有明确且已授权的工作区，请先完成工作区授权"@,
{
    match decision {
        SetupReadinessDecision::Ready => ("ready", String::from_str("Codex CLI 与 app-server 能力已就绪")),
        SetupReadinessDecision::Start(_) => ("initializing", String::from_str("正在自动安装并验证 Codex CLI")),
        SetupReadinessDecision::Initializing => ("initializing", String::from_str("正在自动安装并验证 Codex CLI")),
        SetupReadinessDecision::Failed => {
            let m = match setup_error {
                Some(e) => e.clone(),
                None => String::from_str("Codex 初始化失败，请检查失败步骤后重试"),
            };
            ("failed", m)
        },
        SetupReadinessDecision::NeedsWorkspace => (
            "needs_workspace",
            String::from_str("当前百积木账号没有明确且已授权的工作区，请先完成工作区授权"),
        ),
    }
}

/// What an invocation does when the CLI is not usable.
#[derive(Clone, Debug, PartialEq, Eq)]
pub enum CliGate {
    /// The set-up for this workspace failed: report it (its error, or a
    /// generic message).
    SetupFailed(String),
    /// Start the set-up and ask the caller to retry later.
    StartSetup,
}

/// Decides on an invocation while the CLI is not usable.
pub fn cli_unavailable(setup: &SetupStatus, workspace_id: u64) -> (r: CliGate)
    ensures
        setup.status@ == "failed"@ && setup.workspace_id == Some(workspace_id) ==> (r matches CliGate::SetupFailed(
            m,
        ) && m@ == (match setup.error {
            Some(e) => e@,
            None => "Codex CLI 初始化失败"@,
        })),
        !(setup.status@ == "failed"@ && setup.workspace_id == Some(workspace_id)) ==> r == CliGate::StartSetup,
{
    if text_is(&setup.status, "failed") && setup.workspace_id == Some(workspace_id) {
        let m = match &setup.error {
            Some(e) => e.clone(),
            None => String::from_str("Codex CLI 初始化失败"),
        };
        return CliGate::SetupFailed(m);
    }
    CliGate::StartSetup
}

// ---------------------------------------------------------------------------
// Management authorisation

/// The bearer token an `Authorization` header carries (empty when there is
/// no header or it is not a bearer one).
pub open spec fn bearer_token(header: Option<Seq<char>>) -> Seq<char> {
    match header {
        Some(h) => if has_prefix(h, "Bearer "@) {
            h.subrange("Bearer "@.len() as int, h.len() as int)
        } else {
            Seq::empty()
        },
        None => Seq::empty(),
    }
}

/// Whether the request carries the management token. The bytes are
/// compared in full whatever they hold, so the time taken does not tell
/// how much of the token matched.
pub fn management_authorized(header: Option<&str>, expected: &str) -> (r: bool)
    ensures
        r == (bearer_token(match header {
            Some(h) => Some(h@),
            None => None,
        }) == expected@),
{
    let provided: Vec<char> = match header {
        Some(h) => {
            let cs = chars_of(h);
            let prefix = chars_of("Bearer ");
            if starts_with(cs.as_slice(), prefix.as_slice()) {
                slice_range(cs.as_slice(), prefix.len(), cs.len())
            } else {
                Vec::new()
            }
        },
        None => Vec::new(),
    };
    let e = chars_of(expected);
    if provided.len() != e.len() {
        return false;
    }
    let n = e.len();
    let mut difference = false;
    let mut i: usize = 0;
    while i < n
        invariant
            i <= n,
            n == e@.len(),
            n == provided@.len(),
            difference == exists|k: int| 0 <= k < i && provided@[k] != e@[k],
        decreases n - i,
    {
        difference = difference || provided[i] != e[i];
        i = i + 1;
    }
    if !difference {
        assert(provided@ =~= e@);
    }
    !difference
}

// ---------------------------------------------------------------------------
// The request head

/// The blank line that ends the head is found at `k`.
pub open spec fn head_end_at(b: Seq<u8>, k: int) -> bool {
    0 <= k && k + 4 <= b.len() && b[k] == 13u8 && b[k + 1] == 10u8 && b[k + 2] == 13u8 && b[k + 3] == 10u8
}

/// Where the head ends: the first `\r\n\r\n`.
pub fn find_headers_end(buffer: &[u8]) -> (r: Option<usize>)
    ensures
        match r {
            Some(k) => head_end_at(buffer@, k as int) && forall|j: int| 0 <= j < k ==> !#[trigger] head_end_at(buffer@, j),
            None => forall|j: int| !#[trigger] head_end_at(buffer@, j),
        },
{
    let n = buffer.len();
    if n < 4 {
        return None;
    }
    let mut k: usize = 0;
    while k <= n - 4
        invariant
            n == buffer@.len(),
            n >= 4,
            k <= n - 3,
            forall|j: int| 0 <= j < k ==> !#[trigger] head_end_at(buffer@, j),
        decreases n - k,
    {
        if buffer[k] == 13 && buffer[k + 1] == 10 && buffer[k + 2] == 13 && buffer[k + 3] == 10 {
            return Some(k);
        }
        k = k + 1;
    }
    None
}

/// The value of the first line at or after `a` whose name before the first
/// `:` is `name`, ASCII case ignored; trimmed.
pub open spec fn header_from(s: Seq<char>, a: int, name: Seq<char>) -> Option<Seq<char>>
    decreases s.len() + 1 - a,
{
    if a < 0 || a >= s.len() {
        None
    } else {
        let e = line_end(s, a);
        let l = s.subrange(a, e);
        let k = index_of(l, ':');
        if k < l.len() && eq_ignore_ascii_case(l.subrange(0, k), name) {
            Some(trim(l.subrange(k + 1, l.len() as int)))
        } else {
            header_from(s, e + 1, name)
        }
    }
}

/// The head of a request, as the connector reads it.
#[derive(Clone, Debug)]
pub struct HttpHead {
    pub method: String,
    pub path: String,
    pub authorization: Option<String>,
    pub workspace_id: Option<u64>,
    pub content_length: usize,
}

/// The workspace header does not hold an integer.
#[derive(Clone, Copy, Debug, PartialEq, Eq)]
pub struct InvalidWorkspaceHeader;

fn header_value(s: &[char], start: usize, name: &[char]) -> (r: Option<Vec<char>>)
    requires
        start <= s@.len() + 1,
    ensures
        match r {
            Some(v) => header_from(s@, start as int, name@) == Some(v@),
            None => header_from(s@, start as int, name@) is None,
        },
{
    let n = s.len();
    let mut a = start;
    while a < n
        invariant
            a <= n + 1,
            n == s@.len(),
            header_from(s@, start as int, name@) == header_from(s@, a as int, name@),
        decreases n + 1 - a,
    {
        let e = line_end_exec(s, a);
        let l = slice_range(s, a, e);
        match find_char(l.as_slice(), ':') {
            Some(k) => {
                let key = slice_range(l.as_slice(), 0, k);
                if eq_ignore_ascii_case_exec(key.as_slice(), name) {
                    let rest = slice_range(l.as_slice(), k + 1, l.len());
                    return Some(trim_chars(rest.as_slice()));
                }
            },
            None => {},
        }
        if e >= n {
            assert(header_from(s@, e as int + 1, name@) is None);
            return None;
        }
        a = e + 1;
    }
    None
}

/// The request line's method and path, the `Authorization` header, the
/// workspace header (a positive integer; 0 counts as none), and the
/// declared body length (0 when missing or not a number).
pub open spec fn head_of(s: Seq<char>) -> Result<(Seq<char>, Seq<char>, Option<Seq<char>>, Option<u64>, nat), InvalidWorkspaceHeader> {
    let first = s.subrange(0, line_end(s, 0));
    let ws = words(first);
    let method = if ws.len() > 0 { ws[0] } else { Seq::empty() };
    let path = if ws.len() > 1 { ws[1] } else { Seq::empty() };
    let rest = line_end(s, 0) + 1;
    let auth = header_from(s, rest, "authorization"@);
    let length = match header_from(s, 0, "content-length"@) {
        Some(v) => match parse_unsigned(v, usize::MAX as nat) {
            Some(n) => n,
            None => 0,
        },
        None => 0,
    };
    match header_from(s, rest, "x-baijimu-workspace-id"@) {
        Some(v) => match parse_unsigned(v, u64::MAX as nat) {
            Some(id) => Ok((method, path, auth, if id > 0 { Some(id as u64) } else { None }, length)),
            None => Err(InvalidWorkspaceHeader),
        },
        None => Ok((method, path, auth, None, length)),
    }
}

/// Reads the head of a request (decoded leniently as UTF-8).
pub fn parse_http_head(text: &str) -> (r: Result<HttpHead, InvalidWorkspaceHeader>)
    ensures
        match head_of(text@) {
            Err(e) => r == Err::<HttpHead, InvalidWorkspaceHeader>(e),
            Ok((method, path, auth, workspace_id, length)) => r matches Ok(h) && h.method@ == method && h.path@
                == path && match (h.authorization, auth) {
                (Some(a), Some(b)) => a@ == b,
                (None, None) => true,
                _ => false,
            } && h.workspace_id == workspace_id && h.content_length == length,
        },
{
    let s = chars_of(text);
    let n = s.len();
    let e0 = line_end_exec(s.as_slice(), 0);
    let first = slice_range(s.as_slice(), 0, e0);
    let ws = split_words(first.as_slice());
    let method = if ws.len() > 0 { string_from_chars(ws[0].as_slice()) } else { String::new() };
    let path = if ws.len() > 1 { string_from_chars(ws[1].as_slice()) } else { String::new() };
    let auth_name = chars_of("authorization");
    let rest = if e0 < n { e0 + 1 } else { n };
    assert(header_from(s@, n as int, "authorization"@) == header_from(s@, n as int + 1, "authorization"@));
    assert(header_from(s@, n as int, "x-baijimu-workspace-id"@) == header_from(
        s@,
        n as int + 1,
        "x-baijimu-workspace-id"@,
    ));
    let auth = match header_value(s.as_slice(), rest, auth_name.as_slice()) {
        Some(v) => Some(string_from_chars(v.as_slice())),
        None => None,
    };
    let len_name = chars_of("content-length");
    let length: usize = match header_value(s.as_slice(), 0, len_name.as_slice()) {
        Some(v) => match parse_unsigned_exec(v.as_slice(), usize::MAX as u64) {
            Some(n) => n as usize,
            None => 0,
        },
        None => 0,
    };
    let ws_name = chars_of("x-baijimu-workspace-id");
    let workspace_id = match header_value(s.as_slice(), rest, ws_name.as_slice()) {
        Some(v) => match parse_unsigned_exec(v.as_slice(), u64::MAX) {
            Some(id) => if id > 0 { Some(id) } else { None },
            None => return Err(InvalidWorkspaceHeader),
        },
        None => None,
    };
    Ok(HttpHead { method, path, authorization: auth, workspace_id, content_length: length })
}

// ---------------------------------------------------------------------------
// Routing

/// Where a request goes.
#[derive(Clone, Debug, PartialEq, Eq)]
pub enum Route {
    Health,
    Ready,
    Shutdown,
    /// An invocation of this path.
    Invoke(String),
    /// A management request: method and path.
    Management(String, String),
    NotFound,
}

/// The path without its query (`split('?').next()`).
pub open spec fn route_path(p: Seq<char>) -> Seq<char> {
    p.subrange(0, index_of(p, '?'))
}

/// The route for a request; the test shutdown hook exists only when it is
/// enabled.
pub open spec fn route_of(method: Seq<char>, raw_path: Seq<char>, shutdown_enabled: bool) -> int {
    let p = route_path(raw_path);
    if method == "GET"@ && p == "/healthz"@ {
        0
    } else if method == "GET"@ && p == "/readyz"@ {
        1
    } else if method == "POST"@ && p == "/__shutdown"@ && shutdown_enabled {
        2
    } else if method == "POST"@ && has_prefix(p, "/invoke/"@) {
        3
    } else if has_prefix(p, "/management/"@) {
        4
    } else {
        5
    }
}

/// Every request whose path (without its query) starts with
/// `/management/` goes to management, whatever its method; and only those.
pub proof fn lemma_management_route(method: Seq<char>, raw_path: Seq<char>, shutdown_enabled: bool)
    ensures
        ({
            let p = route_path(raw_path);
            (route_of(method, raw_path, shutdown_enabled) == 4) == (p.len() >= 12 && p.subrange(0, 12)
                == "/management/"@)
        }),
{
    reveal_strlit("/management/");
    reveal_strlit("/healthz");
    reveal_strlit("/readyz");
    reveal_strlit("/__shutdown");
    reveal_strlit("/invoke/");
    let p = route_path(raw_path);
    if p.len() >= 12 && p.subrange(0, 12) == "/management/"@ {
        assert(p[1] == 'm') by {
            assert(p.subrange(0, 12)[1] == p[1]);
        }
        assert(p != "/healthz"@) by {
            if p == "/healthz"@ {
                assert(p[1] == 'h');
            }
        }
        assert(p != "/readyz"@) by {
            if p == "/readyz"@ {
                assert(p[1] == 'r');
            }
        }
        assert(p != "/__shutdown"@) by {
            if p == "/__shutdown"@ {
                assert(p[1] == '_');
            }
        }
        assert(!has_prefix(p, "/invoke/"@)) by {
            if has_prefix(p, "/invoke/"@) {
                assert(p.subrange(0, 8)[1] == p[1]);
            }
        }
        assert(has_prefix(p, "/management/"@));
    }
}

/// The fixed routes: `GET /healthz` and `GET /readyz` (whatever the query),
/// `POST /__shutdown` only while the hook is enabled (else not found), and
/// every `POST` under `/invoke/`.
pub proof fn lemma_fixed_routes(method: Seq<char>, raw_path: Seq<char>, shutdown_enabled: bool)
    ensures
        ({
            let p = route_path(raw_path);
            let r = route_of(method, raw_path, shutdown_enabled);
            &&& method == "GET"@ && p == "/healthz"@ ==> r == 0
            &&& method == "GET"@ && p == "/readyz"@ ==> r == 1
            &&& method == "POST"@ && p == "/__shutdown"@ ==> r == (if shutdown_enabled { 2int } else { 5int })
            &&& method == "POST"@ && p.len() >= 8 && p.subrange(0, 8) == "/invoke/"@ ==> r == 3
            &&& method != "GET"@ && method != "POST"@ && !(p.len() >= 12 && p.subrange(0, 12) == "/management/"@) ==> r == 5
        }),
{
    reveal_strlit("GET");
    reveal_strlit("POST");
    reveal_strlit("/healthz");
    reveal_strlit("/readyz");
    reveal_strlit("/__shutdown");
    reveal_strlit("/invoke/");
    reveal_strlit("/management/");
    let p = route_path(raw_path);
    assert("GET"@ != "POST"@) by {
        assert("GET"@.len() != "POST"@.len());
    }
    if p == "/healthz"@ {
        assert(p != "/readyz"@) by { assert(p[1] != "/readyz"@[1]); }
    }
    if p == "/__shutdown"@ {
        assert(!has_prefix(p, "/invoke/"@)) by { assert(p.subrange(0, 8)[1] != "/invoke/"@[1]); }
        assert(!has_prefix(p, "/management/"@)) by { assert(p.len() < "/management/"@.len()); }
    }
    if p.len() >= 8 && p.subrange(0, 8) == "/invoke/"@ {
        assert(p != "/__shutdown"@) by { assert(p.subrange(0, 8)[1] == p[1]); }
        assert(has_prefix(p, "/invoke/"@));
    }
    lemma_management_route(method, raw_path, shutdown_enabled);
}

/// Routes a request by method and path (the query is ignored).
pub fn route_request(method: &str, raw_path: &str, shutdown_enabled: bool) -> (r: Route)
    ensures
        route_of(method@, raw_path@, shutdown_enabled) == 0 ==> r == Route::Health,
        route_of(method@, raw_path@, shutdown_enabled) == 1 ==> r == Route::Ready,
        route_of(method@, raw_path@, shutdown_enabled) == 2 ==> r == Route::Shutdown,
        route_of(method@, raw_path@, shutdown_enabled) == 3 ==> (r matches Route::Invoke(p) && p@ == route_path(
            raw_path@,
        )),
        route_of(method@, raw_path@, shutdown_enabled) == 4 ==> (r matches Route::Management(m, p) && m@ == method@
            && p@ == route_path(raw_path@)),
        route_of(method@, raw_path@, shutdown_enabled) == 5 ==> r == Route::NotFound,
{
    let raw = chars_of(raw_path);
    let cut = match find_char(raw.as_slice(), '?') {
        Some(k) => k,
        None => raw.len(),
    };
    let p = slice_range(raw.as_slice(), 0, cut);
    let m = chars_of(method);
    let get = chars_of("GET");
    let post = chars_of("POST");
    let is_get = chars_eq(m.as_slice(), get.as_slice());
    let is_post = chars_eq(m.as_slice(), post.as_slice());
    if is_get && chars_eq(p.as_slice(), chars_of("/healthz").as_slice()) {
        return Route::Health;
    }
    if is_get && chars_eq(p.as_slice(), chars_of("/readyz").as_slice()) {
        return Route::Ready;
    }
    if is_post && chars_eq(p.as_slice(), chars_of("/__shutdown").as_slice()) && shutdown_enabled {
        return Route::Shutdown;
    }
    if is_post && starts_with(p.as_slice(), chars_of("/invoke/").as_slice()) {
        return Route::Invoke(string_from_chars(p.as_slice()));
    }
    if starts_with(p.as_slice(), chars_of("/management/").as_slice()) {
        return Route::Management(String::from_str(method), string_from_chars(p.as_slice()));
    }
    Route::NotFound
}

/// Why a request is turned away before it runs.
#[derive(Clone, Copy, Debug, PartialEq, Eq, Structural)]
pub enum InvokeGate {
    /// The connector is still initialising, or failed to (503).
    NotReady,
    /// The request does not carry the connector token (401).
    Unauthorized,
    /// The trusted workspace header is missing (400).
    WorkspaceRequired,
}

pub open spec fn header_view(header: Option<&str>) -> Option<Seq<char>> {
    match header {
        Some(h) => Some(h@),
        None => None,
    }
}

/// A management request runs only once the connector is ready and when
/// it carries the connector token.
pub fn management_gate(ready: bool, authorization: Option<&str>, token: &str) -> (r: Result<(), InvokeGate>)
    ensures
        !ready ==> r == Err::<(), InvokeGate>(InvokeGate::NotReady),
        ready && bearer_token(header_view(authorization)) != token@ ==> r == Err::<(), InvokeGate>(
            InvokeGate::Unauthorized,
        ),
        ready && bearer_token(header_view(authorization)) == token@ ==> r == Ok::<(), InvokeGate>(()),
{
    if !ready {
        return Err(InvokeGate::NotReady);
    }
    if !management_authorized(authorization, token) {
        return Err(InvokeGate::Unauthorized);
    }
    Ok(())
}

/// A business invocation runs only once the connector is ready, when it
/// carries the connector token, and with a trusted workspace.
pub fn invoke_gate(ready: bool, authorization: Option<&str>, token: &str, workspace_id: Option<u64>) -> (r: Result<
    u64,
    InvokeGate,
>)
    ensures
        !ready ==> r == Err::<u64, InvokeGate>(InvokeGate::NotReady),
        ready && bearer_token(header_view(authorization)) != token@ ==> r == Err::<u64, InvokeGate>(
            InvokeGate::Unauthorized,
        ),
        ready && bearer_token(header_view(authorization)) == token@ && workspace_id is None ==> r == Err::<
            u64,
            InvokeGate,
        >(InvokeGate::WorkspaceRequired),
        ready && bearer_token(header_view(authorization)) == token@ && workspace_id is Some ==> r == Ok::<
            u64,
            InvokeGate,
        >(workspace_id->Some_0),
{
    match management_gate(ready, authorization, token) {
        Err(e) => Err(e),
        Ok(()) => match workspace_id {
            Some(w) => Ok(w),
            None => Err(InvokeGate::WorkspaceRequired),
        },
    }
}

/// A management operation.
#[derive(Clone, Copy, Debug, PartialEq, Eq, Structural)]
pub enum ManagementRoute {
    SetupState,
    EnsureReady,
    Retry,
    CheckoutProject,
    Unknown,
}

/// Which management operation a request asks for.
pub fn management_route(method: &str, path: &str) -> (r: ManagementRoute)
    ensures
        method@ == "GET"@ && path@ == "/management/v1/setup/state"@ ==> r == ManagementRoute::SetupState,
        method@ == "POST"@ && path@ == "/management/v1/setup/ensure-ready"@ ==> r == ManagementRoute::EnsureReady,
        method@ == "POST"@ && path@ == "/management/v1/setup/retry"@ ==> r == ManagementRoute::Retry,
        method@ == "POST"@ && path@ == "/management/v1/projects/checkout"@ ==> r == ManagementRoute::CheckoutProject,
        !(method@ == "GET"@ && path@ == "/management/v1/setup/state"@) && !(method@ == "POST"@ && (path@
            == "/management/v1/setup/ensure-ready"@ || path@ == "/management/v1/setup/retry"@ || path@
            == "/management/v1/projects/checkout"@)) ==> r == ManagementRoute::Unknown,
{
    proof {
        reveal_strlit("GET");
        reveal_strlit("POST");
        reveal_strlit("/management/v1/setup/state");
        reveal_strlit("/management/v1/setup/ensure-ready");
        reveal_strlit("/management/v1/setup/retry");
        reveal_strlit("/management/v1/projects/checkout");
        assert("POST"@ != "GET"@) by {
            assert("POST"@.len() != "GET"@.len());
        }
        assert("/management/v1/setup/state"@ != "/management/v1/setup/retry"@) by {
            assert("/management/v1/setup/state"@[21] != "/management/v1/setup/retry"@[21]);
        }
        assert("/management/v1/setup/ensure-ready"@.len() != "/management/v1/setup/retry"@.len());
        assert("/management/v1/setup/ensure-ready"@.len() != "/management/v1/projects/checkout"@.len());
        assert("/management/v1/setup/retry"@.len() != "/management/v1/projects/checkout"@.len());
    }
    let m = chars_of(method);
    let p = chars_of(path);
    let is_get = chars_eq(m.as_slice(), chars_of("GET").as_slice());
    let is_post = chars_eq(m.as_slice(), chars_of("POST").as_slice());
    if is_get && chars_eq(p.as_slice(), chars_of("/management/v1/setup/state").as_slice()) {
        ManagementRoute::SetupState
    } else if is_post && chars_eq(p.as_slice(), chars_of("/management/v1/setup/ensure-ready").as_slice()) {
        ManagementRoute::EnsureReady
    } else if is_post && chars_eq(p.as_slice(), chars_of("/management/v1/setup/retry").as_slice()) {
        ManagementRoute::Retry
    } else if is_post && chars_eq(p.as_slice(), chars_of("/management/v1/projects/checkout").as_slice()) {
        ManagementRoute::CheckoutProject
    } else {
        ManagementRoute::Unknown
    }
}

/// The workspace a retry is asked for: a positive `workspaceId`.
pub fn retry_workspace(workspace_id: Option<u64>) -> (r: Option<u64>)
    ensures
        r == (match workspace_id {
            Some(w) => if w > 0 { Some(w) } else { None },
            None => None,
        }),
{
    match workspace_id {
        Some(w) => if w > 0 { Some(w) } else { None },
        None => None,
    }
}

/// How a refused request is answered: the status, the error code and the
/// error message. A request refused before the connector is ready gets 503
/// and the startup report in place of an error (no code, no message). A
/// request without the connector token gets 401, with a message that names
/// the management or the connector authorization; one without the trusted
/// workspace header gets 400 `WORKSPACE_CONTEXT_REQUIRED`.
pub fn gate_refusal(gate: InvokeGate, management: bool) -> (r: (u16, Option<&'static str>, Option<&'static str>))
    ensures
        gate == InvokeGate::NotReady ==> r.0 == 503 && r.1 is None && r.2 is None,
        gate == InvokeGate::Unauthorized ==> r.0 == 401 && r.1 is None,
        gate == InvokeGate::Unauthorized && management ==> (r.2 matches Some(m) && m@ == "management authorization required"@),
        gate == InvokeGate::Unauthorized && !management ==> (r.2 matches Some(m) && m@ == "connector authorization required"@),
        gate == InvokeGate::WorkspaceRequired ==> r.0 == 400 && (r.1 matches Some(c) && c@ == "WORKSPACE_CONTEXT_REQUIRED"@),
        gate == InvokeGate::WorkspaceRequired ==> (r.2 matches Some(m) && m@ == "本地应用调用缺少可信工作区上下文"@),
{
    match gate {
        InvokeGate::NotReady => (503, None, None),
        InvokeGate::Unauthorized => {
            if management {
                (401, None, Some("management authorization required"))
            } else {
                (401, None, Some("connector authorization required"))
            }
        },
        InvokeGate::WorkspaceRequired => (400, Some("WORKSPACE_CONTEXT_REQUIRED"), Some("本地应用调用缺少可信工作区上下文")),
    }
}

/// The name this connector reports for itself in its health answer.
pub const CONNECTOR_NAME: &'static str = "@baijimu/connector-codex";

/// Why the process behind a health answer is not stopped.
#[derive(Clone, Copy, Debug, PartialEq, Eq, Structural)]
pub enum StopRefusal {
    /// The answer does not name this connector.
    NotThisConnector,
    /// The answer names this connector but gives no process id.
    MissingPid,
}

impl StopRefusal {
    /// The message shown for the refusal.
    pub fn message(&self) -> (r: &'static str)
        ensures
            *self == StopRefusal::NotThisConnector ==> r@ == "the process on the health endpoint does not belong to the Codex connector"@,
            *self == StopRefusal::MissingPid ==> r@ == "the Codex connector health answer has no process id"@,
    {
        match self {
            StopRefusal::NotThisConnector => "the process on the health endpoint does not belong to the Codex connector",
            StopRefusal::MissingPid => "the Codex connector health answer has no process id",
        }
    }
}

/// The process a `stop` may signal, from the health answer's connector name
/// and process id: only one that names this connector.
pub fn verified_connector_pid(name: Option<&str>, pid: Option<u64>) -> (r: Result<u64, StopRefusal>)
    ensures
        !(name matches Some(n) && n@ == CONNECTOR_NAME@) ==> r == Err::<u64, StopRefusal>(StopRefusal::NotThisConnector),
        (name matches Some(n) && n@ == CONNECTOR_NAME@) && pid is None ==> r == Err::<u64, StopRefusal>(StopRefusal::MissingPid),
        (name matches Some(n) && n@ == CONNECTOR_NAME@) && pid is Some ==> r == Ok::<u64, StopRefusal>(pid->Some_0),
{
    let ours = match name {
        Some(n) => chars_eq(chars_of(n).as_slice(), chars_of(CONNECTOR_NAME).as_slice()),
        None => false,
    };
    if !ours {
        return Err(StopRefusal::NotThisConnector);
    }
    match pid {
        Some(p) => Ok(p),
        None => Err(StopRefusal::MissingPid),
    }
}

/// The reason phrase sent with a status code.
pub fn reason_phrase(status: u16) -> (r: &'static str)
    ensures
        status == 200 ==> r@ == "OK"@,
        status == 400 ==> r@ == "Bad Request"@,
        status == 401 ==> r@ == "Unauthorized"@,
        status == 403 ==> r@ == "Forbidden"@,
        status == 404 ==> r@ == "Not Found"@,
        status == 409 ==> r@ == "Conflict"@,
        status == 410 ==> r@ == "Gone"@,
        status == 503 ==> r@ == "Service Unavailable"@,
        status == 500 ==> r@ == "Internal Server Error"@,
        !(status == 200 || status == 400 || status == 401 || status == 403 || status == 404 || status == 409
            || status == 410 || status == 503 || status == 500) ==> r@ == "OK"@,
{
    match status {
        200 => "OK",
        400 => "Bad Request",
        401 => "Unauthorized",
        403 => "Forbidden",
        404 => "Not Found",
        409 => "Conflict",
        410 => "Gone",
        503 => "Service Unavailable",
        500 => "Internal Server Error",
        _ => "OK",
    }
}

/// A request is let in exactly when it carries `Bearer ` and the token.
pub proof fn lemma_bearer_token(token: Seq<char>, header: Seq<char>)
    ensures
        bearer_token(Some("Bearer "@ + token)) == token,
        bearer_token(Some(header)) == token ==> token.len() == 0 || header == "Bearer "@ + token,
{
    let b = "Bearer "@;
    assert((b + token).subrange(0, b.len() as int) =~= b);
    assert((b + token).subrange(b.len() as int, (b + token).len() as int) =~= token);
    if bearer_token(Some(header)) == token && token.len() > 0 {
        assert(has_prefix(header, b));
        assert(header =~= b + token) by {
            assert(header.subrange(0, b.len() as int) == b);
        }
    }
}

/// An interrupted set-up is started again automatically once; interrupted
/// again, it is reported as failed. A running set-up is never started
/// twice, and a usable CLI is always ready.
pub proof fn lemma_setup_retries_once(setup_workspace: Option<u64>, w: u64, retries: u64, cli_ready: bool)
    ensures
        !cli_ready ==> setup_decision("interrupted"@, setup_workspace, retries, Some(w), true, cli_ready)
            == if retries <= 1 { SetupReadinessDecision::Start(w) } else { SetupReadinessDecision::Failed },
        !cli_ready ==> setup_decision("running"@, setup_workspace, retries, Some(w), true, cli_ready)
            == SetupReadinessDecision::Initializing,
        cli_ready ==> setup_decision("failed"@, setup_workspace, retries, Some(w), true, cli_ready)
            == SetupReadinessDecision::Ready,
{
    reveal_strlit("interrupted");
    reveal_strlit("running");
    reveal_strlit("failed");
    reveal_strlit("needs_retry");
    assert("interrupted"@ != "running"@) by {
        assert("interrupted"@.len() != "running"@.len());
    }
    assert("interrupted"@ != "failed"@) by {
        assert("interrupted"@.len() != "failed"@.len());
    }
    assert("interrupted"@ != "needs_retry"@) by {
        assert("interrupted"@[0] != "needs_retry"@[0]);
    }
}

} // verus!
