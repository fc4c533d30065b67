//! Invocations of the connector: which operation a path names, what the
//! operations check before anything is forwarded, and how thread listings
//! are paged.
use vstd::prelude::*;
use crate::text::{chars_of, chars_eq, parse_unsigned, parse_unsigned_exec, decimal, decimal_string};

verus! {

// ---------------------------------------------------------------------------
// Operations forwarded to the Codex app-server

/// An operation of the app-server connector.
#[derive(Clone, Copy, Debug, PartialEq, Eq, Structural)]
pub enum CodexInvoke {
    Status,
    ListThreads,
    ListProjects,
    SearchThreads,
    ReadThread,
    SetThreadReadState,
    ListThreadTurns,
    ListApps,
    StartThread,
    ResumeThread,
    StartTurn,
    SteerTurn,
    InterruptTurn,
    RecentEvents,
    Request,
    Unknown,
}

fn is(p: &[char], lit: &str) -> (r: bool)
    ensures
        r == (p@ == lit@),
{
    chars_eq(p, chars_of(lit).as_slice())
}

/// The operation for an invocation path.
pub open spec fn codex_invoke_of(p: Seq<char>) -> CodexInvoke {
    if p == "/invoke/status"@ {
        CodexInvoke::Status
    } else if p == "/invoke/listThreads"@ || p == "/invoke/listSessions"@ {
        CodexInvoke::ListThreads
    } else if p == "/invoke/listProjects"@ {
        CodexInvoke::ListProjects
    } else if p == "/invoke/searchThreads"@ {
        CodexInvoke::SearchThreads
    } else if p == "/invoke/readThread"@ {
        CodexInvoke::ReadThread
    } else if p == "/invoke/setThreadReadState"@ {
        CodexInvoke::SetThreadReadState
    } else if p == "/invoke/listThreadTurns"@ {
        CodexInvoke::ListThreadTurns
    } else if p == "/invoke/listApps"@ {
        CodexInvoke::ListApps
    } else if p == "/invoke/startThread"@ {
        CodexInvoke::StartThread
    } else if p == "/invoke/resumeThread"@ {
        CodexInvoke::ResumeThread
    } else if p == "/invoke/startTurn"@ {
        CodexInvoke::StartTurn
    } else if p == "/invoke/steerTurn"@ {
        CodexInvoke::SteerTurn
    } else if p == "/invoke/interruptTurn"@ {
        CodexInvoke::InterruptTurn
    } else if p == "/invoke/recentEvents"@ {
        CodexInvoke::RecentEvents
    } else if p == "/invoke/request"@ {
        CodexInvoke::Request
    } else {
        CodexInvoke::Unknown
    }
}

/// Which operation an invocation path names.
pub fn codex_invoke_route(path: &str) -> (r: CodexInvoke)
    ensures
        r == codex_invoke_of(path@),
{
    let p = chars_of(path);
    let s = p.as_slice();
    if is(s, "/invoke/status") {
        CodexInvoke::Status
    } else if is(s, "/invoke/listThreads") || is(s, "/invoke/listSessions") {
        CodexInvoke::ListThreads
    } else if is(s, "/invoke/listProjects") {
        CodexInvoke::ListProjects
    } else if is(s, "/invoke/searchThreads") {
        CodexInvoke::SearchThreads
    } else if is(s, "/invoke/readThread") {
        CodexInvoke::ReadThread
    } else if is(s, "/invoke/setThreadReadState") {
        CodexInvoke::SetThreadReadState
    } else if is(s, "/invoke/listThreadTurns") {
        CodexInvoke::ListThreadTurns
    } else if is(s, "/invoke/listApps") {
        CodexInvoke::ListApps
    } else if is(s, "/invoke/startThread") {
        CodexInvoke::StartThread
    } else if is(s, "/invoke/resumeThread") {
        CodexInvoke::ResumeThread
    } else if is(s, "/invoke/startTurn") {
        CodexInvoke::StartTurn
    } else if is(s, "/invoke/steerTurn") {
        CodexInvoke::SteerTurn
    } else if is(s, "/invoke/interruptTurn") {
        CodexInvoke::InterruptTurn
    } else if is(s, "/invoke/recentEvents") {
        CodexInvoke::RecentEvents
    } else if is(s, "/invoke/request") {
        CodexInvoke::Request
    } else {
        CodexInvoke::Unknown
    }
}

/// What the checks of a Codex invocation read from its body.
pub struct CodexFields {
    /// `searchTerm` when it is a string.
    pub search_term: Option<String>,
    /// `params.searchTerm` when it is a string.
    pub params_search_term: Option<String>,
    /// `threadId` when it is a string.
    pub thread_id: Option<String>,
    /// `params.threadId` when it is a string.
    pub params_thread_id: Option<String>,
    /// `threadId` when the body has that key, else `params.threadId`, when
    /// it is a string.
    pub thread_id_param: Option<String>,
    /// `hasUnreadTurn` when the body has that key, else
    /// `params.hasUnreadTurn`, when it is a boolean.
    pub has_unread_turn: Option<bool>,
    /// The body has an `input`.
    pub input: bool,
    /// `method` when it is a string.
    pub method: Option<String>,
}

/// What a Codex invocation does once its body passed the checks.
#[derive(Debug, PartialEq, Eq)]
pub enum CodexCall {
    /// Answered by the connector itself (status, projects, recent events).
    Local,
    /// A request to the app-server: its method, the thread set in its
    /// parameters, and whether recent events go with the answer.
    Rpc { method: String, thread_id: Option<String>, recent_events: bool },
    /// Record the thread's read state.
    ReadState { thread_id: String, has_unread_turn: bool },
    /// `listThreadTurns` without a thread: an empty page.
    NoTurns,
}

/// Why a Codex invocation is refused before anything is forwarded.
#[derive(Debug, PartialEq, Eq)]
pub enum CodexRefusal {
    /// The named field is required (400).
    Required(String),
    /// The path names no operation (404).
    UnknownPath,
}

/// A text field that is present and not empty.
pub open spec fn filled(o: Option<String>) -> Option<Seq<char>> {
    match o {
        Some(s) => if s@.len() > 0 { Some(s@) } else { None },
        None => None,
    }
}

pub open spec fn text_of(o: Option<String>) -> Option<Seq<char>> {
    match o {
        Some(s) => Some(s@),
        None => None,
    }
}

/// The view of a call: local, a request (method, thread, recent events),
/// a read-state record (thread, flag), or no turns.
pub enum CallV {
    Local,
    Rpc(Seq<char>, Option<Seq<char>>, bool),
    ReadState(Seq<char>, bool),
    NoTurns,
}

pub open spec fn call_view(c: CodexCall) -> CallV {
    match c {
        CodexCall::Local => CallV::Local,
        CodexCall::Rpc { method, thread_id, recent_events } => CallV::Rpc(method@, text_of(thread_id), recent_events),
        CodexCall::ReadState { thread_id, has_unread_turn } => CallV::ReadState(thread_id@, has_unread_turn),
        CodexCall::NoTurns => CallV::NoTurns,
    }
}

/// The refusal as the name of the missing field, or `None` for an unknown path.
pub open spec fn refusal_view(e: CodexRefusal) -> Option<Seq<char>> {
    match e {
        CodexRefusal::Required(k) => Some(k@),
        CodexRefusal::UnknownPath => None,
    }
}

pub open spec fn first_of(a: Option<Seq<char>>, b: Option<Seq<char>>) -> Option<Seq<char>> {
    if a is Some { a } else { b }
}

/// The call a Codex operation makes, or the field it lacks.
pub open spec fn codex_call_of(op: CodexInvoke, f: CodexFields) -> Result<CallV, Option<Seq<char>>> {
    match op {
        CodexInvoke::Status | CodexInvoke::ListProjects | CodexInvoke::RecentEvents => Ok(CallV::Local),
        CodexInvoke::ListThreads => Ok(CallV::Rpc("thread/list"@, None, false)),
        CodexInvoke::SearchThreads => if filled(f.search_term) is Some || f.params_search_term is Some {
            Ok(CallV::Rpc("thread/search"@, None, false))
        } else {
            Err(Some("searchTerm"@))
        },
        CodexInvoke::ReadThread => match first_of(filled(f.thread_id), text_of(f.params_thread_id)) {
            Some(t) => Ok(CallV::Rpc("thread/read"@, Some(t), false)),
            None => Err(Some("threadId"@)),
        },
        CodexInvoke::SetThreadReadState => match (f.thread_id_param, f.has_unread_turn) {
            (None, _) => Err(Some("threadId"@)),
            (Some(_), None) => Err(Some("hasUnreadTurn"@)),
            (Some(t), Some(u)) => Ok(CallV::ReadState(t@, u)),
        },
        CodexInvoke::ListThreadTurns => match first_of(filled(f.thread_id), text_of(f.params_thread_id)) {
            Some(t) => Ok(CallV::Rpc("thread/turns/list"@, Some(t), false)),
            None => Ok(CallV::NoTurns),
        },
        CodexInvoke::ListApps => Ok(CallV::Rpc("app/list"@, None, false)),
        CodexInvoke::StartThread => Ok(CallV::Rpc("thread/start"@, None, false)),
        CodexInvoke::ResumeThread => match filled(f.thread_id) {
            Some(t) => Ok(CallV::Rpc("thread/resume"@, Some(t), false)),
            None => Err(Some("threadId"@)),
        },
        CodexInvoke::StartTurn => match filled(f.thread_id) {
            Some(t) => if f.input {
                Ok(CallV::Rpc("turn/start"@, Some(t), true))
            } else {
                Err(Some("input"@))
            },
            None => Err(Some("threadId"@)),
        },
        CodexInvoke::SteerTurn => if f.input {
            Ok(CallV::Rpc("turn/steer"@, None, true))
        } else {
            Err(Some("input"@))
        },
        CodexInvoke::InterruptTurn => Ok(CallV::Rpc("turn/interrupt"@, None, true)),
        CodexInvoke::Request => match filled(f.method) {
            Some(m) => Ok(CallV::Rpc(m, None, true)),
            None => Err(Some("method"@)),
        },
        CodexInvoke::Unknown => Err(None),
    }
}

fn filled_exec(o: Option<String>) -> (r: Option<String>)
    ensures
        text_of(r) == filled(o),
{
    match o {
        Some(s) => if s.as_str().is_empty() { None } else { Some(s) },
        None => None,
    }
}

fn rpc(method: &str, thread_id: Option<String>, recent_events: bool) -> (r: Result<CodexCall, CodexRefusal>)
    ensures
        r matches Ok(c) && call_view(c) == CallV::Rpc(method@, text_of(thread_id), recent_events),
{
    Ok(CodexCall::Rpc { method: String::from_str(method), thread_id, recent_events })
}

fn missing(key: &str) -> (r: Result<CodexCall, CodexRefusal>)
    ensures
        r matches Err(e) && refusal_view(e) == Some(key@),
{
    Err(CodexRefusal::Required(String::from_str(key)))
}

/// Checks a Codex invocation and says what it calls: the required fields
/// of each operation (a search term, a thread, an input, a method), the
/// app-server method, the thread set in the parameters, and whether the
/// answer carries recent events.
pub fn codex_call(op: CodexInvoke, f: CodexFields) -> (r: Result<CodexCall, CodexRefusal>)
    ensures
        match codex_call_of(op, f) {
            Ok(c) => r matches Ok(x) && call_view(x) == c,
            Err(e) => r matches Err(x) && refusal_view(x) == e,
        },
{
    let CodexFields {
        search_term,
        params_search_term,
        thread_id,
        params_thread_id,
        thread_id_param,
        has_unread_turn,
        input,
        method,
    } = f;
    match op {
        CodexInvoke::Status | CodexInvoke::ListProjects | CodexInvoke::RecentEvents => Ok(CodexCall::Local),
        CodexInvoke::ListThreads => rpc("thread/list", None, false),
        CodexInvoke::SearchThreads => {
            if filled_exec(search_term).is_some() || params_search_term.is_some() {
                rpc("thread/search", None, false)
            } else {
                missing("searchTerm")
            }
        },
        CodexInvoke::ReadThread => match filled_exec(thread_id) {
            Some(t) => rpc("thread/read", Some(t), false),
            None => match params_thread_id {
                Some(t) => rpc("thread/read", Some(t), false),
                None => missing("threadId"),
            },
        },
        CodexInvoke::SetThreadReadState => match thread_id_param {
            None => missing("threadId"),
            Some(t) => match has_unread_turn {
                None => missing("hasUnreadTurn"),
                Some(u) => Ok(CodexCall::ReadState { thread_id: t, has_unread_turn: u }),
            },
        },
        CodexInvoke::ListThreadTurns => match filled_exec(thread_id) {
            Some(t) => rpc("thread/turns/list", Some(t), false),
            None => match params_thread_id {
                Some(t) => rpc("thread/turns/list", Some(t), false),
                None => Ok(CodexCall::NoTurns),
            },
        },
        CodexInvoke::ListApps => rpc("app/list", None, false),
        CodexInvoke::StartThread => rpc("thread/start", None, false),
        CodexInvoke::ResumeThread => match filled_exec(thread_id) {
            Some(t) => rpc("thread/resume", Some(t), false),
            None => missing("threadId"),
        },
        CodexInvoke::StartTurn => match filled_exec(thread_id) {
            Some(t) => if input {
                rpc("turn/start", Some(t), true)
            } else {
                missing("input")
            },
            None => missing("threadId"),
        },
        CodexInvoke::SteerTurn => if input {
            rpc("turn/steer", None, true)
        } else {
            missing("input")
        },
        CodexInvoke::InterruptTurn => rpc("turn/interrupt", None, true),
        CodexInvoke::Request => match filled_exec(method) {
            Some(m) => Ok(CodexCall::Rpc { method: m, thread_id: None, recent_events: true }),
            None => missing("method"),
        },
        CodexInvoke::Unknown => Err(CodexRefusal::UnknownPath),
    }
}

/// The sort key and direction a thread listing uses unless the caller names one.
pub const DEFAULT_THREAD_SORT_KEY: &'static str = "updated_at";
pub const DEFAULT_THREAD_SORT_DIRECTION: &'static str = "desc";

/// The top-level keys of the body an operation copies into its request
/// parameters (over the body's own `params`).
pub open spec fn codex_param_keys_of(op: CodexInvoke) -> Seq<Seq<char>> {
    match op {
        CodexInvoke::ListThreads => seq![
            "cursor"@, "limit"@, "sortKey"@, "sortDirection"@, "modelProviders"@, "sourceKinds"@, "archived"@,
            "cwd"@, "useStateDbOnly"@, "searchTerm"@,
        ],
        CodexInvoke::SearchThreads => seq![
            "cursor"@, "limit"@, "sortKey"@, "sortDirection"@, "sourceKinds"@, "archived"@, "searchTerm"@,
        ],
        CodexInvoke::ReadThread => seq!["threadId"@, "includeTurns"@],
        CodexInvoke::ListThreadTurns => seq!["threadId"@, "cursor"@, "limit"@, "sortDirection"@, "itemsView"@],
        CodexInvoke::ListApps => seq!["cursor"@, "limit"@, "threadId"@, "forceRefetch"@],
        CodexInvoke::StartThread => seq!["model"@, "cwd"@],
        CodexInvoke::ResumeThread => seq!["excludeTurns"@, "initialTurnsPage"@],
        CodexInvoke::StartTurn => seq!["model"@, "cwd"@, "input"@],
        CodexInvoke::SteerTurn => seq!["threadId"@, "turnId"@, "input"@],
        CodexInvoke::InterruptTurn => seq!["threadId"@, "turnId"@],
        _ => Seq::empty(),
    }
}

/// The keys [`codex_param_keys_of`] names, in order.
pub fn codex_param_keys(op: CodexInvoke) -> (r: Vec<&'static str>)
    ensures
        r@.len() == codex_param_keys_of(op).len(),
        forall|i: int| 0 <= i < r@.len() ==> #[trigger] r@[i]@ == codex_param_keys_of(op)[i],
{
    let r: Vec<&'static str> = match op {
        CodexInvoke::ListThreads => vec![
            "cursor", "limit", "sortKey", "sortDirection", "modelProviders", "sourceKinds", "archived", "cwd",
            "useStateDbOnly", "searchTerm",
        ],
        CodexInvoke::SearchThreads => vec!["cursor", "limit", "sortKey", "sortDirection", "sourceKinds", "archived", "searchTerm"],
        CodexInvoke::ReadThread => vec!["threadId", "includeTurns"],
        CodexInvoke::ListThreadTurns => vec!["threadId", "cursor", "limit", "sortDirection", "itemsView"],
        CodexInvoke::ListApps => vec!["cursor", "limit", "threadId", "forceRefetch"],
        CodexInvoke::StartThread => vec!["model", "cwd"],
        CodexInvoke::ResumeThread => vec!["excludeTurns", "initialTurnsPage"],
        CodexInvoke::StartTurn => vec!["model", "cwd", "input"],
        CodexInvoke::SteerTurn => vec!["threadId", "turnId", "input"],
        CodexInvoke::InterruptTurn => vec!["threadId", "turnId"],
        _ => Vec::new(),
    };
    assert(r@.len() == codex_param_keys_of(op).len());
    r
}

/// How many recent events go with the answer of a call that carries them.
pub const CALL_RECENT_EVENTS: u64 = 50;

/// How the parameters of an app-server request are built from the body.
#[derive(Debug)]
pub struct ParamsPlan {
    /// Start from the body's own `params` object (for `request`: send
    /// `params` as they are, `{}` when absent).
    pub merge: bool,
    /// The top-level keys copied over it.
    pub keys: Vec<&'static str>,
    /// A text `input` is sent as one text item.
    pub text_as_item: bool,
    /// Fill in the default sort key and direction when they are absent.
    pub default_sort: bool,
}

/// The parameter plan of an operation: turn operations send a text input
/// as one text item, thread listings default their sort, and `request`
/// forwards its `params` untouched.
pub fn params_plan(op: CodexInvoke) -> (r: ParamsPlan)
    ensures
        r.merge == (op != CodexInvoke::Request),
        r.keys@.len() == codex_param_keys_of(op).len(),
        forall|i: int| 0 <= i < r.keys@.len() ==> #[trigger] r.keys@[i]@ == codex_param_keys_of(op)[i],
        r.text_as_item == (op == CodexInvoke::StartTurn || op == CodexInvoke::SteerTurn),
        r.default_sort == (op == CodexInvoke::ListThreads),
{
    ParamsPlan {
        merge: op != CodexInvoke::Request,
        keys: codex_param_keys(op),
        text_as_item: op == CodexInvoke::StartTurn || op == CodexInvoke::SteerTurn,
        default_sort: op == CodexInvoke::ListThreads,
    }
}

/// How thread listings are walked to count a project's sessions.
#[derive(Clone, Copy, Debug, PartialEq, Eq)]
pub struct ThreadScan {
    /// Pages read at most (default 100, between 1 and 500).
    pub max_pages: u64,
    /// Threads per page (default 100, between 1 and 100).
    pub page_limit: u64,
}

pub open spec fn clamp(v: u64, lo: u64, hi: u64) -> u64 {
    if v < lo { lo } else if v > hi { hi } else { v }
}

fn clamp_exec(v: u64, lo: u64, hi: u64) -> (r: u64)
    ensures
        r == clamp(v, lo, hi),
{
    if v < lo { lo } else if v > hi { hi } else { v }
}

/// Whether and how to walk the thread listings (`includeThreadStats`,
/// `maxThreadPages`, `threadPageLimit`).
pub fn thread_scan_plan(stats_wanted: Option<bool>, max_pages: Option<u64>, page_limit: Option<u64>) -> (r: Option<ThreadScan>)
    ensures
        stats_wanted == Some(false) ==> r is None,
        stats_wanted != Some(false) ==> r == Some(ThreadScan {
            max_pages: clamp(match max_pages { Some(v) => v, None => 100 }, 1, 500),
            page_limit: clamp(match page_limit { Some(v) => v, None => 100 }, 1, 100),
        }),
{
    if stats_wanted == Some(false) {
        return None;
    }
    let m = match max_pages {
        Some(v) => v,
        None => 100,
    };
    let l = match page_limit {
        Some(v) => v,
        None => 100,
    };
    Some(ThreadScan { max_pages: clamp_exec(m, 1, 500), page_limit: clamp_exec(l, 1, 100) })
}

/// After reading page `read` (counted from 1): go on while pages remain,
/// the listing gave a next cursor and the page was not empty.
pub fn continue_scan(scan: ThreadScan, read: u64, next_cursor: bool, page_empty: bool) -> (r: bool)
    ensures
        r == (read < scan.max_pages && next_cursor && !page_empty),
{
    read < scan.max_pages && next_cursor && !page_empty
}

// ---------------------------------------------------------------------------
// Operations of the desktop connector

/// An operation of the desktop connector.
#[derive(Clone, Copy, Debug, PartialEq, Eq, Structural)]
pub enum DesktopInvoke {
    Status,
    ListThreads,
    ListProjects,
    ReadThread,
    History,
    StartTurn,
    SteerTurn,
    InterruptTurn,
    PendingRequests,
    RespondToRequest,
    RecentEvents,
    PrepareProject,
    Unsupported,
}

pub open spec fn desktop_invoke_of(p: Seq<char>) -> DesktopInvoke {
    if p == "/invoke/status"@ {
        DesktopInvoke::Status
    } else if p == "/invoke/listThreads"@ || p == "/invoke/listSessions"@ || p == "/invoke/searchThreads"@ {
        DesktopInvoke::ListThreads
    } else if p == "/invoke/listProjects"@ {
        DesktopInvoke::ListProjects
    } else if p == "/invoke/readThread"@ || p == "/invoke/resumeThread"@ {
        DesktopInvoke::ReadThread
    } else if p == "/invoke/listThreadTurns"@ || p == "/invoke/listThreadItems"@ || p == "/invoke/readThreadItem"@ {
        DesktopInvoke::History
    } else if p == "/invoke/startTurn"@ {
        DesktopInvoke::StartTurn
    } else if p == "/invoke/steerTurn"@ {
        DesktopInvoke::SteerTurn
    } else if p == "/invoke/interruptTurn"@ {
        DesktopInvoke::InterruptTurn
    } else if p == "/invoke/pendingRequests"@ {
        DesktopInvoke::PendingRequests
    } else if p == "/invoke/respondToRequest"@ {
        DesktopInvoke::RespondToRequest
    } else if p == "/invoke/recentEvents"@ {
        DesktopInvoke::RecentEvents
    } else if p == "/invoke/prepareProject"@ {
        DesktopInvoke::PrepareProject
    } else {
        DesktopInvoke::Unsupported
    }
}

/// Which desktop operation an invocation path names.
pub fn desktop_invoke_route(path: &str) -> (r: DesktopInvoke)
    ensures
        r == desktop_invoke_of(path@),
{
    let p = chars_of(path);
    let s = p.as_slice();
    if is(s, "/invoke/status") {
        DesktopInvoke::Status
    } else if is(s, "/invoke/listThreads") || is(s, "/invoke/listSessions") || is(s, "/invoke/searchThreads") {
        DesktopInvoke::ListThreads
    } else if is(s, "/invoke/listProjects") {
        DesktopInvoke::ListProjects
    } else if is(s, "/invoke/readThread") || is(s, "/invoke/resumeThread") {
        DesktopInvoke::ReadThread
    } else if is(s, "/invoke/listThreadTurns") || is(s, "/invoke/listThreadItems") || is(s, "/invoke/readThreadItem") {
        DesktopInvoke::History
    } else if is(s, "/invoke/startTurn") {
        DesktopInvoke::StartTurn
    } else if is(s, "/invoke/steerTurn") {
        DesktopInvoke::SteerTurn
    } else if is(s, "/invoke/interruptTurn") {
        DesktopInvoke::InterruptTurn
    } else if is(s, "/invoke/pendingRequests") {
        DesktopInvoke::PendingRequests
    } else if is(s, "/invoke/respondToRequest") {
        DesktopInvoke::RespondToRequest
    } else if is(s, "/invoke/recentEvents") {
        DesktopInvoke::RecentEvents
    } else if is(s, "/invoke/prepareProject") {
        DesktopInvoke::PrepareProject
    } else {
        DesktopInvoke::Unsupported
    }
}

/// Why a desktop invocation is refused before it reaches the desktop.
#[derive(Clone, Debug, PartialEq, Eq)]
pub enum InvokeError {
    /// A required text field is missing or empty (400).
    Required(String),
    /// `input[index]` is not an object (400).
    InputNotObject(usize),
    /// `input[index].text` is not a string (400).
    TextNotString(usize),
    /// `input[index].text_elements` is not a list (400).
    ElementsNotList(usize),
    /// The input is missing, empty, or neither text nor a list (400).
    InputRequired,
    /// `steerTurn` cannot be bound to a turn (400).
    SteerTurnIdUnsupported,
    /// The pending request belongs to another turn (409).
    TurnMismatch,
    /// The pending request is of a kind the desktop cannot answer (409).
    UnsupportedRequest,
}

/// A text field that must be present and not empty.
pub fn required(value: Option<String>, key: &str) -> (r: Result<String, InvokeError>)
    ensures
        match value {
            Some(v) => if v@.len() > 0 {
                r == Ok::<String, InvokeError>(v)
            } else {
                r matches Err(InvokeError::Required(k)) && k@ == key@
            },
            None => r matches Err(InvokeError::Required(k)) && k@ == key@,
        },
{
    match value {
        Some(v) => {
            if !v.as_str().is_empty() {
                Ok(v)
            } else {
                Err(InvokeError::Required(String::from_str(key)))
            }
        },
        None => Err(InvokeError::Required(String::from_str(key))),
    }
}

/// What an item of an `input` list holds, as far as it is checked.
#[derive(Clone, Copy, Debug, PartialEq, Eq)]
pub enum InputItem {
    /// Not an object.
    NotObject,
    /// An object whose `type` is not `"text"`.
    Other,
    /// A text item: whether `text` is a string, and what `text_elements` is.
    Text { text_is_string: bool, elements: Elements },
}

/// The `text_elements` of a text item.
#[derive(Clone, Copy, Debug, PartialEq, Eq, Structural)]
pub enum Elements {
    Absent,
    List,
    Other,
}

/// The `input` of a turn.
#[derive(Debug)]
pub enum TurnInput {
    Missing,
    /// A string.
    Text(String),
    /// A list.
    Items(Vec<InputItem>),
    /// Anything else.
    Other,
}

/// How the input is sent to the desktop.
#[derive(Clone, Debug, PartialEq, Eq)]
pub enum InputPlan {
    /// One text item with no annotations.
    SingleText(String),
    /// The list as given, with an empty `text_elements` added to each text
    /// item (by index) that has none; other content is kept as it is.
    Items(Vec<usize>),
}

/// The first item of a list that is refused, with the reason, if any.
pub open spec fn first_bad_item(items: Seq<InputItem>) -> Option<(int, InvokeError)>
    decreases items.len(),
{
    if items.len() == 0 {
        None
    } else {
        match first_bad_item(items.drop_last()) {
            Some(b) => Some(b),
            None => {
                let i = items.len() - 1;
                match items.last() {
                    InputItem::NotObject => Some((i, InvokeError::InputNotObject(i as usize))),
                    InputItem::Other => None,
                    InputItem::Text { text_is_string, elements } => if !text_is_string {
                        Some((i, InvokeError::TextNotString(i as usize)))
                    } else if elements == Elements::Other {
                        Some((i, InvokeError::ElementsNotList(i as usize)))
                    } else {
                        None
                    },
                }
            },
        }
    }
}

/// What checking the input of a turn gives: see [`input`].
pub open spec fn input_outcome(value: TurnInput, r: Result<InputPlan, InvokeError>) -> bool {
    match value {
        TurnInput::Text(t) => if t@.len() > 0 {
            r matches Ok(InputPlan::SingleText(s)) && s@ == t@
        } else {
            r == Err::<InputPlan, InvokeError>(InvokeError::InputRequired)
        },
        TurnInput::Items(v) => if v@.len() == 0 {
            r == Err::<InputPlan, InvokeError>(InvokeError::InputRequired)
        } else {
            match first_bad_item(v@) {
                Some((_, e)) => r == Err::<InputPlan, InvokeError>(e),
                None => r matches Ok(InputPlan::Items(fill)) && forall|i: int|
                    #![trigger v@[i]] 0 <= i < v@.len() ==> (fill@.contains(i as usize) <==> (v@[i] matches InputItem::Text {
                        elements: Elements::Absent,
                        ..
                    })),
            }
        },
        _ => r == Err::<InputPlan, InvokeError>(InvokeError::InputRequired),
    }
}

/// Checks the input of a turn: a non-empty text becomes one text item; a
/// non-empty list must hold objects, its text items a string `text` and,
/// when present, a list of `text_elements` (added empty when absent);
/// anything else is refused.
#[verifier::loop_isolation(false)]
pub fn input(value: TurnInput) -> (r: Result<InputPlan, InvokeError>)
    ensures
        input_outcome(value, r),
{
    match value {
        TurnInput::Text(t) => {
            if !t.as_str().is_empty() {
                Ok(InputPlan::SingleText(t))
            } else {
                Err(InvokeError::InputRequired)
            }
        },
        TurnInput::Items(v) => {
            let n = v.len();
            if n == 0 {
                return Err(InvokeError::InputRequired);
            }
            let mut fill: Vec<usize> = Vec::new();
            let mut i: usize = 0;
            while i < n
                invariant
                    i <= n,
                    n == v@.len(),
                    first_bad_item(v@.subrange(0, i as int)) is None,
                    forall|q: int| #![trigger fill@.contains(q as usize)] 0 <= q < i ==> (fill@.contains(q as usize) <==> (v@[q] matches InputItem::Text {
                        elements: Elements::Absent,
                        ..
                    })),
                    forall|k: int| 0 <= k < fill@.len() ==> (#[trigger] fill@[k]) < i,
                decreases n - i,
            {
                let ghost pre = v@.subrange(0, i as int);
                let ghost fill0 = fill@;
                assert(v@.subrange(0, i as int + 1).drop_last() =~= pre);
                assert(v@.subrange(0, i as int + 1).last() == v@[i as int]);
                match v[i] {
                    InputItem::NotObject => {
                        proof {
                            lemma_first_bad_extends(v@, i as int);
                        }
                        return Err(InvokeError::InputNotObject(i));
                    },
                    InputItem::Other => {},
                    InputItem::Text { text_is_string, elements } => {
                        if !text_is_string {
                            proof {
                                lemma_first_bad_extends(v@, i as int);
                            }
                            return Err(InvokeError::TextNotString(i));
                        }
                        if elements == Elements::Other {
                            proof {
                                lemma_first_bad_extends(v@, i as int);
                            }
                            return Err(InvokeError::ElementsNotList(i));
                        }
                        if elements == Elements::Absent {
                            fill.push(i);
                        }
                    },
                }
                proof {
                    let pushed = v@[i as int] matches InputItem::Text { elements: Elements::Absent, .. };
                    if pushed {
                        assert(fill@ == fill0.push(i));
                    } else {
                        assert(fill@ == fill0);
                    }
                    assert forall|q: int| #![trigger fill@.contains(q as usize)] 0 <= q < i + 1 implies (fill@.contains(
                        q as usize,
                    ) <==> (v@[q] matches InputItem::Text { elements: Elements::Absent, .. })) by {
                        if fill@.contains(q as usize) {
                            let k = choose|k: int| 0 <= k < fill@.len() && fill@[k] == q as usize;
                            if k < fill0.len() {
                                assert(fill0[k] == q as usize);
                                assert(fill0.contains(q as usize));
                            }
                        }
                        if q < i && fill0.contains(q as usize) {
                            let k = choose|k: int| 0 <= k < fill0.len() && fill0[k] == q as usize;
                            assert(fill@[k] == q as usize);
                        }
                        if q == i && fill0.contains(q as usize) {
                            let k = choose|k: int| 0 <= k < fill0.len() && fill0[k] == q as usize;
                            assert(fill0[k] < i);
                        }
                        if q == i && pushed {
                            assert(fill@[fill@.len() - 1] == i);
                        }
                    }
                    assert forall|k: int| 0 <= k < fill@.len() implies (#[trigger] fill@[k]) < i + 1 by {
                        if k < fill0.len() {
                            assert(fill0[k] < i);
                        }
                    }
                }
                i = i + 1;
            }
            assert(v@.subrange(0, n as int) =~= v@);
            Ok(InputPlan::Items(fill))
        },
        _ => Err(InvokeError::InputRequired),
    }
}

proof fn lemma_first_bad_extends(v: Seq<InputItem>, i: int)
    requires
        0 <= i < v.len(),
        first_bad_item(v.subrange(0, i)) is None,
    ensures
        first_bad_item(v.subrange(0, i + 1)) is Some ==> first_bad_item(v) == first_bad_item(v.subrange(0, i + 1)),
    decreases v.len() - i,
{
    if first_bad_item(v.subrange(0, i + 1)) is Some {
        lemma_first_bad_prefix(v, i + 1);
    }
}

proof fn lemma_first_bad_prefix(v: Seq<InputItem>, k: int)
    requires
        0 <= k <= v.len(),
        first_bad_item(v.subrange(0, k)) is Some,
    ensures
        first_bad_item(v) == first_bad_item(v.subrange(0, k)),
    decreases v.len() - k,
{
    if k < v.len() {
        assert(v.subrange(0, k + 1).drop_last() =~= v.subrange(0, k));
        lemma_first_bad_prefix(v, k + 1);
    } else {
        assert(v.subrange(0, k) =~= v);
    }
}

/// A pending request is answered only for the turn it belongs to.
pub fn require_request_turn(request_turn: Option<String>, turn: &str) -> (r: Result<(), InvokeError>)
    ensures
        (request_turn matches Some(t) && t@ == turn@) ==> r == Ok::<(), InvokeError>(()),
        !(request_turn matches Some(t) && t@ == turn@) ==> r == Err::<(), InvokeError>(InvokeError::TurnMismatch),
{
    match request_turn {
        Some(t) => {
            if chars_eq(chars_of(t.as_str()).as_slice(), chars_of(turn).as_slice()) {
                Ok(())
            } else {
                Err(InvokeError::TurnMismatch)
            }
        },
        None => Err(InvokeError::TurnMismatch),
    }
}

/// Where the answer to a pending request goes: the desktop operation, and
/// whether it carries only the `decision` of the result (else the whole
/// result, as `response`).
pub open spec fn approval_target(method: Seq<char>) -> Option<(Seq<char>, bool)> {
    if method == "item/commandExecution/requestApproval"@ {
        Some(("thread-follower-command-approval-decision"@, true))
    } else if method == "item/fileChange/requestApproval"@ {
        Some(("thread-follower-file-approval-decision"@, true))
    } else if method == "item/tool/requestUserInput"@ {
        Some(("thread-follower-submit-user-input"@, false))
    } else if method == "item/permissions/requestApproval"@ {
        Some(("thread-follower-permissions-request-approval-response"@, false))
    } else if method == "mcpServer/elicitation/request"@ {
        Some(("thread-follower-submit-mcp-server-elicitation-response"@, false))
    } else {
        None
    }
}

/// How to answer a pending request of the given method.
pub fn approval_route(method: &str) -> (r: Result<(&'static str, bool), InvokeError>)
    ensures
        match approval_target(method@) {
            Some((op, decision)) => r matches Ok((o, d)) && o@ == op && d == decision,
            None => r == Err::<(&'static str, bool), InvokeError>(InvokeError::UnsupportedRequest),
        },
{
    let m = chars_of(method);
    let s = m.as_slice();
    if is(s, "item/commandExecution/requestApproval") {
        Ok(("thread-follower-command-approval-decision", true))
    } else if is(s, "item/fileChange/requestApproval") {
        Ok(("thread-follower-file-approval-decision", true))
    } else if is(s, "item/tool/requestUserInput") {
        Ok(("thread-follower-submit-user-input", false))
    } else if is(s, "item/permissions/requestApproval") {
        Ok(("thread-follower-permissions-request-approval-response", false))
    } else if is(s, "mcpServer/elicitation/request") {
        Ok(("thread-follower-submit-mcp-server-elicitation-response", false))
    } else {
        Err(InvokeError::UnsupportedRequest)
    }
}

/// `steerTurn` follows the desktop's current turn; a `turnId` is refused
/// rather than silently ignored.
pub fn steer_turn_check(has_turn_id: bool) -> (r: Result<(), InvokeError>)
    ensures
        has_turn_id ==> r == Err::<(), InvokeError>(InvokeError::SteerTurnIdUnsupported),
        !has_turn_id ==> r == Ok::<(), InvokeError>(()),
{
    if has_turn_id {
        Err(InvokeError::SteerTurnIdUnsupported)
    } else {
        Ok(())
    }
}

/// A turn operation sent to the task's owner on the desktop.
#[derive(Clone, Copy, Debug, PartialEq, Eq, Structural)]
pub enum TurnOp {
    Start,
    Steer,
    Interrupt,
}

/// What the turn operations read from the body.
pub struct TurnFields {
    /// `threadId` when it is a string.
    pub thread_id: Option<String>,
    /// `turnId` when it is a string.
    pub turn_id: Option<String>,
    /// The body has a `turnId`, whatever it holds.
    pub has_turn_id: bool,
    pub input: TurnInput,
    /// The body has a `model` (copied into the request as it is).
    pub has_model: bool,
    /// The body has a `cwd` (copied into the request as it is).
    pub has_cwd: bool,
}

/// The parameters of a follower request.
#[derive(Debug)]
pub enum FollowerParams {
    /// `turnStart.request` = `{threadId, input}` plus `model` and `cwd`
    /// when the body has them, with `context.inheritThreadSettings` true.
    StartTurn { input: InputPlan, model: bool, cwd: bool },
    /// `{input, restoreMessage: null, attachments: [], clientUserMessageId}`
    /// with a fresh message ID.
    SteerTurn { input: InputPlan },
    /// `{expectedTurnId, mode: "user-stop"}`.
    InterruptTurn { expected_turn_id: String },
}

/// A request to the owner of a task: the task, the follower method, its
/// version and its parameters.
#[derive(Debug)]
pub struct FollowerCall {
    pub thread_id: String,
    pub method: &'static str,
    pub version: u32,
    pub params: FollowerParams,
}

/// Checks a turn operation and builds the follower request it sends:
/// `thread-follower-start-turn` v2, `thread-follower-steer-turn` v1 (which
/// refuses a `turnId`: the desktop steers its current turn) or
/// `thread-follower-interrupt-turn` v4 (which needs the expected `turnId`).
pub fn follower_call(op: TurnOp, f: TurnFields) -> (r: Result<FollowerCall, InvokeError>)
    ensures
        op == TurnOp::Steer && f.has_turn_id ==> r == Err::<FollowerCall, InvokeError>(
            InvokeError::SteerTurnIdUnsupported,
        ),
        !(op == TurnOp::Steer && f.has_turn_id) && filled(f.thread_id) is None ==> (r matches Err(
            InvokeError::Required(k),
        ) && k@ == "threadId"@),
        op == TurnOp::Start && filled(f.thread_id) is Some ==> match r {
            Ok(c) => c.thread_id@ == filled(f.thread_id)->Some_0 && c.method@ == "thread-follower-start-turn"@ && c.version == 2 && (c.params matches FollowerParams::StartTurn { input, model, cwd } && input_outcome(f.input, Ok(input)) && model == f.has_model && cwd == f.has_cwd),
            Err(e) => input_outcome(f.input, Err(e)),
        },
        op == TurnOp::Steer && !f.has_turn_id && filled(f.thread_id) is Some ==> match r {
            Ok(c) => c.thread_id@ == filled(f.thread_id)->Some_0 && c.method@ == "thread-follower-steer-turn"@ && c.version == 1 && (c.params matches FollowerParams::SteerTurn { input } && input_outcome(f.input, Ok(input))),
            Err(e) => input_outcome(f.input, Err(e)),
        },
        op == TurnOp::Interrupt && filled(f.thread_id) is Some ==> match filled(f.turn_id) {
            None => r matches Err(InvokeError::Required(k)) && k@ == "turnId"@,
            Some(u) => r matches Ok(c) && c.thread_id@ == filled(f.thread_id)->Some_0 && c.method@ == "thread-follower-interrupt-turn"@ && c.version == 4 && (c.params matches FollowerParams::InterruptTurn { expected_turn_id } && expected_turn_id@ == u),
        },
{
    let TurnFields { thread_id, turn_id, has_turn_id, input: value, has_model, has_cwd } = f;
    if op == TurnOp::Steer {
        if let Err(e) = steer_turn_check(has_turn_id) {
            return Err(e);
        }
    }
    let thread = match required(thread_id, "threadId") {
        Ok(t) => t,
        Err(e) => return Err(e),
    };
    match op {
        TurnOp::Start => match input(value) {
            Ok(plan) => Ok(FollowerCall {
                thread_id: thread,
                method: "thread-follower-start-turn",
                version: 2,
                params: FollowerParams::StartTurn { input: plan, model: has_model, cwd: has_cwd },
            }),
            Err(e) => Err(e),
        },
        TurnOp::Steer => match input(value) {
            Ok(plan) => Ok(FollowerCall {
                thread_id: thread,
                method: "thread-follower-steer-turn",
                version: 1,
                params: FollowerParams::SteerTurn { input: plan },
            }),
            Err(e) => Err(e),
        },
        TurnOp::Interrupt => match required(turn_id, "turnId") {
            Ok(u) => Ok(FollowerCall {
                thread_id: thread,
                method: "thread-follower-interrupt-turn",
                version: 4,
                params: FollowerParams::InterruptTurn { expected_turn_id: u },
            }),
            Err(e) => Err(e),
        },
    }
}

// ---------------------------------------------------------------------------
// The desktop's read-only thread index

/// The `cursor` of an index query.
#[derive(Debug)]
pub enum CursorField {
    /// Missing or null.
    Absent,
    /// A string.
    Text(String),
    /// Anything else.
    Other,
}

/// A query of the thread index.
#[derive(Clone, Copy, Debug, PartialEq, Eq)]
pub struct IndexQuery {
    /// Rows per page (default 50, between 1 and 100).
    pub limit: u64,
    /// Rows skipped.
    pub offset: u64,
    /// Oldest first.
    pub ascending: bool,
    /// Ordered by creation rather than update time.
    pub by_created: bool,
}

/// The cursor is not a non-negative integer in a string.
#[derive(Clone, Copy, Debug, PartialEq, Eq)]
pub struct InvalidCursor;

/// The offset a cursor gives (`str::parse::<i64>` that is not negative).
pub open spec fn cursor_offset(c: Seq<char>) -> Option<nat> {
    if c.len() > 0 && c[0] == '-' {
        if c.len() == 2 && c[1] == '0' { Some(0) } else { None }
    } else {
        parse_unsigned(c, i64::MAX as nat)
    }
}

/// Reads the parameters of an index query.
pub fn index_query(
    limit: Option<u64>,
    cursor: CursorField,
    ascending: bool,
    by_created: bool,
) -> (r: Result<IndexQuery, InvalidCursor>)
    ensures
        match cursor {
            CursorField::Absent => r == Ok::<IndexQuery, InvalidCursor>(IndexQuery {
                limit: clamp(match limit { Some(v) => v, None => 50 }, 1, 100),
                offset: 0,
                ascending,
                by_created,
            }),
            CursorField::Text(t) => match cursor_offset(t@) {
                Some(o) => r == Ok::<IndexQuery, InvalidCursor>(IndexQuery {
                    limit: clamp(match limit { Some(v) => v, None => 50 }, 1, 100),
                    offset: o as u64,
                    ascending,
                    by_created,
                }),
                None => r == Err::<IndexQuery, InvalidCursor>(InvalidCursor),
            },
            CursorField::Other => r == Err::<IndexQuery, InvalidCursor>(InvalidCursor),
        },
{
    let l = clamp_exec(
        match limit {
            Some(v) => v,
            None => 50,
        },
        1,
        100,
    );
    let offset: u64 = match cursor {
        CursorField::Absent => 0,
        CursorField::Text(t) => {
            let c = chars_of(t.as_str());
            if c.len() > 0 && c[0] == '-' {
                if c.len() == 2 && c[1] == '0' {
                    0
                } else {
                    return Err(InvalidCursor);
                }
            } else {
                match parse_unsigned_exec(c.as_slice(), 0x7fff_ffff_ffff_ffff) {
                    Some(v) => v,
                    None => return Err(InvalidCursor),
                }
            }
        },
        CursorField::Other => return Err(InvalidCursor),
    };
    Ok(IndexQuery { limit: l, offset, ascending, by_created })
}

/// The page of an index query: one row more than the limit is asked for;
/// it only tells whether more follow. The rows kept, and the next cursor.
pub fn index_page(query: IndexQuery, rows: usize) -> (r: (usize, Option<String>))
    requires
        query.offset <= i64::MAX,
        query.limit <= 100,
    ensures
        r.0 == (if rows as int > query.limit as int { query.limit as int } else { rows as int }),
        rows as int > query.limit as int ==> (r.1 matches Some(c) && c@ == decimal((query.offset + query.limit) as nat)),
        rows as int <= query.limit as int ==> r.1 is None,
{
    if rows as u64 > query.limit {
        (query.limit as usize, Some(decimal_string(query.offset + query.limit)))
    } else {
        (rows, None)
    }
}

} // verus!
